//! Dictionary modules and the lookup of a term that ignores case and punctuation.

use vstd::prelude::*;
use itertools::{EitherOrBoth, Itertools};
use crate::text::chars_of;

verus! {

#[derive(Debug)]
pub struct DictConfig {
    pub name: String,
    pub authors: Vec<String>,
    pub language: String,
    pub description: Option<String>,
    pub data_source: Option<String>,
    pub pub_year: Option<u32>,
    pub license: Option<String>,
}

/// A dictionary entry: its term, other spellings of it, and its definitions.
#[derive(Debug)]
pub struct DictEntry {
    pub term: String,
    pub aliases: Option<Vec<String>>,
    pub definitions: Vec<String>,
}

#[derive(Debug)]
pub struct DictModule {
    pub name: String,
    pub authors: Vec<String>,
    pub language: String,
    pub description: Option<String>,
    pub pub_year: Option<u32>,
    pub license: Option<String>,
    pub entries: Vec<DictEntry>,
}

/// What `char::is_alphanumeric` says of `c` (Unicode `Alphabetic` or `Numeric`).
pub uninterp spec fn alphanumeric(c: char) -> bool;

/// Relies on `char::is_alphanumeric`, whose result depends on `c` alone: among
/// ASCII characters exactly the letters and digits are alphanumeric.
#[verifier::external_body]
fn is_alphanumeric(c: char) -> (r: bool)
    ensures
        r == alphanumeric(c),
        ('a' <= c <= 'z' || 'A' <= c <= 'Z' || '0' <= c <= '9') ==> r,
        c <= '\u{7f}' && !('a' <= c <= 'z' || 'A' <= c <= 'Z' || '0' <= c <= '9') ==> !r,
{
    c.is_alphanumeric()
}

/// Relies on itertools' `zip_longest` with `EitherOrBoth::left_and_right`: one pair
/// per position up to the longer length, `None` past the end of the shorter side.
#[verifier::external_body]
fn zip_longest_chars(a: &Vec<char>, b: &Vec<char>) -> (r: Vec<(Option<char>, Option<char>)>)
    ensures
        r@.len() == if a@.len() >= b@.len() {
            a@.len()
        } else {
            b@.len()
        },
        forall|i: int|
            0 <= i < r@.len() ==> #[trigger] r@[i] == (
                if i < a@.len() {
                    Some(a@[i])
                } else {
                    None
                },
                if i < b@.len() {
                    Some(b@[i])
                } else {
                    None
                },
            ),
{
    a.iter().copied().zip_longest(b.iter().copied()).map(EitherOrBoth::left_and_right).collect()
}

/// The characters that a comparison of terms looks at.
pub open spec fn kept(c: char) -> bool {
    alphanumeric(c) || c == '-' || c == '\''
}

/// ASCII lower case, as `char::to_ascii_lowercase` gives it.
pub open spec fn ascii_lower(c: char) -> char {
    if 'A' <= c <= 'Z' {
        ((c as u32) + 32) as char
    } else {
        c
    }
}

/// `s` with only its kept characters, in ASCII lower case.
pub open spec fn normalize(s: Seq<char>) -> Seq<char>
    decreases s.len(),
{
    if s.len() == 0 {
        seq![]
    } else if kept(s.last()) {
        normalize(s.drop_last()).push(ascii_lower(s.last()))
    } else {
        normalize(s.drop_last())
    }
}

fn to_ascii_lower(c: char) -> (r: char)
    ensures
        r == ascii_lower(c),
{
    if 'A' <= c && c <= 'Z' {
        ((c as u8) + 32) as char
    } else {
        c
    }
}

/// What the comparison makes of `c`, given whether `c` is alphanumeric: kept and
/// lower-cased if it is a letter, a digit, `-` or `'`, else dropped.
pub fn normalized_char(c: char, alphanumeric_c: bool) -> (r: Option<char>)
    ensures
        r == if alphanumeric_c || c == '-' || c == '\'' {
            Some(ascii_lower(c))
        } else {
            None::<char>
        },
{
    if alphanumeric_c || c == '-' || c == '\'' {
        Some(to_ascii_lower(c))
    } else {
        None
    }
}

/// The kept characters of `s`, lower-cased.
pub fn get_normalized_str_chars(s: &str) -> (r: Vec<char>)
    ensures
        r@ == normalize(s@),
{
    let v = chars_of(s);
    let mut r: Vec<char> = Vec::new();
    let mut i: usize = 0;
    while i < v.len()
        invariant
            i <= v@.len(),
            v@ == s@,
            r@ == normalize(v@.subrange(0, i as int)),
        decreases v@.len() - i,
    {
        let c = v[i];
        assert(v@.subrange(0, i + 1).drop_last() =~= v@.subrange(0, i as int));
        match normalized_char(c, is_alphanumeric(c)) {
            Some(n) => r.push(n),
            None => {},
        }
        i = i + 1;
    }
    assert(v@.subrange(0, i as int) =~= s@);
    r
}

/// Whether `a` and `b` agree once case and all characters but letters, digits,
/// `-` and `'` are set aside.
pub fn eq_ignore_punc_and_case(a: &str, b: &str) -> (r: bool)
    ensures
        r == (normalize(a@) == normalize(b@)),
{
    let a_chars = get_normalized_str_chars(a);
    let b_chars = get_normalized_str_chars(b);
    let pairs = zip_longest_chars(&a_chars, &b_chars);
    let mut i: usize = 0;
    while i < pairs.len()
        invariant
            i <= pairs@.len(),
            pairs@.len() == if a_chars@.len() >= b_chars@.len() {
                a_chars@.len()
            } else {
                b_chars@.len()
            },
            forall|k: int|
                0 <= k < pairs@.len() ==> #[trigger] pairs@[k] == (
                    if k < a_chars@.len() {
                        Some(a_chars@[k])
                    } else {
                        None
                    },
                    if k < b_chars@.len() {
                        Some(b_chars@[k])
                    } else {
                        None
                    },
                ),
            forall|k: int| 0 <= k < i ==> a_chars@[k] == b_chars@[k],
            i <= a_chars@.len() && i <= b_chars@.len(),
            a_chars@ == normalize(a@),
            b_chars@ == normalize(b@),
        decreases pairs@.len() - i,
    {
        let pair = pairs[i];
        match pair {
            (Some(x), Some(y)) => {
                if x != y {
                    assert(a_chars@[i as int] != b_chars@[i as int]);
                    return false;
                }
            },
            _ => {
                assert(a_chars@.len() != b_chars@.len());
                return false;
            },
        }
        i = i + 1;
    }
    assert(a_chars@ =~= b_chars@);
    true
}

/// Whether `q` names `e`, by its term or by one of its aliases.
pub open spec fn entry_matches(e: DictEntry, q: Seq<char>) -> bool {
    ||| normalize(e.term@) == normalize(q)
    ||| (e.aliases is Some && exists|j: int|
        0 <= j < e.aliases->0@.len() && normalize(#[trigger] e.aliases->0@[j]@) == normalize(q))
}

fn entry_matches_exec(e: &DictEntry, q: &str) -> (r: bool)
    ensures
        r == entry_matches(*e, q@),
{
    if eq_ignore_punc_and_case(e.term.as_str(), q) {
        return true;
    }
    match &e.aliases {
        None => false,
        Some(list) => {
            let mut j: usize = 0;
            while j < list.len()
                invariant
                    j <= list@.len(),
                    e.aliases == Some(*list),
                    normalize(e.term@) != normalize(q@),
                    forall|k: int| 0 <= k < j ==> normalize(#[trigger] list@[k]@) != normalize(q@),
                decreases list@.len() - j,
            {
                if eq_ignore_punc_and_case(list[j].as_str(), q) {
                    assert(e.aliases->0@[j as int]@ == list@[j as int]@);
                    return true;
                }
                j = j + 1;
            }
            false
        },
    }
}

impl DictModule {
    /// Assembles a dictionary module from its configuration and its entries.
    pub fn load(config: DictConfig, entries: Vec<DictEntry>) -> (r: DictModule)
        ensures
            r.entries@ == entries@,
            r.name == config.name,
            r.authors@ == config.authors@,
            r.language == config.language,
            r.description == config.description,
            r.pub_year == config.pub_year,
            r.license == config.license,
    {
        DictModule {
            name: config.name,
            authors: config.authors,
            language: config.language,
            description: config.description,
            pub_year: config.pub_year,
            license: config.license,
            entries,
        }
    }

    /// The first entry, in order, whose term or one of whose aliases matches `term`.
    pub fn find(&self, term: &str) -> (r: Option<&DictEntry>)
        ensures
            match r {
                Some(e) => exists|i: int|
                    0 <= i < self.entries@.len() && self.entries@[i] == *e && entry_matches(
                        *e,
                        term@,
                    ) && forall|k: int|
                        0 <= k < i ==> !entry_matches(#[trigger] self.entries@[k], term@),
                None => forall|k: int|
                    0 <= k < self.entries@.len() ==> !entry_matches(
                        #[trigger] self.entries@[k],
                        term@,
                    ),
            },
    {
        let mut i: usize = 0;
        while i < self.entries.len()
            invariant
                i <= self.entries@.len(),
                forall|k: int| 0 <= k < i ==> !entry_matches(#[trigger] self.entries@[k], term@),
            decreases self.entries@.len() - i,
        {
            if entry_matches_exec(&self.entries[i], term) {
                return Some(&self.entries[i]);
            }
            i = i + 1;
        }
        None
    }
}

} // verus!
