//! Addresses of scripture: books, chapters, verses and words, and ranges of them,
//! with their text form `book`, `book.chapter`, `book.chapter.verse`,
//! `book.chapter.verse#word` and `from-to`.

use vstd::prelude::*;
use crate::text::{
    all_digits, chars_of, is_digit, dec_text, find_char, first_of, is_white_space, lemma_dec_text,
    lemma_first_of_at, lemma_first_of_none, parse_positive, positive_of, push_decimal, trim,
    trim_end, trim_start, trim_window,
};

verus! {

/// A point address. Numeric components are positive (see `Atom::wf`).
#[derive(Clone, Debug, Eq, Hash)]
pub enum Atom {
    Book { book: String },
    Chapter { book: String, chapter: u32 },
    Verse { book: String, chapter: u32, verse: u32 },
    Word { book: String, chapter: u32, verse: u32, word: u32 },
}

/// A model of an atom: its book code and its numeric components, outermost first.
/// The shape is the number of components: 0 book, 1 chapter, 2 verse, 3 word.
pub type AtomView = (Seq<char>, Seq<u32>);

impl View for Atom {
    type V = AtomView;

    open spec fn view(&self) -> AtomView {
        match self {
            Atom::Book { book } => (book@, seq![]),
            Atom::Chapter { book, chapter } => (book@, seq![*chapter]),
            Atom::Verse { book, chapter, verse } => (book@, seq![*chapter, *verse]),
            Atom::Word { book, chapter, verse, word } => (book@, seq![*chapter, *verse, *word]),
        }
    }
}

/// Every numeric component is positive.
pub open spec fn atom_wf(a: AtomView) -> bool {
    forall|i: int| 0 <= i < a.1.len() ==> a.1[i] > 0
}

/// A single address, or a range between two.
#[derive(Clone, Debug, Eq, Hash)]
pub enum RefId {
    Single(Atom),
    Range { from: Atom, to: Atom },
}

pub enum RefIdView {
    Single(AtomView),
    Range(AtomView, AtomView),
}

impl View for RefId {
    type V = RefIdView;

    open spec fn view(&self) -> RefIdView {
        match self {
            RefId::Single(a) => RefIdView::Single(a@),
            RefId::Range { from, to } => RefIdView::Range(from@, to@),
        }
    }
}

pub open spec fn ref_wf(r: RefIdView) -> bool {
    match r {
        RefIdView::Single(a) => atom_wf(a),
        RefIdView::Range(a, b) => atom_wf(a) && atom_wf(b),
    }
}

/// A range is valid when both ends have the same shape; a single address always is.
pub open spec fn ref_valid(r: RefIdView) -> bool {
    match r {
        RefIdView::Single(_) => true,
        RefIdView::Range(a, b) => a.1.len() == b.1.len(),
    }
}

/// Why a text is not an address.
#[derive(Clone, Copy, Debug, PartialEq, Eq, Structural)]
pub enum AtomError {
    InvalidChapter,
    InvalidVerse,
    InvalidWord,
    Unrecognized,
}

/// The text form of an atom.
pub open spec fn atom_text(a: AtomView) -> Seq<char> {
    let n = a.1;
    if n.len() == 0 {
        a.0
    } else if n.len() == 1 {
        a.0 + seq!['.'] + dec_text(n[0] as nat)
    } else if n.len() == 2 {
        a.0 + seq!['.'] + dec_text(n[0] as nat) + seq!['.'] + dec_text(n[1] as nat)
    } else {
        a.0 + seq!['.'] + dec_text(n[0] as nat) + seq!['.'] + dec_text(n[1] as nat) + seq!['#']
            + dec_text(n[2] as nat)
    }
}

/// The text form of an address.
pub open spec fn ref_text(r: RefIdView) -> Seq<char> {
    match r {
        RefIdView::Single(a) => atom_text(a),
        RefIdView::Range(a, b) => atom_text(a) + seq!['-'] + atom_text(b),
    }
}

/// Reading of an atom: an optional `#word` suffix is split off at the first `#`,
/// the rest is split at each `.`; one part is a book, two a chapter, three a verse,
/// or a word when the suffix is there. Any other count is unrecognized; a numeric
/// part that is not a positive `u32` is reported by name, outermost first.
pub open spec fn parse_atom(s: Seq<char>) -> Result<AtomView, AtomError> {
    match first_of(s, '#') {
        Some(h) => atom_of_parts(s.subrange(0, h), Some(s.subrange(h + 1, s.len() as int))),
        None => atom_of_parts(s, None),
    }
}

/// Reading of an atom whose `#word` suffix, if any, is already split off.
pub open spec fn atom_of_parts(main: Seq<char>, word: Option<Seq<char>>) -> Result<
    AtomView,
    AtomError,
> {
    match first_of(main, '.') {
        None => if word is None {
            Ok((main, seq![]))
        } else {
            Err(AtomError::Unrecognized)
        },
        Some(d1) => {
            let book = main.subrange(0, d1);
            let rest = main.subrange(d1 + 1, main.len() as int);
            match first_of(rest, '.') {
                None => if word is Some {
                    Err(AtomError::Unrecognized)
                } else {
                    match positive_of(rest) {
                        Some(c) => Ok((book, seq![c])),
                        None => Err(AtomError::InvalidChapter),
                    }
                },
                Some(d2) => {
                    let ch = rest.subrange(0, d2);
                    let vs = rest.subrange(d2 + 1, rest.len() as int);
                    if first_of(vs, '.') is Some {
                        Err(AtomError::Unrecognized)
                    } else {
                        match positive_of(ch) {
                            None => Err(AtomError::InvalidChapter),
                            Some(c) => match positive_of(vs) {
                                None => Err(AtomError::InvalidVerse),
                                Some(v) => match word {
                                    None => Ok((book, seq![c, v])),
                                    Some(w) => match positive_of(w) {
                                        None => Err(AtomError::InvalidWord),
                                        Some(wn) => Ok((book, seq![c, v, wn])),
                                    },
                                },
                            },
                        }
                    }
                },
            }
        },
    }
}

/// Reading of an address: where the text has a `-` and both sides of the first
/// one are non-empty once trimmed, the trimmed sides are the ends of a range;
/// otherwise the whole trimmed text is a single atom.
pub open spec fn parse_ref(s: Seq<char>) -> Result<RefIdView, AtomError> {
    let k = first_of(s, '-');
    let left = trim(s.subrange(0, k->0));
    let right = trim(s.subrange(k->0 + 1, s.len() as int));
    if k is Some && left.len() > 0 && right.len() > 0 {
        match parse_atom(left) {
            Err(e) => Err(e),
            Ok(a) => match parse_atom(right) {
                Err(e) => Err(e),
                Ok(b) => Ok(RefIdView::Range(a, b)),
            },
        }
    } else {
        match parse_atom(trim(s)) {
            Err(e) => Err(e),
            Ok(a) => Ok(RefIdView::Single(a)),
        }
    }
}

pub open spec fn atom_result_view(r: Result<Atom, AtomError>) -> Result<AtomView, AtomError> {
    match r {
        Ok(a) => Ok(a@),
        Err(e) => Err(e),
    }
}

pub open spec fn ref_result_view(r: Result<RefId, AtomError>) -> Result<RefIdView, AtomError> {
    match r {
        Ok(a) => Ok(a@),
        Err(e) => Err(e),
    }
}

/// A book code that survives a round trip through text: not empty, with no
/// separator (`.`, `#`, `-`) and no white space.
pub open spec fn book_code_ok(b: Seq<char>) -> bool {
    &&& b.len() > 0
    &&& forall|i: int|
        0 <= i < b.len() ==> b[i] != '.' && b[i] != '#' && b[i] != '-' && !is_white_space(
            #[trigger] b[i],
        )
}

pub open spec fn atom_text_ok(a: AtomView) -> bool {
    book_code_ok(a.0) && atom_wf(a) && a.1.len() <= 3
}

fn parse_atom_window(s: &str, v: &Vec<char>, lo: usize, hi: usize) -> (r: Result<Atom, AtomError>)
    requires
        v@ == s@,
        lo <= hi <= v@.len(),
    ensures
        atom_result_view(r) == parse_atom(v@.subrange(lo as int, hi as int)),
        r is Ok ==> atom_wf(r->Ok_0@),
{
    let ghost w = v@.subrange(lo as int, hi as int);
    match find_char(v, lo, hi, '#') {
        Some(h) => {
            assert(w.subrange(0, h - lo) =~= v@.subrange(lo as int, h as int));
            assert(w.subrange(h - lo + 1, w.len() as int) =~= v@.subrange(h + 1, hi as int));
            atom_from_window(s, v, lo, h, Some(h + 1), hi)
        },
        None => {
            assert(w =~= v@.subrange(lo as int, hi as int));
            atom_from_window(s, v, lo, hi, None, hi)
        },
    }
}

pub open spec fn word_window(v: Seq<char>, word: Option<usize>, hi: usize) -> Option<Seq<char>> {
    match word {
        Some(a) => Some(v.subrange(a as int, hi as int)),
        None => None,
    }
}

/// Reads `v[lo..main_hi]`, with the word suffix `v[word..hi]` if there is one.
fn atom_from_window(
    s: &str,
    v: &Vec<char>,
    lo: usize,
    main_hi: usize,
    word: Option<usize>,
    hi: usize,
) -> (r: Result<Atom, AtomError>)
    requires
        v@ == s@,
        lo <= main_hi <= hi <= v@.len(),
        word is Some ==> word->0 <= hi,
    ensures
        atom_result_view(r) == atom_of_parts(
            v@.subrange(lo as int, main_hi as int),
            word_window(v@, word, hi),
        ),
        r is Ok ==> atom_wf(r->Ok_0@),
{
    let ghost main = v@.subrange(lo as int, main_hi as int);
    match find_char(v, lo, main_hi, '.') {
        None => {
            if word.is_none() {
                let book = string_of(s, lo, main_hi);
                Ok(Atom::Book { book })
            } else {
                Err(AtomError::Unrecognized)
            }
        },
        Some(d1) => {
            assert(main.subrange(0, d1 - lo) =~= v@.subrange(lo as int, d1 as int));
            assert(main.subrange(d1 - lo + 1, main.len() as int) =~= v@.subrange(
                d1 + 1,
                main_hi as int,
            ));
            let ghost rest = v@.subrange(d1 + 1, main_hi as int);
            let book = string_of(s, lo, d1);
            match find_char(v, d1 + 1, main_hi, '.') {
                None => {
                    if word.is_some() {
                        Err(AtomError::Unrecognized)
                    } else {
                        match parse_positive(v, d1 + 1, main_hi) {
                            Some(c) => Ok(Atom::Chapter { book, chapter: c }),
                            None => Err(AtomError::InvalidChapter),
                        }
                    }
                },
                Some(d2) => {
                    assert(rest.subrange(0, d2 - d1 - 1) =~= v@.subrange(d1 + 1, d2 as int));
                    assert(rest.subrange(d2 - d1, rest.len() as int) =~= v@.subrange(
                        d2 + 1,
                        main_hi as int,
                    ));
                    verse_from_window(v, book, d1 + 1, d2, main_hi, word, hi)
                },
            }
        },
    }
}

/// The verse or word atom of `book` whose chapter is `v[c_lo..dot]` and whose
/// verse is `v[dot + 1..main_hi]`.
fn verse_from_window(
    v: &Vec<char>,
    book: String,
    c_lo: usize,
    dot: usize,
    main_hi: usize,
    word: Option<usize>,
    hi: usize,
) -> (r: Result<Atom, AtomError>)
    requires
        c_lo <= dot < main_hi <= hi <= v@.len(),
        word is Some ==> word->0 <= hi,
    ensures
        atom_result_view(r) == ({
            let ch = v@.subrange(c_lo as int, dot as int);
            let vs = v@.subrange(dot + 1, main_hi as int);
            if first_of(vs, '.') is Some {
                Err(AtomError::Unrecognized)
            } else {
                match positive_of(ch) {
                    None => Err(AtomError::InvalidChapter),
                    Some(c) => match positive_of(vs) {
                        None => Err(AtomError::InvalidVerse),
                        Some(x) => match word_window(v@, word, hi) {
                            None => Ok((book@, seq![c, x])),
                            Some(w) => match positive_of(w) {
                                None => Err(AtomError::InvalidWord),
                                Some(wn) => Ok((book@, seq![c, x, wn])),
                            },
                        },
                    },
                }
            }
        }),
        r is Ok ==> atom_wf(r->Ok_0@),
{
    if find_char(v, dot + 1, main_hi, '.').is_some() {
        return Err(AtomError::Unrecognized);
    }
    let chapter = match parse_positive(v, c_lo, dot) {
        Some(c) => c,
        None => {
            return Err(AtomError::InvalidChapter);
        },
    };
    let verse = match parse_positive(v, dot + 1, main_hi) {
        Some(x) => x,
        None => {
            return Err(AtomError::InvalidVerse);
        },
    };
    match word {
        None => Ok(Atom::Verse { book, chapter, verse }),
        Some(a) => match parse_positive(v, a, hi) {
            Some(w) => Ok(Atom::Word { book, chapter, verse, word: w }),
            None => Err(AtomError::InvalidWord),
        },
    }
}

fn string_of(s: &str, lo: usize, hi: usize) -> (r: String)
    requires
        lo <= hi <= s@.len(),
    ensures
        r@ == s@.subrange(lo as int, hi as int),
{
    String::from_str(s.substring_char(lo, hi))
}

impl Atom {
    pub open spec fn wf(&self) -> bool {
        atom_wf(self@)
    }

    /// Reads an atom from its text form.
    pub fn parse(s: &str) -> (r: Result<Atom, AtomError>)
        ensures
            atom_result_view(r) == parse_atom(s@),
            r is Ok ==> r->Ok_0.wf(),
    {
        let v = chars_of(s);
        assert(v@.subrange(0, v@.len() as int) =~= s@);
        parse_atom_window(s, &v, 0, v.len())
    }

    /// The text form of this atom.
    pub fn to_string(&self) -> (r: String)
        ensures
            r@ == atom_text(self@),
    {
        let mut out = String::new();
        self.write_to(&mut out);
        assert(out@ =~= atom_text(self@));
        out
    }

    fn write_to(&self, out: &mut String)
        ensures
            final(out)@ == old(out)@ + atom_text(self@),
    {
        match self {
            Atom::Book { book } => {
                out.append(book.as_str());
            },
            Atom::Chapter { book, chapter } => {
                out.append(book.as_str());
                out.append(dot());
                push_decimal(out, *chapter);
            },
            Atom::Verse { book, chapter, verse } => {
                out.append(book.as_str());
                out.append(dot());
                push_decimal(out, *chapter);
                out.append(dot());
                push_decimal(out, *verse);
            },
            Atom::Word { book, chapter, verse, word } => {
                out.append(book.as_str());
                out.append(dot());
                push_decimal(out, *chapter);
                out.append(dot());
                push_decimal(out, *verse);
                proof { reveal_strlit("#"); }
                out.append("#");
                push_decimal(out, *word);
            },
        }
        assert(final(out)@ =~= old(out)@ + atom_text(self@));
    }

    /// The book code.
    pub fn book(&self) -> (r: &str)
        ensures
            r@ == self@.0,
    {
        match self {
            Atom::Book { book } => book.as_str(),
            Atom::Chapter { book, .. } => book.as_str(),
            Atom::Verse { book, .. } => book.as_str(),
            Atom::Word { book, .. } => book.as_str(),
        }
    }

    /// The chapter, for every shape below a book.
    pub fn chapter(&self) -> (r: Option<u32>)
        ensures
            r == (if self@.1.len() >= 1 { Some(self@.1[0]) } else { None::<u32> }),
    {
        match self {
            Atom::Chapter { chapter, .. } => Some(*chapter),
            Atom::Verse { chapter, .. } => Some(*chapter),
            Atom::Word { chapter, .. } => Some(*chapter),
            _ => None,
        }
    }

    /// The verse, for a verse or a word.
    pub fn verse(&self) -> (r: Option<u32>)
        ensures
            r == (if self@.1.len() >= 2 { Some(self@.1[1]) } else { None::<u32> }),
    {
        match self {
            Atom::Verse { verse, .. } => Some(*verse),
            Atom::Word { verse, .. } => Some(*verse),
            _ => None,
        }
    }

    /// The word, for a word.
    pub fn word(&self) -> (r: Option<u32>)
        ensures
            r == (if self@.1.len() == 3 { Some(self@.1[2]) } else { None::<u32> }),
    {
        match self {
            Atom::Word { word, .. } => Some(*word),
            _ => None,
        }
    }

    /// A copy with the same model.
    pub fn duplicate(&self) -> (r: Atom)
        ensures
            r@ == self@,
    {
        match self {
            Atom::Book { book } => Atom::Book { book: book.clone() },
            Atom::Chapter { book, chapter } => Atom::Chapter { book: book.clone(), chapter: *chapter },
            Atom::Verse { book, chapter, verse } => Atom::Verse {
                book: book.clone(),
                chapter: *chapter,
                verse: *verse,
            },
            Atom::Word { book, chapter, verse, word } => Atom::Word {
                book: book.clone(),
                chapter: *chapter,
                verse: *verse,
                word: *word,
            },
        }
    }
}

fn dot() -> (r: &'static str)
    ensures
        r@ == seq!['.'],
{
    proof { reveal_strlit("."); }
    "."
}

/// Whether two strings hold the same characters.
pub fn same_text(a: &String, b: &String) -> (r: bool)
    ensures
        r == (a@ == b@),
{
    a.eq(b)
}

impl PartialEq for Atom {
    fn eq(&self, other: &Atom) -> (r: bool) {
        match (self, other) {
            (Atom::Book { book: a }, Atom::Book { book: b }) => same_text(a, b),
            (Atom::Chapter { book: a, chapter: c }, Atom::Chapter { book: b, chapter: d }) => {
                assert(self@.1[0] == *c && other@.1[0] == *d);
                same_text(a, b) && *c == *d
            },
            (
                Atom::Verse { book: a, chapter: c, verse: v },
                Atom::Verse { book: b, chapter: d, verse: w },
            ) => {
                assert(self@.1[0] == *c && other@.1[0] == *d);
                assert(self@.1[1] == *v && other@.1[1] == *w);
                same_text(a, b) && *c == *d && *v == *w
            },
            (
                Atom::Word { book: a, chapter: c, verse: v, word: x },
                Atom::Word { book: b, chapter: d, verse: w, word: y },
            ) => {
                assert(self@.1[0] == *c && other@.1[0] == *d);
                assert(self@.1[1] == *v && other@.1[1] == *w);
                assert(self@.1[2] == *x && other@.1[2] == *y);
                same_text(a, b) && *c == *d && *v == *w && *x == *y
            },
            _ => {
                assert(self@.1.len() != other@.1.len());
                false
            },
        }
    }
}

impl vstd::std_specs::cmp::PartialEqSpecImpl for Atom {
    open spec fn obeys_eq_spec() -> bool {
        true
    }

    open spec fn eq_spec(&self, other: &Atom) -> bool {
        self@ == other@
    }
}

impl RefId {
    pub open spec fn wf(&self) -> bool {
        ref_wf(self@)
    }

    /// Reads an address from its text form.
    pub fn parse(s: &str) -> (r: Result<RefId, AtomError>)
        ensures
            ref_result_view(r) == parse_ref(s@),
            r is Ok ==> r->Ok_0.wf(),
    {
        let v = chars_of(s);
        let n = v.len();
        assert(v@.subrange(0, n as int) =~= s@);
        let dash = find_char(&v, 0, n, '-');
        if let Some(k) = dash {
            let (l1, l2) = trim_window(&v, 0, k);
            let (r1, r2) = trim_window(&v, k + 1, n);
            if l2 > l1 && r2 > r1 {
                let from = match parse_atom_window(s, &v, l1, l2) {
                    Ok(a) => a,
                    Err(e) => {
                        return Err(e);
                    },
                };
                let to = match parse_atom_window(s, &v, r1, r2) {
                    Ok(a) => a,
                    Err(e) => {
                        return Err(e);
                    },
                };
                return Ok(RefId::Range { from, to });
            }
        }
        let (a, b) = trim_window(&v, 0, n);
        match parse_atom_window(s, &v, a, b) {
            Ok(at) => Ok(RefId::Single(at)),
            Err(e) => Err(e),
        }
    }

    /// The text form of this address.
    pub fn to_string(&self) -> (r: String)
        ensures
            r@ == ref_text(self@),
    {
        let mut out = String::new();
        match self {
            RefId::Single(a) => {
                a.write_to(&mut out);
            },
            RefId::Range { from, to } => {
                from.write_to(&mut out);
                proof { reveal_strlit("-"); }
                out.append("-");
                to.write_to(&mut out);
            },
        }
        assert(out@ =~= ref_text(self@));
        out
    }

    /// Whether a range joins two atoms of the same shape (a single address is valid).
    pub fn is_valid(&self) -> (r: bool)
        ensures
            r == ref_valid(self@),
    {
        match self {
            RefId::Single(_) => true,
            RefId::Range { from, to } => match (from, to) {
                (Atom::Book { .. }, Atom::Book { .. }) => true,
                (Atom::Chapter { .. }, Atom::Chapter { .. }) => true,
                (Atom::Verse { .. }, Atom::Verse { .. }) => true,
                (Atom::Word { .. }, Atom::Word { .. }) => true,
                _ => false,
            },
        }
    }

    /// Book, chapter and verse of a single verse address.
    pub fn get_verse_components(&self) -> (r: Option<(&str, u32, u32)>)
        ensures
            match self@ {
                RefIdView::Single(a) => if a.1.len() == 2 {
                    r is Some && (r->0).0@ == a.0 && (r->0).1 == a.1[0] && (r->0).2 == a.1[1]
                } else {
                    r is None
                },
                _ => r is None,
            },
    {
        match self {
            RefId::Single(Atom::Verse { book, chapter, verse }) => Some(
                (book.as_str(), *chapter, *verse),
            ),
            _ => None,
        }
    }

    /// A copy with the same model.
    pub fn duplicate(&self) -> (r: RefId)
        ensures
            r@ == self@,
    {
        match self {
            RefId::Single(a) => RefId::Single(a.duplicate()),
            RefId::Range { from, to } => RefId::Range { from: from.duplicate(), to: to.duplicate() },
        }
    }
}

impl PartialEq for RefId {
    fn eq(&self, other: &RefId) -> (r: bool) {
        match (self, other) {
            (RefId::Single(a), RefId::Single(b)) => a == b,
            (RefId::Range { from: a, to: b }, RefId::Range { from: c, to: d }) => a == c && b == d,
            _ => false,
        }
    }
}

impl vstd::std_specs::cmp::PartialEqSpecImpl for RefId {
    open spec fn obeys_eq_spec() -> bool {
        true
    }

    open spec fn eq_spec(&self, other: &RefId) -> bool {
        self@ == other@
    }
}

/// No element of `s` is `c`.
pub open spec fn free_of(s: Seq<char>, c: char) -> bool {
    forall|i: int| 0 <= i < s.len() ==> s[i] != c
}

proof fn lemma_split_at_sep(head: Seq<char>, sep: char, tail: Seq<char>)
    requires
        free_of(head, sep),
    ensures
        first_of(head + seq![sep] + tail, sep) == Some(head.len() as int),
        (head + seq![sep] + tail).subrange(0, head.len() as int) == head,
        (head + seq![sep] + tail).subrange(head.len() as int + 1, (head + seq![sep] + tail).len() as int)
            == tail,
{
    let t = head + seq![sep] + tail;
    lemma_first_of_at(t, sep, head.len() as int);
    assert(t.subrange(0, head.len() as int) =~= head);
    assert(t.subrange(head.len() as int + 1, t.len() as int) =~= tail);
}

proof fn lemma_free_concat(a: Seq<char>, b: Seq<char>, c: char)
    requires
        free_of(a, c),
        free_of(b, c),
    ensures
        free_of(a + b, c),
{
    assert forall|i: int| 0 <= i < (a + b).len() implies (a + b)[i] != c by {
        if i >= a.len() {
            assert((a + b)[i] == b[i - a.len()]);
        }
    }
}

proof fn lemma_number_text(n: u32)
    requires
        n > 0,
    ensures
        positive_of(dec_text(n as nat)) == Some(n),
        dec_text(n as nat).len() > 0,
        all_digits(dec_text(n as nat)),
        free_of(dec_text(n as nat), '.'),
        free_of(dec_text(n as nat), '#'),
        free_of(dec_text(n as nat), '-'),
        !is_white_space(dec_text(n as nat).last()),
{
    lemma_dec_text(n as nat);
    assert(is_digit(dec_text(n as nat)[0]));
}

proof fn lemma_atom_text_facts(a: AtomView)
    requires
        atom_text_ok(a),
    ensures
        atom_text(a).len() > 0,
        atom_text(a)[0] == a.0[0],
        !is_white_space(atom_text(a).last()),
        free_of(atom_text(a), '-'),
{
    let b = a.0;
    let dash = seq!['-'];
    assert(!is_white_space(b[0]));
    assert(!is_white_space(b.last()));
    assert(free_of(seq!['.'], '-'));
    assert(free_of(seq!['#'], '-'));
    assert(free_of(b, '-'));
    if a.1.len() >= 1 {
        lemma_number_text(a.1[0]);
    }
    if a.1.len() >= 2 {
        lemma_number_text(a.1[1]);
    }
    if a.1.len() >= 3 {
        lemma_number_text(a.1[2]);
    }
    if a.1.len() == 1 {
        lemma_free_concat(b, seq!['.'], '-');
        lemma_free_concat(b + seq!['.'], dec_text(a.1[0] as nat), '-');
    } else if a.1.len() == 2 {
        lemma_free_concat(b, seq!['.'], '-');
        lemma_free_concat(b + seq!['.'], dec_text(a.1[0] as nat), '-');
        lemma_free_concat(b + seq!['.'] + dec_text(a.1[0] as nat), seq!['.'], '-');
        lemma_free_concat(
            b + seq!['.'] + dec_text(a.1[0] as nat) + seq!['.'],
            dec_text(a.1[1] as nat),
            '-',
        );
    } else if a.1.len() == 3 {
        lemma_free_concat(b, seq!['.'], '-');
        lemma_free_concat(b + seq!['.'], dec_text(a.1[0] as nat), '-');
        lemma_free_concat(b + seq!['.'] + dec_text(a.1[0] as nat), seq!['.'], '-');
        lemma_free_concat(
            b + seq!['.'] + dec_text(a.1[0] as nat) + seq!['.'],
            dec_text(a.1[1] as nat),
            '-',
        );
        lemma_free_concat(
            b + seq!['.'] + dec_text(a.1[0] as nat) + seq!['.'] + dec_text(a.1[1] as nat),
            seq!['#'],
            '-',
        );
        lemma_free_concat(
            b + seq!['.'] + dec_text(a.1[0] as nat) + seq!['.'] + dec_text(a.1[1] as nat)
                + seq!['#'],
            dec_text(a.1[2] as nat),
            '-',
        );
    }
}

/// Reading the text form of a well-formed atom whose book code is free of
/// separators and white space gives the atom back.
pub proof fn lemma_atom_round_trip(a: AtomView)
    requires
        atom_text_ok(a),
    ensures
        parse_atom(atom_text(a)) == Ok::<AtomView, AtomError>(a),
{
    let b = a.0;
    let t = atom_text(a);
    assert(free_of(b, '.'));
    assert(free_of(b, '#'));
    assert(free_of(seq!['.'], '#'));
    if a.1.len() == 0 {
        lemma_first_of_none(t, '#');
        lemma_first_of_none(t, '.');
        assert(a.1 =~= Seq::<u32>::empty());
    } else if a.1.len() == 1 {
        let d1 = dec_text(a.1[0] as nat);
        lemma_number_text(a.1[0]);
        lemma_free_concat(b, seq!['.'], '#');
        lemma_free_concat(b + seq!['.'], d1, '#');
        lemma_first_of_none(t, '#');
        lemma_split_at_sep(b, '.', d1);
        lemma_first_of_none(d1, '.');
        assert(a.1 =~= seq![a.1[0]]);
    } else {
        let d1 = dec_text(a.1[0] as nat);
        let d2 = dec_text(a.1[1] as nat);
        lemma_number_text(a.1[0]);
        lemma_number_text(a.1[1]);
        let main = b + seq!['.'] + d1 + seq!['.'] + d2;
        lemma_free_concat(b, seq!['.'], '#');
        lemma_free_concat(b + seq!['.'], d1, '#');
        lemma_free_concat(b + seq!['.'] + d1, seq!['.'], '#');
        lemma_free_concat(b + seq!['.'] + d1 + seq!['.'], d2, '#');
        assert(main =~= b + seq!['.'] + (d1 + seq!['.'] + d2));
        lemma_split_at_sep(b, '.', d1 + seq!['.'] + d2);
        lemma_split_at_sep(d1, '.', d2);
        lemma_first_of_none(d2, '.');
        if a.1.len() == 2 {
            lemma_first_of_none(t, '#');
            assert(a.1 =~= seq![a.1[0], a.1[1]]);
            assert(parse_atom(t) == atom_of_parts(main, None));
        } else {
            let d3 = dec_text(a.1[2] as nat);
            lemma_number_text(a.1[2]);
            lemma_split_at_sep(main, '#', d3);
            assert(a.1 =~= seq![a.1[0], a.1[1], a.1[2]]);
            assert(first_of(t, '#') == Some(main.len() as int));
            assert(parse_atom(t) == atom_of_parts(main, Some(d3)));
        }
    }
}

proof fn lemma_trim_plain(s: Seq<char>)
    requires
        s.len() > 0,
        !is_white_space(s[0]),
        !is_white_space(s.last()),
    ensures
        trim(s) == s,
{
    assert(trim_start(s) == s);
    assert(trim_end(s) == s);
}

/// Every component of the address can be written and read back.
pub open spec fn ref_text_ok(r: RefIdView) -> bool {
    match r {
        RefIdView::Single(a) => atom_text_ok(a),
        RefIdView::Range(a, b) => atom_text_ok(a) && atom_text_ok(b),
    }
}

/// Round trip of the text form: reading the text of a well-formed address gives
/// the address back, so writing out what was read reproduces the text.
pub proof fn lemma_ref_round_trip(r: RefIdView, s: Seq<char>)
    requires
        ref_text_ok(r),
        s == ref_text(r),
    ensures
        parse_ref(s) == Ok::<RefIdView, AtomError>(r),
        ref_text(parse_ref(s)->Ok_0) == s,
{
    match r {
        RefIdView::Single(a) => {
            lemma_atom_text_facts(a);
            lemma_first_of_none(s, '-');
            lemma_trim_plain(s);
            lemma_atom_round_trip(a);
        },
        RefIdView::Range(a, b) => {
            let ta = atom_text(a);
            let tb = atom_text(b);
            lemma_atom_text_facts(a);
            lemma_atom_text_facts(b);
            lemma_split_at_sep(ta, '-', tb);
            lemma_trim_plain(ta);
            lemma_trim_plain(tb);
            lemma_atom_round_trip(a);
            lemma_atom_round_trip(b);
        },
    }
}

impl std::str::FromStr for Atom {
    type Err = AtomError;

    fn from_str(s: &str) -> Result<Atom, AtomError> {
        Atom::parse(s)
    }
}

impl std::str::FromStr for RefId {
    type Err = AtomError;

    fn from_str(s: &str) -> Result<RefId, AtomError> {
        RefId::parse(s)
    }
}

} // verus!
