//! Cross-reference modules and their audit against a checked scripture source.

use vstd::prelude::*;
use crate::modules::bible::BibleSource;
use crate::ref_id::{RefId, RefIdView};

verus! {

#[derive(Debug)]
pub struct XRefsConfig {
    pub name: String,
    pub description: Option<String>,
    pub data_source: Option<String>,
    pub license: Option<String>,
    pub language: Option<String>,
    pub pub_year: Option<u32>,
    pub bible_dep: Option<String>,
}

/// One member of a mutual group.
#[derive(Debug)]
pub struct MutualRef {
    pub id: RefId,
    pub text: Option<String>,
}

/// A cross-reference: from one address to others, or among a group of addresses.
#[derive(Debug)]
pub enum XRef {
    Directed { source: RefId, source_text: Option<String>, targets: Vec<RefId>, note: Option<String> },
    Mutual { refs: Vec<MutualRef>, note: Option<String> },
}

/// The addresses that a cross-reference names, in order.
pub open spec fn mentioned(x: XRef) -> Seq<RefIdView> {
    match x {
        XRef::Directed { source, targets, .. } => seq![source@] + targets@.map_values(
            |t: RefId| t@,
        ),
        XRef::Mutual { refs, .. } => refs@.map_values(|m: MutualRef| m.id@),
    }
}

#[derive(Debug)]
pub struct XRefModule {
    pub name: String,
    pub description: Option<String>,
    pub data_source: Option<String>,
    pub pub_year: Option<u32>,
    pub language: Option<String>,
    pub license: Option<String>,
    pub refs: Vec<XRef>,
    /// The 1-based line of each cross-reference in its data file.
    pub lines: Vec<usize>,
    pub bible_dep: Option<String>,
}

/// An address named on line `line` of a cross-reference file that no verse has.
#[derive(Debug)]
pub struct InvalidRef {
    pub id: RefId,
    pub line: usize,
}

/// `id` is the address of a verse of `bible`.
pub open spec fn resolves(bible: BibleSource, id: RefIdView) -> bool {
    exists|i: int| 0 <= i < bible.verses@.len() && #[trigger] bible.verses@[i].id@ == id
}

/// Every address that the cross-references name, in order, each with the line of
/// the cross-reference that names it.
pub open spec fn mentions(refs: Seq<XRef>, lines: Seq<usize>) -> Seq<(RefIdView, usize)>
    decreases refs.len(),
{
    if refs.len() == 0 {
        seq![]
    } else {
        mentions(refs.drop_last(), lines) + mentioned(refs.last()).map_values(
            |id: RefIdView| (id, lines[refs.len() - 1]),
        )
    }
}

pub open spec fn pairs_view(s: Seq<(RefId, usize)>) -> Seq<(RefIdView, usize)> {
    s.map_values(|p: (RefId, usize)| (p.0@, p.1))
}

fn push_mention(out: &mut Vec<(RefId, usize)>, id: &RefId, line: usize)
    ensures
        pairs_view(final(out)@) == pairs_view(old(out)@).push((id@, line)),
{
    out.push((id.duplicate(), line));
    assert(pairs_view(final(out)@) =~= pairs_view(old(out)@).push((id@, line)));
}

/// Whether some finding of `found` is about `id`.
fn already_found(found: &Vec<InvalidRef>, id: &RefId) -> (r: bool)
    ensures
        r == exists|k: int| 0 <= k < found@.len() && #[trigger] found@[k].id@ == id@,
{
    let mut k: usize = 0;
    while k < found.len()
        invariant
            k <= found@.len(),
            forall|j: int| 0 <= j < k ==> #[trigger] found@[j].id@ != id@,
        decreases found@.len() - k,
    {
        if found[k].id == *id {
            return true;
        }
        k = k + 1;
    }
    false
}

impl XRefModule {
    pub open spec fn wf(&self) -> bool {
        self.lines@.len() == self.refs@.len()
    }

    /// Assembles a cross-reference module from its configuration and its entries,
    /// each with its 1-based line; `None` where the two lists differ in length.
    pub fn load(config: XRefsConfig, refs: Vec<XRef>, lines: Vec<usize>) -> (r: Option<XRefModule>)
        ensures
            r is Some <==> lines@.len() == refs@.len(),
            r is Some ==> r->0.wf() && r->0.refs@ == refs@ && r->0.lines@ == lines@,
            r is Some ==> r->0.name == config.name && r->0.description == config.description
                && r->0.data_source == config.data_source && r->0.license == config.license
                && r->0.language == config.language && r->0.pub_year == config.pub_year
                && r->0.bible_dep == config.bible_dep,
    {
        if lines.len() != refs.len() {
            return None;
        }
        Some(
            XRefModule {
                name: config.name,
                description: config.description,
                language: config.language,
                pub_year: config.pub_year,
                license: config.license,
                data_source: config.data_source,
                bible_dep: config.bible_dep,
                refs,
                lines,
            },
        )
    }

    /// Every address named by the cross-references, with its line, in order.
    pub fn mentions(&self) -> (r: Vec<(RefId, usize)>)
        requires
            self.wf(),
        ensures
            pairs_view(r@) == mentions(self.refs@, self.lines@),
    {
        let mut out: Vec<(RefId, usize)> = Vec::new();
        let mut i: usize = 0;
        while i < self.refs.len()
            invariant
                self.wf(),
                i <= self.refs@.len(),
                pairs_view(out@) == mentions(self.refs@.subrange(0, i as int), self.lines@),
            decreases self.refs@.len() - i,
        {
            let ghost before = pairs_view(out@);
            let ghost here = mentioned(self.refs@[i as int]);
            let line = self.lines[i];
            assert(self.refs@.subrange(0, i + 1).drop_last() =~= self.refs@.subrange(0, i as int));
            match &self.refs[i] {
                XRef::Directed { source, targets, .. } => {
                    push_mention(&mut out, source, line);
                    let mut t: usize = 0;
                    while t < targets.len()
                        invariant
                            t <= targets@.len(),
                            here == seq![source@] + targets@.map_values(|x: RefId| x@),
                            pairs_view(out@) == before + here.subrange(0, t + 1).map_values(
                                |id: RefIdView| (id, line),
                            ),
                        decreases targets@.len() - t,
                    {
                        push_mention(&mut out, &targets[t], line);
                        assert(here.subrange(0, t + 2).map_values(|id: RefIdView| (id, line))
                            =~= here.subrange(0, t + 1).map_values(|id: RefIdView| (id, line)).push(
                            (targets@[t as int]@, line),
                        ));
                        t = t + 1;
                    }
                    assert(here.subrange(0, t + 1) =~= here);
                },
                XRef::Mutual { refs, .. } => {
                    let mut t: usize = 0;
                    assert(here.subrange(0, 0).map_values(|id: RefIdView| (id, line)) =~= seq![]);
                    assert(before + seq![] =~= before);
                    while t < refs.len()
                        invariant
                            t <= refs@.len(),
                            here == refs@.map_values(|m: MutualRef| m.id@),
                            pairs_view(out@) == before + here.subrange(0, t as int).map_values(
                                |id: RefIdView| (id, line),
                            ),
                        decreases refs@.len() - t,
                    {
                        push_mention(&mut out, &refs[t].id, line);
                        assert(here.subrange(0, t + 1).map_values(|id: RefIdView| (id, line))
                            =~= here.subrange(0, t as int).map_values(|id: RefIdView| (id, line)).push(
                            (refs@[t as int].id@, line),
                        ));
                        t = t + 1;
                    }
                    assert(here.subrange(0, t as int) =~= here);
                },
            }
            i = i + 1;
        }
        assert(self.refs@.subrange(0, i as int) =~= self.refs@);
        out
    }

    /// Every address named by the cross-references that no verse of `bible` has,
    /// each reported once, in order of first mention, with the line of the first
    /// cross-reference that names it.
    pub fn validate(&self, bible: &BibleSource) -> (r: Vec<InvalidRef>)
        requires
            self.wf(),
        ensures
            findings_view(r@) == audit(mentions(self.refs@, self.lines@), *bible),
    {
        let all = self.mentions();
        let ghost flat = mentions(self.refs@, self.lines@);
        let mut out: Vec<InvalidRef> = Vec::new();
        let mut m: usize = 0;
        while m < all.len()
            invariant
                m <= all@.len(),
                pairs_view(all@) == flat,
                findings_view(out@) == audit(flat.subrange(0, m as int), *bible),
            decreases all@.len() - m,
        {
            let id = &all[m].0;
            let line = all[m].1;
            assert(flat[m as int] == (id@, line));
            assert(flat.subrange(0, m + 1).drop_last() =~= flat.subrange(0, m as int));
            let ghost prev = findings_view(out@);
            let seen = already_found(&out, id);
            assert(seen == reported(prev, id@)) by {
                if seen {
                    let k = choose|k: int| 0 <= k < out@.len() && #[trigger] out@[k].id@ == id@;
                    assert(prev[k].0 == id@);
                }
                if reported(prev, id@) {
                    let k = choose|k: int| 0 <= k < prev.len() && #[trigger] prev[k].0 == id@;
                    assert(out@[k].id@ == id@);
                }
            }
            if !bible.contains(id) && !seen {
                out.push(InvalidRef { id: id.duplicate(), line });
                assert(findings_view(out@) =~= prev.push((id@, line)));
            }
            m = m + 1;
        }
        assert(flat.subrange(0, m as int) =~= flat);
        out
    }
}

pub open spec fn findings_view(s: Seq<InvalidRef>) -> Seq<(RefIdView, usize)> {
    s.map_values(|f: InvalidRef| (f.id@, f.line))
}

/// Some finding of `found` is about `id`.
pub open spec fn reported(found: Seq<(RefIdView, usize)>, id: RefIdView) -> bool {
    exists|k: int| 0 <= k < found.len() && #[trigger] found[k].0 == id
}

/// The findings of an audit of `named`: each address that no verse of `bible` has,
/// at its first mention, with that mention's line.
pub open spec fn audit(named: Seq<(RefIdView, usize)>, bible: BibleSource) -> Seq<(RefIdView, usize)>
    decreases named.len(),
{
    if named.len() == 0 {
        seq![]
    } else {
        let prev = audit(named.drop_last(), bible);
        let (id, line) = named.last();
        if !resolves(bible, id) && !reported(prev, id) {
            prev.push((id, line))
        } else {
            prev
        }
    }
}

/// An audit reports only addresses that do not resolve, each with a line that names
/// it; it reports every address that does not resolve; and it reports each once.
pub proof fn lemma_audit_complete_and_distinct(named: Seq<(RefIdView, usize)>, bible: BibleSource)
    ensures
        forall|k: int|
            0 <= k < audit(named, bible).len() ==> !resolves(bible, #[trigger] audit(named, bible)[k].0)
                && named.contains(audit(named, bible)[k]),
        forall|m: int|
            0 <= m < named.len() && !resolves(bible, #[trigger] named[m].0) ==> reported(
                audit(named, bible),
                named[m].0,
            ),
        forall|k1: int, k2: int|
            0 <= k1 < k2 < audit(named, bible).len() ==> #[trigger] audit(named, bible)[k1].0
                != #[trigger] audit(named, bible)[k2].0,
    decreases named.len(),
{
    if named.len() > 0 {
        let rest = named.drop_last();
        lemma_audit_complete_and_distinct(rest, bible);
        let prev = audit(rest, bible);
        let cur = audit(named, bible);
        let last = named.last();
        assert forall|k: int| 0 <= k < cur.len() implies !resolves(bible, #[trigger] cur[k].0)
            && named.contains(cur[k]) by {
            if k < prev.len() {
                assert(cur[k] == prev[k]);
                assert(!resolves(bible, prev[k].0));
                assert(rest.contains(prev[k]));
                let m = choose|m: int| 0 <= m < rest.len() && rest[m] == prev[k];
                assert(named[m] == rest[m]);
            } else {
                assert(named[named.len() - 1] == cur[k]);
            }
        }
        assert forall|m: int| 0 <= m < named.len() && !resolves(bible, #[trigger] named[m].0)
            implies reported(cur, named[m].0) by {
            if m < rest.len() {
                assert(rest[m] == named[m]);
                assert(reported(prev, rest[m].0));
                let k = choose|k: int| 0 <= k < prev.len() && #[trigger] prev[k].0 == rest[m].0;
                assert(cur[k] == prev[k]);
            } else if reported(prev, last.0) {
                let k = choose|k: int| 0 <= k < prev.len() && #[trigger] prev[k].0 == last.0;
                assert(cur[k] == prev[k]);
            } else {
                assert(cur[prev.len() as int].0 == last.0);
            }
        }
    }
}

} // verus!
