//! An ordered mapping from section name to entry list.
//!
//! The partitioner and the platform expander both produce such mappings.
//! It is kept as a vector of named buckets with pairwise distinct names, so
//! that insertion order is preserved and lookups have exact specifications.

use vstd::prelude::*;

use crate::entries::{entries_view, ConfigEntry, ConfigEntryV};
use crate::text::str_eq;

verus! {

/// One named bucket of entries.
#[derive(Debug, PartialEq)]
pub struct Section {
    pub name: String,
    pub entries: Vec<ConfigEntry>,
}

/// The mapping itself: named buckets in insertion order, names pairwise
/// distinct.
#[derive(Debug, PartialEq)]
pub struct Sections {
    pub sections: Vec<Section>,
}

/// The model of a mapping: a sequence of (name, entries) pairs.
pub type SectionsV = Seq<(Seq<char>, Seq<ConfigEntryV>)>;

/// The index of the first bucket named `name` at or after `i`.
pub open spec fn sec_find_from(m: SectionsV, name: Seq<char>, i: int) -> Option<int>
    decreases m.len() - i when 0 <= i <= m.len()
{
    if i >= m.len() {
        None
    } else if m[i].0 == name {
        Some(i)
    } else {
        sec_find_from(m, name, i + 1)
    }
}

/// The index of the bucket named `name`, if any.
pub open spec fn sec_find(m: SectionsV, name: Seq<char>) -> Option<int> {
    sec_find_from(m, name, 0)
}

/// The entries of the bucket named `name`, if any.
pub open spec fn sec_lookup(m: SectionsV, name: Seq<char>) -> Option<Seq<ConfigEntryV>> {
    match sec_find(m, name) {
        Some(i) => Some(m[i].1),
        None => None,
    }
}

/// Appends one entry to the bucket named `name`, creating the bucket at
/// the end if it is absent.
pub open spec fn sec_append(m: SectionsV, name: Seq<char>, e: ConfigEntryV) -> SectionsV {
    match sec_find(m, name) {
        Some(i) => m.update(i, (m[i].0, m[i].1.push(e))),
        None => m.push((name, seq![e])),
    }
}

/// Replaces the entries of the bucket named `name`, creating the bucket at
/// the end if it is absent.
pub open spec fn sec_replace(m: SectionsV, name: Seq<char>, es: Seq<ConfigEntryV>) -> SectionsV {
    match sec_find(m, name) {
        Some(i) => m.update(i, (name, es)),
        None => m.push((name, es)),
    }
}

/// Creates an empty bucket named `name` if it is absent.
pub open spec fn sec_ensure(m: SectionsV, name: Seq<char>) -> SectionsV {
    match sec_find(m, name) {
        Some(i) => m,
        None => m.push((name, Seq::empty())),
    }
}

/// Bucket names are pairwise distinct.
pub open spec fn sec_unique(m: SectionsV) -> bool {
    forall|i: int, j: int| 0 <= i < j < m.len() ==> m[i].0 != m[j].0
}

pub proof fn lemma_sec_find_from_range(m: SectionsV, name: Seq<char>, i: int)
    requires
        0 <= i <= m.len(),
    ensures
        sec_find_from(m, name, i) matches Some(j) ==> i <= j < m.len() && m[j].0 == name,
    decreases m.len() - i,
{
    if i < m.len() && m[i].0 != name {
        lemma_sec_find_from_range(m, name, i + 1);
    }
}

pub proof fn lemma_sec_find_from_none(m: SectionsV, name: Seq<char>, i: int)
    requires
        0 <= i <= m.len(),
        sec_find_from(m, name, i) is None,
    ensures
        forall|j: int| i <= j < m.len() ==> m[j].0 != name,
    decreases m.len() - i,
{
    if i < m.len() {
        lemma_sec_find_from_none(m, name, i + 1);
    }
}

/// Two mappings with the same bucket names position by position are
/// searched identically.
pub proof fn lemma_sec_find_same_names(m0: SectionsV, m1: SectionsV, name: Seq<char>, i: int)
    requires
        0 <= i <= m0.len(),
        m1.len() == m0.len(),
        forall|j: int| 0 <= j < m0.len() ==> m1[j].0 == m0[j].0,
    ensures
        sec_find_from(m1, name, i) == sec_find_from(m0, name, i),
    decreases m0.len() - i,
{
    if i < m0.len() {
        lemma_sec_find_same_names(m0, m1, name, i + 1);
    }
}

/// Searching a mapping extended by one bucket finds the old buckets
/// first and the new one last.
pub proof fn lemma_sec_find_push(m: SectionsV, p: (Seq<char>, Seq<ConfigEntryV>), name: Seq<char>, i: int)
    requires
        0 <= i <= m.len(),
    ensures
        sec_find_from(m.push(p), name, i) == match sec_find_from(m, name, i) {
            Some(j) => Some(j),
            None => if p.0 == name {
                Some(m.len() as int)
            } else {
                None
            },
        },
    decreases m.len() - i,
{
    let m1 = m.push(p);
    if i < m.len() {
        assert(m1[i] == m[i]);
        lemma_sec_find_push(m, p, name, i + 1);
    } else {
        assert(m1[m.len() as int] == p);
        assert(sec_find_from(m1, name, m.len() as int + 1) is None);
    }
}

/// What `sec_append` does to lookups: the named bucket gains the entry
/// at its end (an absent bucket counts as empty), every other bucket is
/// untouched.
pub proof fn lemma_sec_append_sees(m: SectionsV, name: Seq<char>, e: ConfigEntryV)
    ensures
        sec_lookup(sec_append(m, name, e), name) == Some(
            (match sec_lookup(m, name) {
                Some(es) => es,
                None => Seq::<ConfigEntryV>::empty(),
            }).push(e),
        ),
        forall|other: Seq<char>| other != name ==> sec_lookup(sec_append(m, name, e), other)
            == sec_lookup(m, other),
{
    let r = sec_append(m, name, e);
    match sec_find(m, name) {
        Some(i) => {
            lemma_sec_find_from_range(m, name, 0);
            lemma_sec_find_same_names(m, r, name, 0);
            assert((match sec_lookup(m, name) {
                Some(es) => es,
                None => Seq::<ConfigEntryV>::empty(),
            }).push(e) == m[i].1.push(e));
            assert forall|other: Seq<char>| other != name implies sec_lookup(r, other)
                == sec_lookup(m, other) by {
                lemma_sec_find_same_names(m, r, other, 0);
                match sec_find(m, other) {
                    Some(j) => {
                        lemma_sec_find_from_range(m, other, 0);
                        assert(j != i);
                    },
                    None => {},
                }
            }
        },
        None => {
            let p = (name, seq![e]);
            lemma_sec_find_push(m, p, name, 0);
            assert(sec_lookup(r, name) == Some(seq![e]));
            assert(Seq::<ConfigEntryV>::empty().push(e) =~= seq![e]);
            assert forall|other: Seq<char>| other != name implies sec_lookup(r, other)
                == sec_lookup(m, other) by {
                lemma_sec_find_push(m, p, other, 0);
                match sec_find(m, other) {
                    Some(j) => {
                        lemma_sec_find_from_range(m, other, 0);
                    },
                    None => {},
                }
            }
        },
    }
}

/// What `sec_replace` does to lookups: the named bucket holds exactly
/// the new entries, every other bucket is untouched.
pub proof fn lemma_sec_replace_sees(m: SectionsV, name: Seq<char>, es: Seq<ConfigEntryV>)
    ensures
        sec_lookup(sec_replace(m, name, es), name) == Some(es),
        forall|other: Seq<char>| other != name ==> sec_lookup(sec_replace(m, name, es), other)
            == sec_lookup(m, other),
{
    let r = sec_replace(m, name, es);
    match sec_find(m, name) {
        Some(i) => {
            lemma_sec_find_from_range(m, name, 0);
            lemma_sec_find_same_names(m, r, name, 0);
            assert forall|other: Seq<char>| other != name implies sec_lookup(r, other)
                == sec_lookup(m, other) by {
                lemma_sec_find_same_names(m, r, other, 0);
                match sec_find(m, other) {
                    Some(j) => {
                        lemma_sec_find_from_range(m, other, 0);
                        assert(j != i);
                    },
                    None => {},
                }
            }
        },
        None => {
            let p = (name, es);
            lemma_sec_find_push(m, p, name, 0);
            assert forall|other: Seq<char>| other != name implies sec_lookup(r, other)
                == sec_lookup(m, other) by {
                lemma_sec_find_push(m, p, other, 0);
                match sec_find(m, other) {
                    Some(j) => {
                        lemma_sec_find_from_range(m, other, 0);
                    },
                    None => {},
                }
            }
        },
    }
}

/// What `sec_ensure` does to lookups: the named bucket exists afterwards
/// (empty where it was absent), every other bucket is untouched.
pub proof fn lemma_sec_ensure_sees(m: SectionsV, name: Seq<char>)
    ensures
        sec_lookup(sec_ensure(m, name), name) == Some(
            match sec_lookup(m, name) {
                Some(es) => es,
                None => Seq::<ConfigEntryV>::empty(),
            },
        ),
        forall|other: Seq<char>| other != name ==> sec_lookup(sec_ensure(m, name), other)
            == sec_lookup(m, other),
{
    let r = sec_ensure(m, name);
    match sec_find(m, name) {
        Some(i) => {
            lemma_sec_find_from_range(m, name, 0);
        },
        None => {
            let p = (name, Seq::<ConfigEntryV>::empty());
            lemma_sec_find_push(m, p, name, 0);
            assert forall|other: Seq<char>| other != name implies sec_lookup(r, other)
                == sec_lookup(m, other) by {
                lemma_sec_find_push(m, p, other, 0);
                match sec_find(m, other) {
                    Some(j) => {
                        lemma_sec_find_from_range(m, other, 0);
                    },
                    None => {},
                }
            }
        },
    }
}

impl View for Sections {
    type V = SectionsV;

    open spec fn view(&self) -> SectionsV {
        self.sections@.map_values(|s: Section| (s.name@, entries_view(s.entries@)))
    }
}

impl Sections {
    /// Bucket names are pairwise distinct.
    pub open spec fn wf(&self) -> bool {
        sec_unique(self@)
    }

    pub fn new() -> (r: Self)
        ensures
            r@ == Seq::<(Seq<char>, Seq<ConfigEntryV>)>::empty(),
            r.wf(),
    {
        let r = Sections { sections: Vec::new() };
        assert(r@ =~= Seq::<(Seq<char>, Seq<ConfigEntryV>)>::empty());
        r
    }

    pub fn len(&self) -> (r: usize)
        ensures
            r == self@.len(),
    {
        self.sections.len()
    }

    /// The index of the bucket named `name`, if any.
    pub fn find(&self, name: &str) -> (r: Option<usize>)
        ensures
            match r {
                Some(i) => Some(i as int) == sec_find(self@, name@),
                None => sec_find(self@, name@) is None,
            },
    {
        let mut i: usize = 0;
        let n = self.sections.len();
        loop
            invariant
                n == self@.len(),
                0 <= i <= n,
                sec_find(self@, name@) == sec_find_from(self@, name@, i as int),
            decreases n - i,
        {
            if i >= n {
                return None;
            }
            if str_eq(self.sections[i].name.as_str(), name) {
                return Some(i);
            }
            i += 1;
        }
    }

    /// The entries of the bucket named `name`, if any.
    pub fn get(&self, name: &str) -> (r: Option<&Vec<ConfigEntry>>)
        ensures
            match r {
                Some(es) => Some(entries_view(es@)) == sec_lookup(self@, name@),
                None => sec_lookup(self@, name@) is None,
            },
    {
        match self.find(name) {
            Some(i) => {
                proof {
                    lemma_sec_find_from_range(self@, name@, 0);
                }
                Some(&self.sections[i].entries)
            },
            None => None,
        }
    }

    /// Appends one entry to the bucket named `name`, creating the bucket
    /// if it is absent.
    pub fn push_entry(&mut self, name: &str, e: ConfigEntry)
        ensures
            final(self)@ == sec_append(old(self)@, name@, e@),
            old(self).wf() ==> final(self).wf(),
    {
        let ghost m0 = self@;
        match self.find(name) {
            Some(i) => {
                proof {
                    lemma_sec_find_from_range(m0, name@, 0);
                }
                self.sections[i].entries.push(e);
                assert(entries_view(self.sections@[i as int].entries@) =~= m0[i as int].1.push(
                    e@,
                ));
                assert(self@ =~= sec_append(m0, name@, e@));
                proof {
                    if sec_unique(m0) {
                        lemma_unique_update(m0, self@, i as int);
                    }
                }
            },
            None => {
                let mut es: Vec<ConfigEntry> = Vec::new();
                es.push(e);
                self.sections.push(Section { name: name.to_owned(), entries: es });
                assert(entries_view(es@) =~= seq![e@]);
                assert(self@ =~= sec_append(m0, name@, e@));
                proof {
                    lemma_sec_find_from_none(m0, name@, 0);
                    if sec_unique(m0) {
                        lemma_unique_extend(m0, self@, name@);
                    }
                }
            },
        }
    }

    /// Replaces the entries of the bucket named `name`, creating the
    /// bucket if it is absent.
    pub fn set_bucket(&mut self, name: &str, es: Vec<ConfigEntry>)
        ensures
            final(self)@ == sec_replace(old(self)@, name@, entries_view(es@)),
            old(self).wf() ==> final(self).wf(),
    {
        let ghost m0 = self@;
        match self.find(name) {
            Some(i) => {
                proof {
                    lemma_sec_find_from_range(m0, name@, 0);
                }
                self.sections[i] = Section { name: name.to_owned(), entries: es };
                assert(self@ =~= sec_replace(m0, name@, entries_view(es@)));
                proof {
                    if sec_unique(m0) {
                        lemma_unique_update(m0, self@, i as int);
                    }
                }
            },
            None => {
                self.sections.push(Section { name: name.to_owned(), entries: es });
                assert(self@ =~= sec_replace(m0, name@, entries_view(es@)));
                proof {
                    lemma_sec_find_from_none(m0, name@, 0);
                    if sec_unique(m0) {
                        lemma_unique_extend(m0, self@, name@);
                    }
                }
            },
        }
    }

    /// Creates an empty bucket named `name` if it is absent.
    pub fn ensure_bucket(&mut self, name: &str)
        ensures
            final(self)@ == sec_ensure(old(self)@, name@),
            old(self).wf() ==> final(self).wf(),
    {
        let ghost m0 = self@;
        match self.find(name) {
            Some(_) => {},
            None => {
                self.sections.push(Section { name: name.to_owned(), entries: Vec::new() });
                assert(entries_view(Seq::<ConfigEntry>::empty()) =~= Seq::<ConfigEntryV>::empty());
                assert(self@ =~= sec_ensure(m0, name@));
                proof {
                    lemma_sec_find_from_none(m0, name@, 0);
                    if sec_unique(m0) {
                        lemma_unique_extend(m0, self@, name@);
                    }
                }
            },
        }
    }
}

/// A mapping whose bucket at `i` was changed without renaming it keeps its
/// names pairwise distinct.
proof fn lemma_unique_update(m0: SectionsV, m1: SectionsV, i: int)
    requires
        sec_unique(m0),
        0 <= i < m0.len(),
        m1.len() == m0.len(),
        m1[i].0 == m0[i].0,
        forall|j: int| 0 <= j < m0.len() && j != i ==> m1[j] == m0[j],
    ensures
        sec_unique(m1),
{
    assert forall|a: int, b: int| 0 <= a < b < m1.len() implies m1[a].0 != m1[b].0 by {
        assert(m0[a].0 != m0[b].0);
        assert(m1[a].0 == m0[a].0);
        assert(m1[b].0 == m0[b].0);
    }
}

/// A mapping extended by a bucket with a fresh name keeps its names
/// pairwise distinct.
proof fn lemma_unique_extend(m0: SectionsV, m1: SectionsV, name: Seq<char>)
    requires
        sec_unique(m0),
        forall|j: int| 0 <= j < m0.len() ==> m0[j].0 != name,
        m1.len() == m0.len() + 1,
        m1[m0.len() as int].0 == name,
        forall|j: int| 0 <= j < m0.len() ==> m1[j] == m0[j],
    ensures
        sec_unique(m1),
{
    assert forall|a: int, b: int| 0 <= a < b < m1.len() implies m1[a].0 != m1[b].0 by {
        if b < m0.len() {
            assert(m0[a].0 != m0[b].0);
        } else {
            assert(m0[a].0 != name);
        }
    }
}

} // verus!
