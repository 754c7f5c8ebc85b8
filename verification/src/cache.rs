//! A cache of package detail lookups, keyed by package name.
//!
//! Detail lookups are expensive external calls, so their parsed results are
//! kept in an association list with unique keys; an insert under a key that
//! is already present leaves the cache unchanged, as the first result won.

use vstd::prelude::*;

use crate::normalize::str_eq;

verus! {

/// One cached lookup: the package name and its parsed detail fields.
pub struct CacheEntry {
    pub name: String,
    pub fields: Vec<(String, String)>,
}

/// The cache: an association list whose keys are unique.
pub struct DetailsCache {
    pub entries: Vec<CacheEntry>,
}

impl DetailsCache {
    /// No two entries share a name.
    pub open spec fn wf(&self) -> bool {
        forall|i: int, j: int|
            0 <= i < j < self.entries@.len() ==> (#[trigger] self.entries@[i]).name@ != (
            #[trigger] self.entries@[j]).name@
    }

    pub open spec fn entries_view(&self) -> Seq<CacheEntry> {
        self.entries@
    }

    /// Some entry is stored under `k`.
    pub open spec fn has_key(&self, k: Seq<char>) -> bool {
        exists|i: int|
            0 <= i < self.entries@.len() && (#[trigger] self.entries@[i]).name@ == k
    }

    pub fn new() -> (r: DetailsCache)
        ensures
            r.wf(),
            r.entries_view().len() == 0,
    {
        DetailsCache { entries: Vec::new() }
    }

    /// The fields cached under `name`, if a lookup for it was stored.
    pub fn lookup(&self, name: &str) -> (r: Option<&Vec<(String, String)>>)
        requires
            self.wf(),
        ensures
            match r {
                Some(f) => exists|i: int|
                    0 <= i < self.entries_view().len() && (#[trigger] self.entries_view()[i]).name@
                        == name@ && *f == self.entries_view()[i].fields,
                None => !self.has_key(name@),
            },
    {
        let mut i: usize = 0;
        while i < self.entries.len()
            invariant
                i <= self.entries@.len(),
                forall|k: int| 0 <= k < i ==> (#[trigger] self.entries@[k]).name@ != name@,
            decreases self.entries@.len() - i,
        {
            if str_eq(self.entries[i].name.as_str(), name) {
                proof {
                    assert((self.entries_view()[i as int]).name@ == name@);
                }
                return Some(&self.entries[i].fields);
            }
            i = i + 1;
        }
        None
    }

    /// Stores `fields` under `name`, unless something is already stored
    /// there — the first stored result wins.
    pub fn insert(&mut self, name: String, fields: Vec<(String, String)>)
        requires
            old(self).wf(),
        ensures
            final(self).wf(),
            old(self).has_key(name@) ==> *final(self) == *old(self),
            !old(self).has_key(name@) ==> final(self).entries_view() == old(
                self,
            ).entries_view().push(CacheEntry { name, fields }),
            final(self).has_key(name@),
    {
        let mut i: usize = 0;
        while i < self.entries.len()
            invariant
                i <= self.entries@.len(),
                *self == *old(self),
                old(self).wf(),
                forall|k: int| 0 <= k < i ==> (#[trigger] self.entries@[k]).name@ != name@,
            decreases self.entries@.len() - i,
        {
            if str_eq(self.entries[i].name.as_str(), name.as_str()) {
                proof {
                    assert((self.entries_view()[i as int]).name@ == name@);
                    assert(self.wf());
                }
                return;
            }
            i = i + 1;
        }
        let ghost oldview = self.entries@;
        self.entries.push(CacheEntry { name, fields });
        proof {
            assert(self.entries@[oldview.len() as int].name@ == name@);
            assert(forall|k: int| 0 <= k < oldview.len() ==> #[trigger] self.entries@[k]
                == oldview[k]);
        }
    }
}

} // verus!
