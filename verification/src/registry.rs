//! The tab registry: the authoritative in-memory map from tab identifier to
//! the last-known attributes and their update time. Updates merge field by
//! field and stamp a caller-supplied clock reading; the listing is kept
//! ordered by that stamp, most recently touched first.
use vstd::prelude::*;

use crate::assoc::{assoc_lookup, lemma_lookup_at_index, lemma_lookup_has, lemma_lookup_insert,
    lemma_lookup_remove, unique_keys};
use crate::tabs::{merged, AttrsModel, TabAttributes, TabId};

verus! {

/// One registry entry: when the tab was last touched, and what is known of it.
pub struct TabEntry {
    pub last_update: u64,
    pub attributes: TabAttributes,
}

/// Mathematical model of an entry.
pub struct EntryModel {
    pub last_update: u64,
    pub attributes: AttrsModel,
}

impl View for TabEntry {
    type V = EntryModel;

    open spec fn view(&self) -> EntryModel {
        EntryModel { last_update: self.last_update, attributes: self.attributes@ }
    }
}

/// Entries listed from most recently to least recently updated.
pub open spec fn recency_ordered(s: Seq<(TabId, EntryModel)>) -> bool {
    forall|i: int, j: int|
        0 <= i < j < s.len() ==> s[i].1.last_update >= s[j].1.last_update
}

/// The attributes stored under `id`, or the all-unknown record if the id is
/// absent: the base an incoming update merges onto.
pub open spec fn stored_attributes(s: Seq<(TabId, EntryModel)>, id: TabId) -> AttrsModel {
    match assoc_lookup(s, id) {
        Some(e) => e.attributes,
        None => AttrsModel { title: None, url: None, window_id: None },
    }
}

/// The in-memory tab registry. An entry exists exactly while the extension
/// has reported the tab and has not since removed it.
pub struct Registry {
    entries: Vec<(TabId, TabEntry)>,
}

impl View for Registry {
    type V = Seq<(TabId, EntryModel)>;

    closed spec fn view(&self) -> Seq<(TabId, EntryModel)> {
        Seq::new(self.entries@.len(), |i: int| (self.entries@[i].0, self.entries@[i].1@))
    }
}

impl Registry {
    /// Each tab id appears at most once, and entries stay ordered by recency.
    pub open spec fn wf(&self) -> bool {
        unique_keys(self@) && recency_ordered(self@)
    }

    /// An empty registry.
    pub fn new() -> (r: Registry)
        ensures
            r.wf(),
            r@.len() == 0,
    {
        let r = Registry { entries: Vec::new() };
        assert(r@ =~= Seq::<(TabId, EntryModel)>::empty());
        r
    }

    /// The index holding `tab_id`, if any.
    fn position_of(&self, tab_id: TabId) -> (r: Option<usize>)
        ensures
            match r {
                Some(i) => i < self@.len() && self@[i as int].0 == tab_id,
                None => forall|i: int| 0 <= i < self@.len() ==> self@[i].0 != tab_id,
            },
    {
        let mut i: usize = 0;
        while i < self.entries.len()
            invariant
                0 <= i <= self.entries@.len(),
                forall|j: int| 0 <= j < i ==> self@[j].0 != tab_id,
            decreases self.entries@.len() - i,
        {
            if self.entries[i].0 == tab_id {
                return Some(i);
            }
            i = i + 1;
        }
        None
    }

    /// Apply one `update` event: merge the incoming attributes onto what is
    /// stored (a present incoming field replaces the stored one, an absent
    /// one keeps it), stamp the entry with `now`, and keep the listing
    /// ordered by recency. A tab seen for the first time is created.
    #[verifier::rlimit(60)]
    pub fn apply_update(&mut self, tab_id: TabId, attributes: TabAttributes, now: u64)
        requires
            old(self).wf(),
        ensures
            final(self).wf(),
            assoc_lookup(final(self)@, tab_id) == Some(
                EntryModel {
                    last_update: now,
                    attributes: merged(attributes@, stored_attributes(old(self)@, tab_id)),
                },
            ),
            forall|k: TabId|
                k != tab_id ==> assoc_lookup(final(self)@, k) == assoc_lookup(old(self)@, k),
            final(self)@.len() == old(self)@.len() + (if assoc_lookup(old(self)@, tab_id) is Some {
                0int
            } else {
                1int
            }),
            (forall|j: int| 0 <= j < old(self)@.len() ==> old(self)@[j].1.last_update <= now)
                ==> final(self)@[0].0 == tab_id,
    {
        let ghost s0 = self@;
        let mut attrs = attributes;
        let pos = self.position_of(tab_id);
        match pos {
            Some(i) => {
                proof {
                    lemma_lookup_at_index(s0, i as int);
                }
                attrs.merge(&self.entries[i].1.attributes);
                self.entries.remove(i);
                proof {
                    assert(self@ =~= s0.remove(i as int));
                    assert forall|k: TabId| assoc_lookup(self@, k) == (if k == s0[i as int].0 {
                        Option::<EntryModel>::None
                    } else {
                        assoc_lookup(s0, k)
                    }) by {
                        lemma_lookup_remove(s0, i as int, k);
                    }
                }
            },
            None => {
                proof {
                    lemma_lookup_has(s0, tab_id);
                }
            },
        }
        let ghost s1 = self@;
        proof {
            assert(unique_keys(s1));
            assert(recency_ordered(s1));
            assert(forall|j: int| 0 <= j < s1.len() ==> s1[j].0 != tab_id) by {
                if exists|j: int| 0 <= j < s1.len() && s1[j].0 == tab_id {
                    let j = choose|j: int| 0 <= j < s1.len() && s1[j].0 == tab_id;
                    lemma_lookup_at_index(s1, j);
                }
            }
        }
        let mut j: usize = 0;
        while j < self.entries.len() && self.entries[j].1.last_update > now
            invariant
                self@ == s1,
                self.entries@.len() == s1.len(),
                0 <= j <= s1.len(),
                forall|m: int| 0 <= m < j ==> s1[m].1.last_update > now,
            decreases self.entries@.len() - j,
        {
            j = j + 1;
        }
        let entry = TabEntry { last_update: now, attributes: attrs };
        let ghost p = (tab_id, entry@);
        self.entries.insert(j, (tab_id, entry));
        proof {
            assert(self@ =~= s1.insert(j as int, p));
            s1.insert_ensures(j as int, p);
            assert forall|k: TabId| assoc_lookup(self@, k) == (if k == tab_id {
                Some(p.1)
            } else {
                assoc_lookup(s1, k)
            }) by {
                lemma_lookup_insert(s1, j as int, p, k);
            }
            assert(recency_ordered(self@)) by {
                assert(forall|m: int| 0 <= m < j ==> self@[m] == s1[m]);
                assert(forall|m: int| j <= m < s1.len() ==> self@[m + 1] == s1[m]);
                assert forall|m: int| j < m < self@.len() implies self@[m].1.last_update
                    <= now by {
                    assert(self@[m] == s1[m - 1]);
                    assert(s1[j as int].1.last_update <= now);
                    if m - 1 > j {
                        assert(s1[m - 1].1.last_update <= s1[j as int].1.last_update);
                    }
                }
            }
            assert(unique_keys(self@));
        }
    }

    /// Apply one `remove` event: delete the entry if present. Removing an
    /// absent id changes nothing; the result says whether an entry was
    /// deleted, so a caller can log the miss.
    pub fn remove(&mut self, tab_id: TabId) -> (was_present: bool)
        requires
            old(self).wf(),
        ensures
            final(self).wf(),
            was_present == (assoc_lookup(old(self)@, tab_id) is Some),
            assoc_lookup(final(self)@, tab_id) is None,
            forall|k: TabId|
                k != tab_id ==> assoc_lookup(final(self)@, k) == assoc_lookup(old(self)@, k),
            final(self)@.len() == old(self)@.len() - (if was_present {
                1int
            } else {
                0int
            }),
    {
        let ghost s0 = self@;
        let pos = self.position_of(tab_id);
        match pos {
            Some(i) => {
                proof {
                    lemma_lookup_at_index(s0, i as int);
                }
                self.entries.remove(i);
                proof {
                    assert(self@ =~= s0.remove(i as int));
                    assert forall|k: TabId| assoc_lookup(self@, k) == (if k == tab_id {
                        Option::<EntryModel>::None
                    } else {
                        assoc_lookup(s0, k)
                    }) by {
                        lemma_lookup_remove(s0, i as int, k);
                    }
                }
                true
            },
            None => {
                proof {
                    lemma_lookup_has(s0, tab_id);
                }
                false
            },
        }
    }

    /// A point-in-time copy of the registry, most recently updated first:
    /// the pairs come out in the stored recency order.
    pub fn snapshot_sorted(&self) -> (r: Vec<(TabId, TabAttributes)>)
        requires
            self.wf(),
        ensures
            r@.len() == self@.len(),
            forall|j: int|
                0 <= j < r@.len() ==> r@[j].0 == self@[j].0 && r@[j].1@ == self@[j].1.attributes,
    {
        let mut r: Vec<(TabId, TabAttributes)> = Vec::new();
        let mut i: usize = 0;
        while i < self.entries.len()
            invariant
                0 <= i <= self.entries@.len(),
                r@.len() == i,
                forall|j: int|
                    0 <= j < i ==> r@[j].0 == self@[j].0 && r@[j].1@ == self@[j].1.attributes,
            decreases self.entries@.len() - i,
        {
            let a = self.entries[i].1.attributes.duplicate();
            r.push((self.entries[i].0, a));
            i = i + 1;
        }
        r
    }

    /// How many tabs are currently known.
    pub fn len(&self) -> (r: usize)
        ensures
            r == self@.len(),
    {
        self.entries.len()
    }
}

/// A snapshot lists its entries ordered by update stamp, most recently
/// touched first: the stamps along a well-formed registry never increase.
pub proof fn lemma_snapshot_recency(r: &Registry)
    requires
        r.wf(),
    ensures
        forall|i: int, j: int|
            0 <= i < j < r@.len() ==> r@[i].1.last_update >= r@[j].1.last_update,
{
}

} // verus!
