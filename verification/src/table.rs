use vstd::prelude::*;
use crate::types::GroupId;

verus! {

/// The ledger entries of one kind that are keyed by a group identifier,
/// such as every group's details or every group's member list. At most one
/// entry is held per identifier.
pub struct Table<V> {
    entries: Vec<(GroupId, V)>,
}

/// Whether `i` is the position of the entry for `k` in `s`.
pub open spec fn entry_at<V>(s: Seq<(GroupId, V)>, i: int, k: Seq<u8>) -> bool {
    0 <= i < s.len() && s[i].0@ == k
}

impl<V: DeepView> Table<V> {
    /// No identifier has two entries.
    pub closed spec fn wf(&self) -> bool {
        forall|i: int, j: int|
            0 <= i < j < self.entries@.len() ==> #[trigger] self.entries@[i].0@ != #[trigger] self.entries@[j].0@
    }

    /// The entries, as a map from an identifier's bytes to the entry's value.
    pub closed spec fn map(&self) -> Map<Seq<u8>, V::V> {
        Map::new(
            |k: Seq<u8>| exists|i: int| entry_at(self.entries@, i, k),
            |k: Seq<u8>| self.entries@[choose|i: int| entry_at(self.entries@, i, k)].1.deep_view(),
        )
    }

    /// The position of the entry for `k`, where there is one.
    fn find(&self, k: &GroupId) -> (r: Option<usize>)
        requires
            self.wf(),
        ensures
            match r {
                Some(i) => entry_at(self.entries@, i as int, k@),
                None => forall|i: int| !entry_at(self.entries@, i, k@),
            },
    {
        let n = self.entries.len();
        let mut i: usize = 0;
        while i < n
            invariant
                n == self.entries@.len(),
                i <= n,
                forall|j: int| 0 <= j < i ==> !entry_at(self.entries@, j, k@),
            decreases n - i,
        {
            if self.entries[i].0.same_as(k) {
                return Some(i);
            }
            i = i + 1;
        }
        None
    }

    proof fn lemma_lookup(&self, i: int, k: Seq<u8>)
        requires
            self.wf(),
            entry_at(self.entries@, i, k),
        ensures
            self.map().contains_key(k),
            self.map()[k] == self.entries@[i].1.deep_view(),
    {
        let j = choose|j: int| entry_at(self.entries@, j, k);
        assert(entry_at(self.entries@, j, k));
        if i < j {
            assert(self.entries@[i].0@ != self.entries@[j].0@);
        } else if j < i {
            assert(self.entries@[j].0@ != self.entries@[i].0@);
        }
    }

    /// An empty table.
    pub fn new() -> (t: Self)
        ensures
            t.wf(),
            t.map() == Map::<Seq<u8>, V::V>::empty(),
    {
        let t = Table { entries: Vec::new() };
        assert(t.map() =~= Map::<Seq<u8>, V::V>::empty());
        t
    }

    /// Whether there is an entry for `k`.
    pub fn contains(&self, k: &GroupId) -> (r: bool)
        requires
            self.wf(),
        ensures
            r == self.map().contains_key(k@),
    {
        match self.find(k) {
            Some(i) => {
                proof { self.lemma_lookup(i as int, k@); }
                true
            },
            None => false,
        }
    }

    /// The entry for `k`, where there is one.
    pub fn get(&self, k: &GroupId) -> (r: Option<&V>)
        requires
            self.wf(),
        ensures
            r.is_some() == self.map().contains_key(k@),
            r matches Some(v) ==> v.deep_view() == self.map()[k@],
    {
        match self.find(k) {
            Some(i) => {
                proof { self.lemma_lookup(i as int, k@); }
                Some(&self.entries[i].1)
            },
            None => None,
        }
    }

    /// Sets the entry for `k` to `v`, replacing any entry it had.
    pub fn set(&mut self, k: GroupId, v: V)
        requires
            old(self).wf(),
        ensures
            final(self).wf(),
            final(self).map() == old(self).map().insert(k@, v.deep_view()),
    {
        let ghost old_entries = self.entries@;
        let ghost vv = v.deep_view();
        match self.find(&k) {
            Some(i) => {
                self.entries.set(i, (k, v));
                assert forall|k2: Seq<u8>| #[trigger] self.map().contains_key(k2)
                    <==> old(self).map().insert(k@, vv).contains_key(k2) by {
                    if k2 != k@ {
                        if exists|j: int| entry_at(self.entries@, j, k2) {
                            let j = choose|j: int| entry_at(self.entries@, j, k2);
                            assert(entry_at(old_entries, j, k2));
                        }
                        if exists|j: int| entry_at(old_entries, j, k2) {
                            let j = choose|j: int| entry_at(old_entries, j, k2);
                            assert(entry_at(self.entries@, j, k2));
                        }
                    } else {
                        assert(entry_at(self.entries@, i as int, k2));
                    }
                }
                assert forall|k2: Seq<u8>| #[trigger] self.map().contains_key(k2)
                    implies self.map()[k2] == old(self).map().insert(k@, vv)[k2] by {
                    let j = choose|j: int| entry_at(self.entries@, j, k2);
                    assert(entry_at(self.entries@, j, k2));
                    self.lemma_lookup(j, k2);
                    if k2 != k@ {
                        assert(j != i);
                        assert(entry_at(old_entries, j, k2));
                        old(self).lemma_lookup(j, k2);
                    }
                }
                assert(self.map() =~= old(self).map().insert(k@, vv));
            },
            None => {
                self.entries.push((k, v));
                assert forall|a: int, b: int| 0 <= a < b < self.entries@.len() implies
                    #[trigger] self.entries@[a].0@ != #[trigger] self.entries@[b].0@ by {
                    if b == old_entries.len() {
                        assert(!entry_at(old_entries, a, k@));
                    } else {
                        assert(old_entries[a].0@ != old_entries[b].0@);
                    }
                }
                assert forall|k2: Seq<u8>| #[trigger] self.map().contains_key(k2)
                    <==> old(self).map().insert(k@, vv).contains_key(k2) by {
                    if k2 != k@ {
                        if exists|j: int| entry_at(self.entries@, j, k2) {
                            let j = choose|j: int| entry_at(self.entries@, j, k2);
                            assert(entry_at(old_entries, j, k2));
                        }
                        if exists|j: int| entry_at(old_entries, j, k2) {
                            let j = choose|j: int| entry_at(old_entries, j, k2);
                            assert(entry_at(self.entries@, j, k2));
                        }
                    } else {
                        assert(entry_at(self.entries@, old_entries.len() as int, k2));
                    }
                }
                assert forall|k2: Seq<u8>| #[trigger] self.map().contains_key(k2)
                    implies self.map()[k2] == old(self).map().insert(k@, vv)[k2] by {
                    let j = choose|j: int| entry_at(self.entries@, j, k2);
                    assert(entry_at(self.entries@, j, k2));
                    self.lemma_lookup(j, k2);
                    if k2 != k@ {
                        assert(j != old_entries.len());
                        assert(entry_at(old_entries, j, k2));
                        old(self).lemma_lookup(j, k2);
                    } else {
                        if j < old_entries.len() {
                            assert(entry_at(old_entries, j, k@));
                        }
                        assert(self.entries@[j].1 == v);
                    }
                }
                assert(self.map() =~= old(self).map().insert(k@, vv));
            },
        }
    }
}

} // verus!
