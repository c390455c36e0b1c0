//! A small table keyed by integers that keeps the order in which its keys came. Its values can be
//! walked and changed in place, which the specifications of the maps of std do not cover.
use vstd::prelude::*;

verus! {

/// A table of values by handle. Each handle occurs once; entries keep their order of arrival.
#[derive(Debug)]
pub struct Table<T> {
    entries: Vec<(u64, T)>,
}

/// Whether no handle occurs twice.
pub open spec fn distinct_handles<T>(entries: Seq<(u64, T)>) -> bool {
    forall|i: int, j: int|
        0 <= i < j < entries.len() ==> (#[trigger] entries[i]).0 != (#[trigger] entries[j]).0
}

/// The entries as a map.
pub open spec fn entries_map<T>(entries: Seq<(u64, T)>) -> Map<u64, T>
    decreases entries.len(),
{
    if entries.len() == 0 {
        Map::empty()
    } else {
        entries_map(entries.drop_last()).insert(entries.last().0, entries.last().1)
    }
}

/// A map of entries holds what the entries hold.
pub proof fn lemma_entries_map<T>(entries: Seq<(u64, T)>)
    requires
        distinct_handles(entries),
    ensures
        forall|k: u64| #[trigger]
            entries_map(entries).dom().contains(k) <==> exists|i: int|
                0 <= i < entries.len() && (#[trigger] entries[i]).0 == k,
        forall|i: int|
            0 <= i < entries.len() ==> entries_map(entries).dom().contains(
                (#[trigger] entries[i]).0,
            ) && entries_map(entries)[entries[i].0] == entries[i].1,
        entries_map(entries).dom().finite(),
        entries_map(entries).dom().len() == entries.len(),
    decreases entries.len(),
{
    if entries.len() > 0 {
        let front = entries.drop_last();
        assert(distinct_handles(front)) by {
            assert forall|i: int, j: int| 0 <= i < j < front.len() implies (#[trigger] front[i]).0
                != (#[trigger] front[j]).0 by {
                assert(entries[i].0 != entries[j].0);
            }
        }
        lemma_entries_map(front);
        let m = entries_map(entries);
        assert forall|k: u64| #[trigger] m.dom().contains(k) <==> exists|i: int|
            0 <= i < entries.len() && (#[trigger] entries[i]).0 == k by {
            if entries_map(front).dom().contains(k) {
                let i = choose|i: int| 0 <= i < front.len() && (#[trigger] front[i]).0 == k;
                assert(entries[i].0 == k);
            }
            if k == entries.last().0 {
                assert(entries[entries.len() - 1].0 == k);
            }
            if exists|i: int| 0 <= i < entries.len() && (#[trigger] entries[i]).0 == k {
                let i = choose|i: int| 0 <= i < entries.len() && (#[trigger] entries[i]).0 == k;
                if i < front.len() {
                    assert(front[i].0 == k);
                }
            }
        }
        assert forall|i: int| 0 <= i < entries.len() implies m.dom().contains(
            (#[trigger] entries[i]).0,
        ) && m[entries[i].0] == entries[i].1 by {
            if i < front.len() {
                assert(front[i] == entries[i]);
                assert(entries[i].0 != entries[entries.len() - 1].0);
            }
        }
        assert(!entries_map(front).dom().contains(entries.last().0)) by {
            if entries_map(front).dom().contains(entries.last().0) {
                let i = choose|i: int|
                    0 <= i < front.len() && (#[trigger] front[i]).0 == entries.last().0;
                assert(entries[i].0 != entries[entries.len() - 1].0);
            }
        }
    }
}

impl<T> Table<T> {
    /// The entries in order.
    pub closed spec fn rows(&self) -> Seq<(u64, T)> {
        self.entries@
    }

    /// No handle occurs twice.
    pub open spec fn wf(&self) -> bool {
        distinct_handles(self.rows())
    }

    /// The table as a map.
    pub open spec fn map(&self) -> Map<u64, T> {
        entries_map(self.rows())
    }

    /// A table without entries.
    pub fn new() -> (r: Table<T>)
        ensures
            r.rows() == Seq::<(u64, T)>::empty(),
            r.wf(),
            r.map() == Map::<u64, T>::empty(),
    {
        Table { entries: Vec::new() }
    }

    /// The number of entries.
    pub fn len(&self) -> (r: usize)
        ensures
            r == self.rows().len(),
    {
        self.entries.len()
    }

    /// Whether there is no entry.
    pub fn is_empty(&self) -> (r: bool)
        ensures
            r == (self.rows().len() == 0),
    {
        self.entries.len() == 0
    }

    /// The handle at a place.
    pub fn handle_at(&self, i: usize) -> (r: u64)
        requires
            i < self.rows().len(),
        ensures
            r == self.rows()[i as int].0,
    {
        self.entries[i].0
    }

    /// The value at a place.
    pub fn value_at(&self, i: usize) -> (r: &T)
        requires
            i < self.rows().len(),
        ensures
            *r == self.rows()[i as int].1,
    {
        &self.entries[i].1
    }

    /// Replaces the value at a place.
    pub fn set_value(&mut self, i: usize, value: T)
        requires
            i < old(self).rows().len(),
            old(self).wf(),
        ensures
            final(self).rows() == old(self).rows().update(
                i as int,
                (old(self).rows()[i as int].0, value),
            ),
            final(self).wf(),
            final(self).map() == old(self).map().insert(old(self).rows()[i as int].0, value),
    {
        let handle: u64 = self.entries[i].0;
        let ghost before = self.entries@;
        self.entries.set(i, (handle, value));
        proof {
            let after = self.entries@;
            assert(distinct_handles(after)) by {
                assert forall|a: int, b: int| 0 <= a < b < after.len() implies (
                #[trigger] after[a]).0 != (#[trigger] after[b]).0 by {
                    assert(before[a].0 != before[b].0);
                }
            }
            lemma_entries_map(before);
            lemma_entries_map(after);
            let b = entries_map(before).insert(handle, value);
            assert forall|k: u64| #[trigger] b.dom().contains(k) <==> exists|j: int|
                0 <= j < after.len() && (#[trigger] after[j]).0 == k by {
                if b.dom().contains(k) {
                    if k == handle {
                        assert(after[i as int].0 == k);
                    } else {
                        let j = choose|j: int|
                            0 <= j < before.len() && (#[trigger] before[j]).0 == k;
                        assert(after[j].0 == k);
                    }
                }
                if exists|j: int| 0 <= j < after.len() && (#[trigger] after[j]).0 == k {
                    let j = choose|j: int| 0 <= j < after.len() && (#[trigger] after[j]).0 == k;
                    assert(before[j].0 == k);
                }
            }
            assert forall|j: int| 0 <= j < after.len() implies b[(#[trigger] after[j]).0]
                == after[j].1 by {
                if j != i {
                    assert(after[j] == before[j]);
                    if j < i {
                        assert(after[j].0 != after[i as int].0);
                    } else {
                        assert(after[i as int].0 != after[j].0);
                    }
                }
            }
            lemma_same_map(entries_map(after), b, after);
        }
    }

    /// The place of a handle.
    pub fn find(&self, handle: u64) -> (r: Option<usize>)
        requires
            self.wf(),
        ensures
            r is Some <==> self.map().dom().contains(handle),
            r matches Some(i) ==> i < self.rows().len() && self.rows()[i as int].0 == handle
                && self.rows()[i as int].1 == self.map()[handle],
    {
        proof {
            lemma_entries_map(self.entries@);
        }
        let mut i: usize = 0;
        while i < self.entries.len()
            invariant
                i <= self.entries@.len(),
                forall|j: int| 0 <= j < i ==> (#[trigger] self.entries@[j]).0 != handle,
                self.wf(),
                forall|k: u64| #[trigger]
                    self.map().dom().contains(k) <==> exists|j: int|
                        0 <= j < self.rows().len() && (#[trigger] self.rows()[j]).0 == k,
                forall|j: int|
                    0 <= j < self.rows().len() ==> self.map().dom().contains(
                        (#[trigger] self.rows()[j]).0,
                    ) && self.map()[self.rows()[j].0] == self.rows()[j].1,
            decreases self.entries@.len() - i,
        {
            if self.entries[i].0 == handle {
                assert(self.rows()[i as int].0 == handle);
                return Some(i);
            }
            i += 1;
        }
        None
    }

    /// Removes the entry at a place; those behind it move up.
    pub fn remove_at(&mut self, i: usize) -> (r: T)
        requires
            i < old(self).rows().len(),
            old(self).wf(),
        ensures
            final(self).wf(),
            final(self).rows() == old(self).rows().remove(i as int),
            final(self).map() == old(self).map().remove(old(self).rows()[i as int].0),
            r == old(self).rows()[i as int].1,
    {
        let ghost before = self.entries@;
        let ghost handle = before[i as int].0;
        proof {
            lemma_entries_map(before);
        }
        let (_, value) = self.entries.remove(i);
        proof {
            let after = self.entries@;
            assert(after =~= before.remove(i as int));
            assert(distinct_handles(after)) by {
                assert forall|a: int, b: int| 0 <= a < b < after.len() implies (
                #[trigger] after[a]).0 != (#[trigger] after[b]).0 by {
                    let x = if a < i { a } else { a + 1 };
                    let y = if b < i { b } else { b + 1 };
                    assert(before[x].0 != before[y].0);
                }
            }
            lemma_entries_map(after);
            let m = entries_map(before).remove(handle);
            assert forall|k: u64| m.dom().contains(k) <==> exists|j: int|
                0 <= j < after.len() && (#[trigger] after[j]).0 == k by {
                if m.dom().contains(k) {
                    let j = choose|j: int|
                        0 <= j < before.len() && (#[trigger] before[j]).0 == k;
                    assert(j != i);
                    let y = if j < i { j } else { j - 1 };
                    assert(after[y].0 == k);
                }
                if exists|j: int| 0 <= j < after.len() && (#[trigger] after[j]).0 == k {
                    let j = choose|j: int|
                        0 <= j < after.len() && (#[trigger] after[j]).0 == k;
                    let x = if j < i { j } else { j + 1 };
                    assert(before[x].0 == k);
                    assert(before[x].0 != before[i as int].0);
                }
            }
            assert forall|j: int| 0 <= j < after.len() implies m[(#[trigger] after[j]).0]
                == after[j].1 by {
                let x = if j < i { j } else { j + 1 };
                assert(before[x] == after[j]);
                assert(before[x].0 != before[i as int].0);
            }
            assert(entries_map(after) =~= m);
        }
        value
    }

    /// Removes the entry of a handle; the order of the others stays.
    pub fn remove(&mut self, handle: u64) -> (r: Option<T>)
        requires
            old(self).wf(),
        ensures
            final(self).wf(),
            final(self).map() == old(self).map().remove(handle),
            r is Some <==> old(self).map().dom().contains(handle),
            r matches Some(v) ==> v == old(self).map()[handle] && final(self).rows().len() + 1
                == old(self).rows().len(),
            r is None ==> final(self).rows() == old(self).rows(),
    {
        match self.find(handle) {
            None => {
                assert(self.map().remove(handle) =~= self.map());
                None
            },
            Some(i) => Some(self.remove_at(i)),
        }
    }

    /// Sets the value of a handle; a new handle comes last.
    pub fn insert(&mut self, handle: u64, value: T)
        requires
            old(self).wf(),
        ensures
            final(self).wf(),
            final(self).map() == old(self).map().insert(handle, value),
    {
        match self.find(handle) {
            Some(i) => {
                self.set_value(i, value);
            },
            None => {
                let ghost before = self.entries@;
                self.entries.push((handle, value));
                proof {
                    let after = self.entries@;
                    assert(after.drop_last() =~= before);
                    lemma_entries_map(before);
                    assert(distinct_handles(after)) by {
                        assert forall|a: int, b: int| 0 <= a < b < after.len() implies (
                        #[trigger] after[a]).0 != (#[trigger] after[b]).0 by {
                            if b < before.len() {
                                assert(before[a].0 != before[b].0);
                            } else {
                                assert(before[a].0 != handle);
                            }
                        }
                    }
                }
            },
        }
    }

    /// Removes every entry.
    pub fn clear(&mut self)
        ensures
            final(self).rows() == Seq::<(u64, T)>::empty(),
            final(self).wf(),
            final(self).map() == Map::<u64, T>::empty(),
    {
        self.entries.clear();
    }
}

/// A map with the keys and values of entries is the map of the entries.
proof fn lemma_same_map<T>(a: Map<u64, T>, b: Map<u64, T>, entries: Seq<(u64, T)>)
    requires
        distinct_handles(entries),
        a == entries_map(entries),
        forall|k: u64| #[trigger]
            b.dom().contains(k) <==> exists|i: int|
                0 <= i < entries.len() && (#[trigger] entries[i]).0 == k,
        forall|i: int| 0 <= i < entries.len() ==> b[(#[trigger] entries[i]).0] == entries[i].1,
    ensures
        a == b,
{
    lemma_entries_map(entries);
    assert(a =~= b);
}

} // verus!
