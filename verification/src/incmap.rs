//! An insertion-ordered store of values keyed by a monotonically
//! increasing identifier.  Identifiers are handed out by insertion and
//! never reused within a session, so the entries are kept sorted by
//! identifier, which is also insertion order.

use vstd::prelude::*;

verus! {

pub struct IncMap<T> {
    next_id: u32,
    data: Vec<(u32, T)>,
}

impl<T> IncMap<T> where T: Copy {
    /// The stored entries as `(identifier, value)` pairs, oldest first.
    pub closed spec fn entries(self) -> Seq<(u32, T)> {
        self.data@
    }

    pub closed spec fn spec_next_id(self) -> u32 {
        self.next_id
    }

    /// Identifiers are strictly increasing and all below the next free one.
    pub open spec fn wf(self) -> bool {
        &&& forall|i: int, j: int|
            0 <= i < j < self.entries().len()
                ==> self.entries()[i].0 < self.entries()[j].0
        &&& forall|i: int|
            0 <= i < self.entries().len() ==> (#[trigger] self.entries()[i]).0
                < self.spec_next_id()
    }

    /// Whether some entry carries the identifier `id`.
    pub open spec fn contains_id(self, id: u32) -> bool {
        exists|i: int| 0 <= i < self.entries().len() && (#[trigger] self.entries()[i]).0 == id
    }

    /// One more identifier can still be handed out.
    pub open spec fn can_insert(self) -> bool {
        self.spec_next_id() < u32::MAX
    }

    pub fn new() -> (r: IncMap<T>)
        ensures
            r.wf(),
            r.entries() =~= Seq::<(u32, T)>::empty(),
            r.spec_next_id() == 0,
    {
        IncMap { next_id: 0, data: Vec::new() }
    }

    pub fn insert(&mut self, e: T)
        requires
            old(self).wf(),
            old(self).can_insert(),
        ensures
            final(self).wf(),
            final(self).entries() =~= old(self).entries().push(
                (old(self).spec_next_id(), e)),
            final(self).spec_next_id() == old(self).spec_next_id() + 1,
    {
        self.data.push((self.next_id, e));
        self.next_id = self.next_id + 1;
        proof {
            let olde = old(self).entries();
            let newe = self.entries();
            assert forall|i: int, j: int| 0 <= i < j < newe.len()
                implies (newe[i]).0 < (newe[j]).0 by {
                assert(newe[i] == olde[i]);
                if j < newe.len() - 1 {
                    assert(newe[j] == olde[j]);
                }
            }
            assert forall|i: int| 0 <= i < newe.len()
                implies (#[trigger] newe[i]).0 < self.spec_next_id() by {
                if i < newe.len() - 1 {
                    assert(newe[i] == olde[i]);
                }
            }
        }
    }

    pub fn len(&self) -> (r: usize)
        ensures
            r == self.entries().len(),
    {
        self.data.len()
    }

    /// The `k`-th oldest entry.
    pub fn entry_at(&self, k: usize) -> (r: (u32, T))
        requires
            k < self.entries().len(),
        ensures
            r == self.entries()[k as int],
    {
        self.data[k]
    }

    /// Whether one more identifier can be handed out right now.
    pub fn has_capacity(&self) -> (r: bool)
        ensures
            r == self.can_insert(),
    {
        self.next_id < u32::MAX
    }

    /// Replaces the value of the `k`-th oldest entry, keeping its
    /// identifier.
    pub fn update_at(&mut self, k: usize, v: T)
        requires
            old(self).wf(),
            k < old(self).entries().len(),
        ensures
            final(self).wf(),
            final(self).spec_next_id() == old(self).spec_next_id(),
            final(self).entries() =~= old(self).entries().update(
                k as int,
                (old(self).entries()[k as int].0, v),
            ),
    {
        let id = self.data[k].0;
        self.data.set(k, (id, v));
        proof {
            assert forall|i: int, j: int| 0 <= i < j < self.entries().len()
                implies (self.entries()[i]).0 < (self.entries()[j]).0 by {
                assert((self.entries()[i]).0 == (old(self).entries()[i]).0);
                assert((self.entries()[j]).0 == (old(self).entries()[j]).0);
            }
            assert forall|i: int| 0 <= i < self.entries().len()
                implies (#[trigger] self.entries()[i]).0 < self.spec_next_id() by {
                assert((self.entries()[i]).0 == (old(self).entries()[i]).0);
            }
        }
    }

    /// Scans for the entry with identifier `id`.
    fn position_of(&self, id: u32) -> (r: Option<usize>)
        ensures
            r matches Some(k) ==> k < self.entries().len() && self.entries()[k as int].0 == id,
            r is None ==> !self.contains_id(id),
    {
        let n = self.data.len();
        let mut k: usize = 0;
        while k < n
            invariant
                k <= n,
                n == self.entries().len(),
                forall|i: int| 0 <= i < k ==> (#[trigger] self.entries()[i]).0 != id,
            decreases n - k,
        {
            if self.data[k].0 == id {
                return Some(k);
            }
            k = k + 1;
        }
        None
    }

    pub fn get(&self, id: u32) -> (r: Option<&T>)
        ensures
            r is Some <==> self.contains_id(id),
            r matches Some(v) ==> exists|i: int|
                0 <= i < self.entries().len() && self.entries()[i] == (id, *v),
    {
        match self.position_of(id) {
            Some(k) => Some(&self.data[k].1),
            None => None,
        }
    }

    pub fn get_mut(&mut self, id: u32) -> (r: Option<&mut T>)
        requires
            old(self).wf(),
        ensures
            r is Some <==> old(self).contains_id(id),
            r matches Some(v) ==> final(self).wf()
                && final(self).spec_next_id() == old(self).spec_next_id()
                && (exists|i: int|
                    {
                        &&& 0 <= i < old(self).entries().len()
                        &&& old(self).entries()[i] == (id, *v)
                        &&& final(self).entries() =~= old(self).entries().update(
                            i, (id, *final(v)))
                    }),
            r is None ==> *final(self) == *old(self),
    {
        match self.position_of(id) {
            Some(k) => {
                let entry = &mut self.data[k];
                Some(&mut entry.1)
            },
            None => None,
        }
    }

    pub fn remove(&mut self, id: u32)
        requires
            old(self).wf(),
        ensures
            final(self).wf(),
            final(self).spec_next_id() == old(self).spec_next_id(),
            !old(self).contains_id(id) ==> final(self).entries() =~= old(self).entries(),
            old(self).contains_id(id) ==> exists|i: int|
                {
                    &&& 0 <= i < old(self).entries().len()
                    &&& old(self).entries()[i].0 == id
                    &&& final(self).entries() =~= old(self).entries().remove(i)
                },
            forall|other: u32|
                other != id ==> (final(self).contains_id(other) <==> old(self).contains_id(
                    other)),
            !final(self).contains_id(id),
    {
        match self.position_of(id) {
            Some(k) => {
                self.data.remove(k);
                proof {
                    assert forall|other: u32| other != id && old(self).contains_id(other)
                        implies self.contains_id(other) by {
                        let i = choose|i: int|
                            0 <= i < old(self).entries().len()
                                && (#[trigger] old(self).entries()[i]).0 == other;
                        assert(i != k);
                        if i < k {
                            assert(self.entries()[i] == old(self).entries()[i]);
                            assert((self.entries()[i]).0 == other);
                        } else {
                            assert(self.entries()[i - 1] == old(self).entries()[i]);
                            assert((self.entries()[i - 1]).0 == other);
                        }
                    }
                    assert(!self.contains_id(id)) by {
                        if self.contains_id(id) {
                            let j = choose|j: int|
                                0 <= j < self.entries().len() && (#[trigger] self.entries()[
                                j]).0 == id;
                            let m: int = if j < k {
                                j
                            } else {
                                j + 1
                            };
                            assert(self.entries()[j] == old(self).entries()[m]);
                            if m < k {
                                assert((old(self).entries()[m]).0 < (old(self).entries()[
                                k as int]).0);
                            } else {
                                assert((old(self).entries()[k as int]).0 < (old(
                                self).entries()[m]).0);
                            }
                        }
                    }
                }
            },
            None => {},
        }
    }
}

} // verus!
