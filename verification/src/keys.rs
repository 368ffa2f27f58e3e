//! Generational keys and the slot arena behind the index tables.
//!
//! A key couples a slot index with the generation the slot had when the key
//! was handed out; the arena's map view contains a key only while its slot
//! still carries exactly that generation.  Reusing a vacated slot strictly
//! raises its generation, and no operation ever lowers one, so a key minted
//! before a slot was vacated can never alias an entry stored there later.

use vstd::prelude::*;

verus! {

/// A generational slot key: a slot index paired with the generation the
/// slot had when this key was handed out.
#[derive(Debug, Clone, Copy, PartialEq, Eq, Structural, Hash)]
pub struct ArenaKey {
    pub idx: usize,
    pub generation: u64,
}

/// One storage slot: its current generation and, while occupied, a value.
struct Slot<T> {
    generation: u64,
    value: Option<T>,
}

/// An arena of generational slots, viewed as a map from keys to values.
pub struct Arena<T> {
    slots: Vec<Slot<T>>,
}

impl<T> View for Arena<T> {
    type V = Map<ArenaKey, T>;

    closed spec fn view(&self) -> Map<ArenaKey, T> {
        Map::new(
            |k: ArenaKey|
                k.idx < self.slots.len() && self.slots[k.idx as int].generation == k.generation
                    && self.slots[k.idx as int].value is Some,
            |k: ArenaKey| self.slots[k.idx as int].value->0,
        )
    }
}

impl<T> Arena<T> {
    /// The current generation of each slot, in slot order.
    pub closed spec fn generations(&self) -> Seq<nat> {
        Seq::new(self.slots.len() as nat, |i: int| self.slots[i].generation as nat)
    }

    /// A key is in the map only while its slot carries its generation.
    pub proof fn lemma_live_key_generation(&self, k: ArenaKey)
        requires
            self@.contains_key(k),
        ensures
            k.idx < self.generations().len(),
            self.generations()[k.idx as int] == k.generation as nat,
    {
    }

    /// A key whose generation no longer matches its slot is not in the map,
    /// and since generations never decrease, it never will be again.
    pub proof fn lemma_stale_key_not_live(&self, k: ArenaKey)
        requires
            k.idx < self.generations().len(),
            self.generations()[k.idx as int] != k.generation as nat,
        ensures
            !self@.contains_key(k),
    {
    }

    pub fn new() -> (a: Arena<T>)
        ensures
            a@ == Map::<ArenaKey, T>::empty(),
            a.generations() == Seq::<nat>::empty(),
    {
        let a = Arena { slots: Vec::new() };
        proof {
            assert(a@ =~= Map::<ArenaKey, T>::empty());
            assert(a.generations() =~= Seq::<nat>::empty());
        }
        a
    }

    /// The first vacant slot that can still be reused, if any.  A slot whose
    /// generation has reached `u64::MAX` is retired: reusing it could not
    /// raise the generation, so it is never handed out again.
    fn find_free(&self) -> (r: Option<usize>)
        ensures
            r matches Some(i) ==> i < self.slots.len() && self.slots@[i as int].value is None
                && self.slots@[i as int].generation < u64::MAX,
    {
        let n = self.slots.len();
        let mut i: usize = 0;
        while i < n
            invariant
                i <= n,
                n == self.slots.len(),
            decreases n - i,
        {
            if self.slots[i].value.is_none() && self.slots[i].generation < u64::MAX {
                return Some(i);
            }
            i = i + 1;
        }
        None
    }

    /// Store a value and hand out a key that no current entry carries.
    pub fn insert(&mut self, value: T) -> (k: ArenaKey)
        ensures
            !old(self)@.contains_key(k),
            final(self)@ == old(self)@.insert(k, value),
            final(self).generations().len() >= old(self).generations().len(),
            k.idx < final(self).generations().len(),
            final(self).generations()[k.idx as int] == k.generation as nat,
            k.idx < old(self).generations().len() ==> final(self).generations()[k.idx as int]
                > old(self).generations()[k.idx as int],
            forall|i: int|
                0 <= i < old(self).generations().len() && i != k.idx
                    ==> final(self).generations()[i] == old(self).generations()[i],
    {
        match self.find_free() {
            Some(i) => {
                let g = self.slots[i].generation + 1;
                self.slots[i] = Slot { generation: g, value: Some(value) };
                let k = ArenaKey { idx: i, generation: g };
                proof {
                    assert(self@ =~= old(self)@.insert(k, value));
                    assert(self.generations() =~= old(self).generations().update(
                        i as int,
                        g as nat,
                    ));
                }
                k
            },
            None => {
                let i = self.slots.len();
                self.slots.push(Slot { generation: 0, value: Some(value) });
                let k = ArenaKey { idx: i, generation: 0 };
                proof {
                    assert(self@ =~= old(self)@.insert(k, value));
                    assert(self.generations() =~= old(self).generations().push(0nat));
                }
                k
            },
        }
    }

    pub fn contains(&self, k: ArenaKey) -> (r: bool)
        ensures
            r == self@.contains_key(k),
    {
        k.idx < self.slots.len() && self.slots[k.idx].generation == k.generation
            && self.slots[k.idx].value.is_some()
    }

    pub fn get(&self, k: ArenaKey) -> (r: Option<&T>)
        ensures
            match r {
                Some(v) => self@.contains_key(k) && *v == self@[k],
                None => !self@.contains_key(k),
            },
    {
        if k.idx < self.slots.len() && self.slots[k.idx].generation == k.generation {
            self.slots[k.idx].value.as_ref()
        } else {
            None
        }
    }

    /// Replace the value stored under a live key; the key and the slot's
    /// generation are untouched.
    pub fn update_value(&mut self, k: ArenaKey, value: T)
        requires
            old(self)@.contains_key(k),
        ensures
            final(self)@ == old(self)@.insert(k, value),
            final(self).generations() == old(self).generations(),
    {
        let g = self.slots[k.idx].generation;
        self.slots[k.idx] = Slot { generation: g, value: Some(value) };
        proof {
            assert(self@ =~= old(self)@.insert(k, value));
            assert(self.generations() =~= old(self).generations());
        }
    }

    /// Swap the value stored under a live key for a new one, returning the
    /// old value; the key and the slot's generation are untouched.
    pub fn replace(&mut self, k: ArenaKey, value: T) -> (r: T)
        requires
            old(self)@.contains_key(k),
        ensures
            r == old(self)@[k],
            final(self)@ == old(self)@.insert(k, value),
            final(self).generations() == old(self).generations(),
    {
        let taken = self.slots.remove(k.idx);
        let g = taken.generation;
        self.slots.insert(k.idx, Slot { generation: g, value: Some(value) });
        proof {
            assert(self@ =~= old(self)@.insert(k, value));
            assert(self.generations() =~= old(self).generations());
        }
        match taken.value {
            Some(v) => v,
            None => unreached(),
        }
    }

    /// Vacate a key's slot.  The generation stays as it is; a later reuse of
    /// the slot raises it, so the removed key can never come back.
    pub fn remove(&mut self, k: ArenaKey) -> (r: Option<T>)
        ensures
            final(self)@ == old(self)@.remove(k),
            old(self)@.contains_key(k) ==> r == Some(old(self)@[k]),
            !old(self)@.contains_key(k) ==> r is None && final(self)@ == old(self)@,
            final(self).generations() == old(self).generations(),
    {
        if k.idx < self.slots.len() && self.slots[k.idx].generation == k.generation {
            let taken = self.slots.remove(k.idx);
            let g = taken.generation;
            self.slots.insert(k.idx, Slot { generation: g, value: None });
            proof {
                assert(self@ =~= old(self)@.remove(k));
                assert(self.generations() =~= old(self).generations());
            }
            taken.value
        } else {
            proof {
                assert(self@ =~= old(self)@.remove(k));
            }
            None
        }
    }
}

} // verus!
