//! A small map from gate coefficients to the open run of gates that carries them.
use vstd::prelude::*;

use crate::plonk2pil::placement::{Key, Slots};

verus! {

/// Open runs of gates, at most one per coefficients.
pub struct OpenGates {
    keys: Vec<Key>,
    slots: Vec<Slots>,
}

fn same_key(a: &Key, b: &Key) -> (r: bool)
    ensures
        r == (*a == *b),
{
    a.0 == b.0 && a.1 == b.1 && a.2 == b.2 && a.3 == b.3 && a.4 == b.4
}

impl View for OpenGates {
    type V = Map<Key, Slots>;

    closed spec fn view(&self) -> Map<Key, Slots> {
        Map::new(
            |k: Key| self.keys@.contains(k),
            |k: Key| self.slots@[self.keys@.index_of(k)],
        )
    }
}

impl OpenGates {
    /// No coefficients occur twice.
    pub closed spec fn wf(&self) -> bool {
        self.keys@.len() == self.slots@.len() && self.keys@.no_duplicates()
    }

    /// No open gates.
    pub fn new() -> (r: Self)
        ensures
            r.wf(),
            r@ == Map::<Key, Slots>::empty(),
    {
        let r = OpenGates { keys: Vec::new(), slots: Vec::new() };
        assert(r@ =~= Map::<Key, Slots>::empty());
        r
    }

    fn position(&self, k: &Key) -> (r: Option<usize>)
        requires
            self.wf(),
        ensures
            match r {
                Some(i) => i < self.keys@.len() && self.keys@[i as int] == *k && self.keys@.index_of(
                    *k,
                ) == i && self@.dom().contains(*k),
                None => !self@.dom().contains(*k),
            },
    {
        let mut i: usize = 0;
        while i < self.keys.len()
            invariant
                i <= self.keys@.len(),
                self.wf(),
                forall|j: int| 0 <= j < i ==> self.keys@[j] != *k,
            decreases self.keys@.len() - i,
        {
            if same_key(&self.keys[i], k) {
                proof {
                    assert(self.keys@.contains(*k));
                    let x = self.keys@.index_of(*k);
                    assert(self.keys@[x] == *k);
                    assert(x == i);
                }
                return Some(i);
            }
            i = i + 1;
        }
        None
    }

    /// The open run with these coefficients.
    pub fn get(&self, k: &Key) -> (r: Option<Slots>)
        requires
            self.wf(),
        ensures
            match r {
                Some(s) => self@.dom().contains(*k) && self@[*k] == s,
                None => !self@.dom().contains(*k),
            },
    {
        match self.position(k) {
            Some(i) => Some(self.slots[i]),
            None => None,
        }
    }

    /// Set the open run with these coefficients.
    pub fn set(&mut self, k: Key, s: Slots)
        requires
            old(self).wf(),
        ensures
            final(self).wf(),
            final(self)@ == old(self)@.insert(k, s),
    {
        let ghost before = *self;
        match self.position(&k) {
            Some(i) => {
                self.slots[i] = s;
                proof {
                    assert forall|x: Key| self.keys@.contains(x) && x != k implies self.keys@.index_of(
                        x,
                    ) != i by {
                        let j = self.keys@.index_of(x);
                        assert(self.keys@[j] == x);
                    }
                    assert(self@ =~= before@.insert(k, s));
                }
            },
            None => {
                self.keys.push(k);
                self.slots.push(s);
                proof {
                    assert(!before.keys@.contains(k));
                    let n = before.keys@.len() as int;
                    assert(self.keys@[n] == k);
                    assert(self.keys@.no_duplicates());
                    assert forall|x: Key| #[trigger] self.keys@.contains(x) <==> before.keys@.contains(x)
                        || x == k by {
                        if before.keys@.contains(x) {
                            let j = before.keys@.index_of(x);
                            assert(self.keys@[j] == x);
                        }
                        if self.keys@.contains(x) && x != k {
                            let j = self.keys@.index_of(x);
                            assert(before.keys@[j] == x);
                        }
                    }
                    assert forall|x: Key| before.keys@.contains(x) implies self.keys@.index_of(x)
                        == before.keys@.index_of(x) by {
                        let j = before.keys@.index_of(x);
                        assert(self.keys@[j] == x);
                        let l = self.keys@.index_of(x);
                        assert(self.keys@.contains(x));
                        assert(self.keys@[l] == x);
                    }
                    assert(self.keys@.index_of(k) == n) by {
                        assert(self.keys@.contains(k));
                    }
                    assert(self@ =~= before@.insert(k, s));
                }
            },
        }
    }

    /// Forget the open run with these coefficients.
    pub fn remove(&mut self, k: &Key)
        requires
            old(self).wf(),
        ensures
            final(self).wf(),
            final(self)@ == old(self)@.remove(*k),
    {
        let ghost before = *self;
        match self.position(k) {
            Some(i) => {
                self.keys.swap_remove(i);
                self.slots.swap_remove(i);
                proof {
                    let n = before.keys@.len() - 1;
                    assert forall|j: int| 0 <= j < n implies #[trigger] self.keys@[j] == if j == i {
                        before.keys@[n]
                    } else {
                        before.keys@[j]
                    } by {}
                    assert(self.keys@.no_duplicates());
                    assert forall|x: Key| #[trigger] self.keys@.contains(x) <==> before.keys@.contains(x)
                        && x != *k by {
                        if self.keys@.contains(x) {
                            let j = self.keys@.index_of(x);
                            assert(self.keys@[j] == x);
                            if j == i {
                                assert(before.keys@[n] == x);
                            } else {
                                assert(before.keys@[j] == x);
                            }
                        }
                        if before.keys@.contains(x) && x != *k {
                            let j = before.keys@.index_of(x);
                            assert(before.keys@[j] == x);
                            if j == n {
                                assert(self.keys@[i as int] == x);
                            } else {
                                assert(self.keys@[j] == x);
                            }
                        }
                    }
                    assert forall|x: Key| self.keys@.contains(x) implies self.slots@[self.keys@.index_of(
                        x,
                    )] == before.slots@[before.keys@.index_of(x)] by {
                        let j = self.keys@.index_of(x);
                        assert(self.keys@[j] == x);
                        let l = before.keys@.index_of(x);
                        assert(before.keys@.contains(x));
                        assert(before.keys@[l] == x);
                        if j == i {
                            assert(before.keys@[n] == x);
                            assert(l == n);
                        } else {
                            assert(before.keys@[j] == x);
                            assert(l == j);
                        }
                    }
                    assert(self@ =~= before@.remove(*k));
                }
            },
            None => {
                assert(self@ =~= before@.remove(*k));
            },
        }
    }
}

} // verus!
