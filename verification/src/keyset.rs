//! A small set of keys.

use vstd::prelude::*;
use crate::config::Key;

verus! {

/// A set of keys, held as a vector in which no key occurs twice.
pub struct KeySet {
    keys: Vec<Key>,
}

impl KeySet {
    #[verifier::type_invariant]
    closed spec fn no_repeats(&self) -> bool {
        self.keys@.no_duplicates()
    }

    /// The keys in the set.
    pub closed spec fn view(&self) -> Set<Key> {
        Set::new(|k: Key| self.keys@.contains(k))
    }

    /// The empty set.
    pub fn new() -> (s: KeySet)
        ensures
            s@ == Set::<Key>::empty(),
    {
        let s = KeySet { keys: Vec::new() };
        assert(s@ =~= Set::<Key>::empty());
        s
    }

    /// Where `k` stands in the vector, if it is there.
    closed spec fn position_ok(&self, k: Key, r: Option<usize>) -> bool {
        match r {
            Some(i) => i < self.keys@.len() && self.keys@[i as int] == k,
            None => !self.keys@.contains(k),
        }
    }

    fn position(&self, k: Key) -> (r: Option<usize>)
        ensures
            self.position_ok(k, r),
    {
        let mut i: usize = 0;
        while i < self.keys.len()
            invariant
                i <= self.keys.len(),
                forall|j: int| 0 <= j < i ==> self.keys@[j] != k,
            decreases self.keys.len() - i,
        {
            if self.keys[i] == k {
                return Some(i);
            }
            i = i + 1;
        }
        None
    }

    pub fn contains(&self, k: Key) -> (r: bool)
        ensures
            r == self@.contains(k),
    {
        self.position(k).is_some()
    }

    /// Adds `k`; reports whether it was not there before.
    pub fn insert(&mut self, k: Key) -> (r: bool)
        ensures
            r == !old(self)@.contains(k),
            final(self)@ == old(self)@.insert(k),
    {
        proof {
            use_type_invariant(&*self);
        }
        if self.contains(k) {
            assert(self@ =~= self@.insert(k));
            return false;
        }
        let ghost before = self.keys@;
        let mut keys: Vec<Key> = Vec::new();
        std::mem::swap(&mut keys, &mut self.keys);
        keys.push(k);
        proof {
            assert(keys@ == before.push(k));
            assert forall|i: int, j: int|
                0 <= i < j < keys@.len() implies keys@[i] != keys@[j] by {
                if j == before.len() {
                    assert(keys@[i] == before[i]);
                    assert(before.contains(before[i]));
                }
            }
        }
        self.keys = keys;
        proof {
            assert(self@ =~= old(self)@.insert(k)) by {
                assert forall|x: Key| self.keys@.contains(x) <==> old(self)@.insert(k).contains(x) by {
                    if self.keys@.contains(x) && x != k {
                        let i = choose|i: int| 0 <= i < self.keys@.len() && self.keys@[i] == x;
                        assert(before[i] == x);
                    }
                    if before.contains(x) {
                        let i = choose|i: int| 0 <= i < before.len() && before[i] == x;
                        assert(self.keys@[i] == x);
                    }
                    assert(self.keys@[before.len() as int] == k);
                }
            }
        }
        true
    }

    /// Takes `k` out; reports whether it was there.
    pub fn remove(&mut self, k: Key) -> (r: bool)
        ensures
            r == old(self)@.contains(k),
            final(self)@ == old(self)@.remove(k),
    {
        proof {
            use_type_invariant(&*self);
        }
        match self.position(k) {
            None => {
                assert(self@ =~= self@.remove(k));
                false
            },
            Some(i) => {
                let ghost before = self.keys@;
                let mut keys: Vec<Key> = Vec::new();
                std::mem::swap(&mut keys, &mut self.keys);
                keys.remove(i);
                proof {
                    assert(keys@ == before.remove(i as int));
                    assert forall|a: int, b: int|
                        0 <= a < b < keys@.len() implies keys@[a] != keys@[b] by {
                        let a2 = if a < i { a } else { a + 1 };
                        let b2 = if b < i { b } else { b + 1 };
                        assert(keys@[a] == before[a2]);
                        assert(keys@[b] == before[b2]);
                    }
                }
                self.keys = keys;
                proof {
                    assert(self@ =~= old(self)@.remove(k)) by {
                        assert forall|x: Key|
                            self.keys@.contains(x) <==> old(self)@.remove(k).contains(x) by {
                            if self.keys@.contains(x) {
                                let a = choose|a: int| 0 <= a < self.keys@.len() && self.keys@[a] == x;
                                let a2 = if a < i { a } else { a + 1 };
                                assert(before[a2] == x);
                                assert(a2 != i);
                            }
                            if before.contains(x) && x != k {
                                let a = choose|a: int| 0 <= a < before.len() && before[a] == x;
                                assert(a != i);
                                let a1 = if a < i { a } else { a - 1 };
                                assert(self.keys@[a1] == x);
                            }
                        }
                    }
                }
                true
            },
        }
    }

    /// Empties the set.
    pub fn clear(&mut self)
        ensures
            final(self)@ == Set::<Key>::empty(),
    {
        self.keys = Vec::new();
        assert(self@ =~= Set::<Key>::empty());
    }
}

} // verus!
