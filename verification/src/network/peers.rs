//! Sets of addresses.

use super::PeerAddr;
use vstd::prelude::*;

verus! {

/// A set of addresses.
#[derive(Debug)]
pub struct PeerSet {
    items: Vec<PeerAddr>,
}

impl View for PeerSet {
    type V = Set<PeerAddr>;

    closed spec fn view(&self) -> Set<PeerAddr> {
        self.items@.to_set()
    }
}

impl PeerSet {
    /// No address is kept twice.
    #[verifier::type_invariant]
    spec fn inv(&self) -> bool {
        self.items@.no_duplicates()
    }

    /// The empty set.
    pub fn new() -> (set: PeerSet)
        ensures
            set@ == Set::<PeerAddr>::empty(),
    {
        let set = PeerSet { items: Vec::new() };
        assert(set@ =~= Set::<PeerAddr>::empty());
        set
    }

    fn position(&self, addr: PeerAddr) -> (found: Option<usize>)
        ensures
            match found {
                Some(i) => i < self.items@.len() && self.items@[i as int] == addr,
                None => !self@.contains(addr),
            },
    {
        let mut i: usize = 0;
        while i < self.items.len()
            invariant
                i <= self.items@.len(),
                forall|j: int| 0 <= j < i ==> self.items@[j] != addr,
            decreases self.items.len() - i,
        {
            if self.items[i] == addr {
                return Some(i);
            }
            i += 1;
        }
        None
    }

    /// Whether an address is in the set.
    pub fn contains(&self, addr: PeerAddr) -> (contained: bool)
        ensures
            contained == self@.contains(addr),
    {
        match self.position(addr) {
            Some(i) => {
                assert(self.items@.contains(self.items@[i as int]));
                true
            },
            None => false,
        }
    }

    /// Whether there is no address in the set.
    pub fn is_empty(&self) -> (empty: bool)
        ensures
            empty == (self@ == Set::<PeerAddr>::empty()),
    {
        let empty = self.items.len() == 0;
        proof {
            if empty {
                assert(self@ =~= Set::<PeerAddr>::empty());
            } else {
                assert(self.items@.contains(self.items@[0]));
                assert(self@.contains(self.items@[0]));
            }
        }
        empty
    }

    /// Puts an address into the set.
    pub fn insert(&mut self, addr: PeerAddr)
        ensures
            final(self)@ == old(self)@.insert(addr),
    {
        proof {
            use_type_invariant(&*self);
        }
        if self.contains(addr) {
            assert(self@.insert(addr) =~= self@);
            return ;
        }
        let ghost before = self.items@;
        let mut items: Vec<PeerAddr> = Vec::new();
        std::mem::swap(&mut items, &mut self.items);
        items.push(addr);
        assert(items@.no_duplicates()) by {
            assert(!before.contains(addr));
        }
        self.items = items;
        assert(self@ =~= before.to_set().insert(addr)) by {
            assert forall|x: PeerAddr| before.to_set().insert(addr).contains(
                x,
            ) implies self.items@.contains(x) by {
                if x == addr {
                    assert(self.items@[before.len() as int] == addr);
                } else {
                    let i = before.index_of(x);
                    assert(self.items@[i] == x);
                }
            }
        }
    }

    /// Takes an address out of the set.
    pub fn remove(&mut self, addr: PeerAddr)
        ensures
            final(self)@ == old(self)@.remove(addr),
    {
        proof {
            use_type_invariant(&*self);
        }
        let ghost before = self.items@;
        match self.position(addr) {
            Some(at) => {
                let mut items: Vec<PeerAddr> = Vec::new();
                std::mem::swap(&mut items, &mut self.items);
                items.remove(at);
                assert(items@ =~= before.remove(at as int));
                assert forall|i: int, j: int|
                    0 <= i < items@.len() && 0 <= j < items@.len() && i != j implies items@[i]
                    != items@[j] by {
                    let a = if i < at {
                        i
                    } else {
                        i + 1
                    };
                    let b = if j < at {
                        j
                    } else {
                        j + 1
                    };
                    assert(items@[i] == before[a]);
                    assert(items@[j] == before[b]);
                }
                self.items = items;
                assert forall|x: PeerAddr| before.to_set().remove(addr).contains(
                    x,
                ) implies self.items@.contains(x) by {
                    let i = before.index_of(x);
                    if i < at {
                        assert(self.items@[i] == x);
                    } else {
                        assert(self.items@[i - 1] == x);
                    }
                }
                assert forall|x: PeerAddr| self.items@.contains(x) implies before.to_set().remove(
                    addr,
                ).contains(x) by {
                    let i = self.items@.index_of(x);
                    if i < at {
                        assert(before[i] == x);
                    } else {
                        assert(before[i + 1] == x);
                    }
                }
                assert(self@ =~= before.to_set().remove(addr));
            },
            None => {
                assert(self@.remove(addr) =~= self@);
            },
        }
    }

    /// Another set of the same addresses.
    pub fn copy(&self) -> (set: PeerSet)
        ensures
            set@ == self@,
    {
        proof {
            use_type_invariant(self);
        }
        let items = self.items.clone();
        assert(items@ =~= self.items@);
        PeerSet { items }
    }
}

} // verus!
