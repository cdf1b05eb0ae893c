use vstd::prelude::*;

verus! {

/// A sequence of addresses in strictly descending order.
pub open spec fn strictly_descending(s: Seq<u32>) -> bool {
    forall|i: int, j: int| 0 <= i < j < s.len() ==> s[i] > s[j]
}

/// What `take_next` does to a pool's contents: the last (smallest) address leaves.
pub open spec fn take_next_spec(s: Seq<u32>) -> (Option<u32>, Seq<u32>) {
    if s.len() == 0 {
        (None, s)
    } else {
        (Some(s.last()), s.drop_last())
    }
}

/// The free addresses of the server, kept in strictly descending order so that
/// the smallest one is taken from the end of the vector.
pub struct AddressPool {
    addrs: Vec<u32>,
}

impl View for AddressPool {
    type V = Seq<u32>;

    closed spec fn view(&self) -> Seq<u32> {
        self.addrs@
    }
}

impl AddressPool {
    pub open spec fn wf(&self) -> bool {
        strictly_descending(self@)
    }

    /// A pool over addresses already in strictly descending order.
    pub fn from_descending(addrs: Vec<u32>) -> (r: AddressPool)
        requires
            strictly_descending(addrs@),
        ensures
            r@ == addrs@,
            r.wf(),
    {
        AddressPool { addrs }
    }

    pub fn len(&self) -> (r: usize)
        ensures
            r == self@.len(),
    {
        self.addrs.len()
    }

    pub fn contains(&self, addr: u32) -> (r: bool)
        ensures
            r == self@.contains(addr),
    {
        let mut i: usize = 0;
        while i < self.addrs.len()
            invariant
                0 <= i <= self.addrs@.len(),
                forall|k: int| 0 <= k < i ==> self.addrs@[k] != addr,
            decreases self.addrs@.len() - i,
        {
            if self.addrs[i] == addr {
                return true;
            }
            i = i + 1;
        }
        false
    }

    /// Removes and returns the smallest free address.
    pub fn take_next(&mut self) -> (r: Option<u32>)
        requires
            old(self).wf(),
        ensures
            final(self).wf(),
            (r, final(self)@) == take_next_spec(old(self)@),
            r matches Some(a) ==> forall|x: u32| #[trigger] final(self)@.contains(x) ==> a < x,
    {
        let r = self.addrs.pop();
        proof {
            if r is Some {
                assert forall|x: u32| #[trigger] self@.contains(x) implies r->Some_0 < x by {
                    let k = choose|k: int| 0 <= k < self@.len() && self@[k] == x;
                    assert(old(self)@[k] == x);
                }
            }
        }
        r
    }

    /// Removes `addr` from the pool if it is there.
    pub fn take_specific(&mut self, addr: u32) -> (r: Option<u32>)
        requires
            old(self).wf(),
        ensures
            final(self).wf(),
            old(self)@.contains(addr) ==> r == Some(addr) && exists|k: int|
                0 <= k < old(self)@.len() && old(self)@[k] == addr && final(self)@ == old(self)@.remove(k),
            !old(self)@.contains(addr) ==> r is None && final(self)@ == old(self)@,
            old(self)@.contains(addr) ==> final(self)@ == old(self)@.remove(old(self)@.index_of(addr)),
            final(self)@.to_set() == old(self)@.to_set().remove(addr),
    {
        let mut i: usize = 0;
        while i < self.addrs.len()
            invariant
                0 <= i <= self.addrs@.len(),
                self@ == old(self)@,
                old(self).wf(),
                forall|k: int| 0 <= k < i ==> self.addrs@[k] != addr,
            decreases self.addrs@.len() - i,
        {
            if self.addrs[i] == addr {
                let a = self.addrs.remove(i);
                proof {
                    let o = old(self)@;
                    let n = self@;
                    assert(n == o.remove(i as int));
                    let j = o.index_of(addr);
                    assert(o[i as int] == addr);
                    if j < i {
                        assert(o[j] > o[i as int]);
                    } else if j > i {
                        assert(o[i as int] > o[j]);
                    }
                    assert forall|p: int, q: int| 0 <= p < q < n.len() implies n[p] > n[q] by {
                        if p >= i {
                            assert(n[p] == o[p + 1] && n[q] == o[q + 1]);
                        } else if q >= i {
                            assert(n[p] == o[p] && n[q] == o[q + 1]);
                        }
                    }
                    assert(n.to_set() =~= o.to_set().remove(addr)) by {
                        assert forall|x: u32| o.to_set().remove(addr).contains(x) implies n.to_set().contains(x) by {
                            let k = choose|k: int| 0 <= k < o.len() && o[k] == x;
                            if k < i {
                                assert(n[k] == x);
                            } else {
                                assert(k != i);
                                assert(n[k - 1] == x);
                            }
                        }
                        assert forall|x: u32| n.to_set().contains(x) implies o.to_set().remove(addr).contains(x) by {
                            let k = choose|k: int| 0 <= k < n.len() && n[k] == x;
                            if k < i {
                                assert(o[k] == x);
                                assert(o[k] > o[i as int]);
                            } else {
                                assert(o[k + 1] == x);
                                assert(o[i as int] > o[k + 1]);
                            }
                        }
                    }
                }
                return Some(a);
            }
            i = i + 1;
        }
        proof {
            assert(self@.to_set() =~= old(self)@.to_set().remove(addr));
        }
        None
    }

    /// Returns `addr` to the pool at its place in the order; an address that is
    /// already free is left as it is.
    pub fn give_back(&mut self, addr: u32)
        requires
            old(self).wf(),
        ensures
            final(self).wf(),
            final(self)@.to_set() == old(self)@.to_set().insert(addr),
            old(self)@.contains(addr) ==> final(self)@ == old(self)@,
    {
        let mut i: usize = 0;
        while i < self.addrs.len() && self.addrs[i] > addr
            invariant
                0 <= i <= self.addrs@.len(),
                self@ == old(self)@,
                old(self).wf(),
                forall|k: int| 0 <= k < i ==> self.addrs@[k] > addr,
            decreases self.addrs@.len() - i,
        {
            i = i + 1;
        }
        if i < self.addrs.len() && self.addrs[i] == addr {
            proof {
                assert(self@.to_set() =~= old(self)@.to_set().insert(addr));
            }
            return;
        }
        self.addrs.insert(i, addr);
        proof {
            let o = old(self)@;
            let n = self@;
            assert(n == o.insert(i as int, addr));
            assert forall|k: int| i <= k < o.len() implies o[k] < addr by {
                if k > i {
                    assert(o[i as int] > o[k]);
                }
            }
            assert forall|p: int, q: int| 0 <= p < q < n.len() implies n[p] > n[q] by {
                if p > i {
                    assert(n[p] == o[p - 1] && n[q] == o[q - 1]);
                } else if p == i {
                    assert(n[q] == o[q - 1]);
                } else if q > i {
                    assert(n[p] == o[p] && n[q] == o[q - 1]);
                }
            }
            assert(n.to_set() =~= o.to_set().insert(addr)) by {
                assert forall|x: u32| o.to_set().insert(addr).contains(x) implies n.to_set().contains(x) by {
                    if x == addr {
                        assert(n[i as int] == x);
                    } else {
                        let k = choose|k: int| 0 <= k < o.len() && o[k] == x;
                        if k < i {
                            assert(n[k] == x);
                        } else {
                            assert(n[k + 1] == x);
                        }
                    }
                }
                assert forall|x: u32| n.to_set().contains(x) implies o.to_set().insert(addr).contains(x) by {
                    let k = choose|k: int| 0 <= k < n.len() && n[k] == x;
                    if k < i {
                        assert(o[k] == x);
                    } else if k > i {
                        assert(o[k - 1] == x);
                    }
                }
            }
        }
    }
}

/// Successive calls of `take_next` with no address given back in between
/// return strictly ascending addresses, and nothing once the pool is empty.
pub proof fn lemma_take_next_ascending(s: Seq<u32>)
    requires
        strictly_descending(s),
    ensures
        s.len() == 0 ==> take_next_spec(s).0 is None,
        strictly_descending(take_next_spec(s).1),
        take_next_spec(s).0 is Some && take_next_spec(take_next_spec(s).1).0 is Some
            ==> take_next_spec(s).0->Some_0 < take_next_spec(take_next_spec(s).1).0->Some_0,
        s.len() >= 2 ==> take_next_spec(take_next_spec(s).1).0 is Some,
{
    if s.len() >= 2 {
        assert(s[s.len() - 2] > s[s.len() - 1]);
    }
}

} // verus!
