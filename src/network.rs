use vstd::prelude::*;
use crate::pool::strictly_descending;

verus! {

/// `a` lies in the subnet of `net` under `mask`.
pub open spec fn in_subnet(a: u32, net: u32, mask: u32) -> bool {
    a & mask == net & mask
}

/// The subnet's broadcast address: all host bits set.
pub open spec fn broadcast_of(net: u32, mask: u32) -> u32 {
    (net & mask) | !mask
}

/// The mask with `p` leading one bits.
pub open spec fn mask_of(p: u32) -> u32 {
    (#[verifier::truncate] ((!(0xffff_ffffu64 >> p)) as u32))
}

/// A mask made of leading ones only.
pub open spec fn is_prefix_mask(m: u32) -> bool {
    exists|p: u32| p <= 32 && m == mask_of(p)
}

/// The server's configuration, read once at startup.
pub struct Environment {
    pub network_addr: u32,
    pub subnet_mask: u32,
    pub default_gateway: u32,
    pub dhcp_svr_addr: u32,
    pub dns_svr_addr: u32,
    pub lease_time: u32,
}

impl Environment {
    pub open spec fn contains_spec(&self, a: u32) -> bool {
        in_subnet(a, self.network_addr, self.subnet_mask)
    }

    /// Addresses of the subnet that are never handed out.
    pub open spec fn reserved(&self, a: u32) -> bool {
        a == self.network_addr & self.subnet_mask || a == broadcast_of(self.network_addr, self.subnet_mask)
            || a == self.default_gateway || a == self.dhcp_svr_addr || a == self.dns_svr_addr
    }

    /// Host addresses that the server may lease.
    pub open spec fn assignable(&self, a: u32) -> bool {
        self.contains_spec(a) && !self.reserved(a)
    }

    /// Whether `a` lies in the configured subnet.
    pub fn contains(&self, a: u32) -> (r: bool)
        ensures
            r == self.contains_spec(a),
    {
        a & self.subnet_mask == self.network_addr & self.subnet_mask
    }

    pub fn is_reserved(&self, a: u32) -> (r: bool)
        ensures
            r == self.reserved(a),
    {
        let m = self.subnet_mask;
        a == self.network_addr & m || a == (self.network_addr & m) | !m || a == self.default_gateway
            || a == self.dhcp_svr_addr || a == self.dns_svr_addr
    }

    pub fn is_assignable(&self, a: u32) -> (r: bool)
        ensures
            r == self.assignable(a),
    {
        self.contains(a) && !self.is_reserved(a)
    }
}

/// Whether the mask is a run of leading ones, that is a prefix length of 0 to 32.
pub fn is_valid_mask(m: u32) -> (r: bool)
    ensures
        r == is_prefix_mask(m),
{
    let mut p: u32 = 0;
    while p <= 32
        invariant
            p <= 33,
            forall|q: u32| q < p ==> m != mask_of(q),
        decreases 33 - p,
    {
        let candidate = (#[verifier::truncate] ((!(0xffff_ffffu64 >> p)) as u32));
        if m == candidate {
            assert(m == mask_of(p));
            return true;
        }
        p = p + 1;
    }
    proof {
        assert forall|q: u32| q <= 32 implies m != mask_of(q) by {
            assert(q < p);
        }
    }
    false
}

pub proof fn lemma_subnet_bounds(a: u32, net: u32, mask: u32)
    ensures
        net & mask <= broadcast_of(net, mask),
        in_subnet(a, net, mask) ==> net & mask <= a <= broadcast_of(net, mask),
{
    let base = net & mask;
    assert(base <= base | !mask) by (bit_vector);
    assert((a & mask) == base ==> base <= a && a <= (base | !mask)) by (bit_vector)
        requires
            base == net & mask,
    ;
}

/// Whether `v` holds `a`.
pub fn contains_addr(v: &Vec<u32>, a: u32) -> (r: bool)
    ensures
        r == v@.contains(a),
{
    let mut i: usize = 0;
    while i < v.len()
        invariant
            0 <= i <= v@.len(),
            forall|k: int| 0 <= k < i ==> v@[k] != a,
        decreases v@.len() - i,
    {
        if v[i] == a {
            return true;
        }
        i = i + 1;
    }
    false
}

/// The free addresses at startup: each assignable address of the subnet that
/// is not leased, in strictly descending order.
pub fn init_addr_pool(env: &Environment, leased: &Vec<u32>) -> (r: Vec<u32>)
    ensures
        strictly_descending(r@),
        forall|a: u32| r@.contains(a) <==> (env.assignable(a) && !leased@.contains(a)),
{
    let m = env.subnet_mask;
    let first = env.network_addr & m;
    let last = first | !m;
    proof { lemma_subnet_bounds(0, env.network_addr, m); }
    let mut out: Vec<u32> = Vec::new();
    let mut i: u64 = last as u64 + 1;
    while i > first as u64
        invariant
            first == env.network_addr & m,
            last == broadcast_of(env.network_addr, m),
            m == env.subnet_mask,
            first <= last,
            first <= i <= last as u64 + 1,
            strictly_descending(out@),
            forall|k: int| 0 <= k < out@.len() ==> i <= #[trigger] out@[k] <= last,
            forall|x: u32| i <= x <= last ==> (out@.contains(x) <==> (env.assignable(x)
                && !leased@.contains(x))),
        decreases i,
    {
        let a = (i - 1) as u32;
        if env.is_assignable(a) && !contains_addr(leased, a) {
            let ghost prev = out@;
            out.push(a);
            proof {
                assert(out@.drop_last() == prev);
                assert forall|x: u32| a <= x <= last implies (out@.contains(x) <==> (env.assignable(x)
                    && !leased@.contains(x))) by {
                    if x != a {
                        if out@.contains(x) {
                            let k = choose|k: int| 0 <= k < out@.len() && out@[k] == x;
                            assert(k < out@.len() - 1);
                            assert(out@.drop_last()[k] == x);
                        }
                        if env.assignable(x) && !leased@.contains(x) {
                            assert(prev.contains(x));
                            let k = choose|k: int| 0 <= k < prev.len() && prev[k] == x;
                            assert(out@[k] == x);
                        }
                    } else {
                        assert(out@[out@.len() - 1] == a);
                    }
                }
            }
        } else {
            proof {
                assert forall|x: u32| a <= x <= last implies (out@.contains(x) <==> (env.assignable(x)
                    && !leased@.contains(x))) by {
                    if x == a && out@.contains(x) {
                        let k = choose|k: int| 0 <= k < out@.len() && out@[k] == x;
                    }
                }
            }
        }
        i = i - 1;
    }
    proof {
        assert forall|x: u32| out@.contains(x) <==> (env.assignable(x) && !leased@.contains(x)) by {
            lemma_subnet_bounds(x, env.network_addr, m);
            if out@.contains(x) {
                let k = choose|k: int| 0 <= k < out@.len() && out@[k] == x;
            }
        }
    }
    out
}

} // verus!
