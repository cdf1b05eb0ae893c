use vstd::prelude::*;
use crate::network::{Environment, init_addr_pool, is_prefix_mask, is_valid_mask};
use crate::packet::{
    find_option, splice, DhcpOptions, DhcpPacket, CHADDR, CIADDR, FLAGS, GIADDR, HLEN, HTYPE,
    MAC_LEN, MAGIC_COOKIE, MAGIC_COOKIE_LEN, OP, OPTIONS, PACKET_MINIMUM_SIZE, SECS, SIADDR, XID,
    YIADDR,
};
use crate::pool::{AddressPool, strictly_descending, take_next_spec};
use crate::wire::{be_bytes, be_u32, be_u32_of, big_endian_from, ipv4_addr_from, lemma_be_round_trip};

verus! {

pub const DHCP_SIZE: usize = 400;
pub const BOOTREQUEST: u8 = 1;
pub const BOOTREPLY: u8 = 2;
pub const HTYPE_ETHER: u8 = 1;
pub const ETHER_HLEN: u8 = 6;
/// The offset of End in a reply.
pub const REPLY_END: usize = 273;

/// A DHCP message type, the value of the message-type option.
#[derive(Clone, Copy, PartialEq, Eq, Structural)]
pub struct MessageType(pub u8);

impl MessageType {
    pub const DHCPDISCOVER: u8 = 1;
    pub const DHCPOFFER: u8 = 2;
    pub const DHCPREQUEST: u8 = 3;
    pub const DHCPACK: u8 = 5;
    pub const DHCPNAK: u8 = 6;
    pub const DHCPRELEASE: u8 = 7;

    /// The message type's name, as it appears in logs.
    pub fn name(&self) -> (r: &'static str)
        ensures
            self.0 == MessageType::DHCPDISCOVER ==> r@ == "DHCPDISCOVER"@,
            self.0 == MessageType::DHCPOFFER ==> r@ == "DHCPOFFER"@,
            self.0 == MessageType::DHCPREQUEST ==> r@ == "DHCPREQUEST"@,
            self.0 == MessageType::DHCPACK ==> r@ == "DHCPACK"@,
            self.0 == MessageType::DHCPNAK ==> r@ == "DHCPNAK"@,
            self.0 == MessageType::DHCPRELEASE ==> r@ == "DHCPRELEASE"@,
            !(self.0 == 1 || self.0 == 2 || self.0 == 3 || self.0 == 5 || self.0 == 6 || self.0 == 7)
                ==> r@ == "Unknown MessageType"@,
    {
        match self.0 {
            1 => "DHCPDISCOVER",
            2 => "DHCPOFFER",
            3 => "DHCPREQUEST",
            5 => "DHCPACK",
            6 => "DHCPNAK",
            7 => "DHCPRELEASE",
            _ => "Unknown MessageType",
        }
    }
}

/// Each byte of `splice(b, off, d)`.
pub proof fn lemma_splice_index(b: Seq<u8>, off: int, d: Seq<u8>)
    requires
        0 <= off,
        off + d.len() <= b.len(),
    ensures
        splice(b, off, d).len() == b.len(),
        forall|k: int| 0 <= k < b.len() ==> #[trigger] splice(b, off, d)[k] == if off <= k < off + d.len() {
            d[k - off]
        } else {
            b[k]
        },
{
    let s = splice(b, off, d);
    assert forall|k: int| 0 <= k < b.len() implies #[trigger] s[k] == if off <= k < off + d.len() {
        d[k - off]
    } else {
        b[k]
    } by {
        if k < off {
            assert(s[k] == b.subrange(0, off)[k]);
        } else if k < off + d.len() {
            assert(s[k] == (b.subrange(0, off) + d)[k]);
        } else {
            assert(s[k] == b.subrange(off + d.len(), b.len() as int)[k - off - d.len()]);
        }
    }
}

/// The options area that a reply carries: the magic cookie, then message type,
/// lease time, server identifier, subnet mask, router and DNS, then End.
pub open spec fn reply_options_layout(
    opts: Seq<u8>,
    mt: u8,
    lease: Seq<u8>,
    svr: Seq<u8>,
    mask: Seq<u8>,
    router: Seq<u8>,
    dns: Seq<u8>,
) -> bool {
    &&& opts.len() > 37
    &&& lease.len() == 4 && svr.len() == 4 && mask.len() == 4 && router.len() == 4 && dns.len() == 4
    &&& opts[4] == 53 && opts[5] == 1 && opts[6] == mt
    &&& opts[7] == 51 && opts[8] == 4 && opts.subrange(9, 13) == lease
    &&& opts[13] == 54 && opts[14] == 4 && opts.subrange(15, 19) == svr
    &&& opts[19] == 1 && opts[20] == 4 && opts.subrange(21, 25) == mask
    &&& opts[25] == 3 && opts[26] == 4 && opts.subrange(27, 31) == router
    &&& opts[31] == 6 && opts[32] == 4 && opts.subrange(33, 37) == dns
    &&& opts[37] == 255
}

/// The bytes of a reply that nothing writes: hops, seconds, server address,
/// server host name, boot file name, and what follows End.
pub open spec fn reply_zero_byte(k: int) -> bool {
    k == 3 || SECS <= k < FLAGS || SIADDR <= k < GIADDR || CHADDR + MAC_LEN <= k < OPTIONS
        || REPLY_END < k < DHCP_SIZE
}

/// Each option written into a reply is found again with the value written.
pub proof fn lemma_reply_options(
    opts: Seq<u8>,
    mt: u8,
    lease: Seq<u8>,
    svr: Seq<u8>,
    mask: Seq<u8>,
    router: Seq<u8>,
    dns: Seq<u8>,
)
    requires
        reply_options_layout(opts, mt, lease, svr, mask, router, dns),
    ensures
        find_option(opts, 4, 53) == Some(seq![mt]),
        find_option(opts, 4, 51) == Some(lease),
        find_option(opts, 4, 54) == Some(svr),
        find_option(opts, 4, 1) == Some(mask),
        find_option(opts, 4, 3) == Some(router),
        find_option(opts, 4, 6) == Some(dns),
        find_option(opts, 4, 50) is None,
{
    assert(opts.subrange(6, 7) =~= seq![mt]);
    reveal_with_fuel(find_option, 8);
}

/// Why a message was not handled.
#[derive(Clone, Copy, Debug, PartialEq, Eq, Structural)]
pub enum DhcpError {
    /// The configured subnet mask is not a run of leading ones.
    InvalidSubnetMask,
    /// The message lacks an option its type requires.
    MissingOption,
    /// A message type this server does not handle.
    UnimplementedMessage(u8),
    /// The server identifier is not four bytes.
    InvalidServerIdentifier,
    /// The requested address is not four bytes.
    InvalidRequestedAddress,
    /// No candidate address is left.
    NoAvailableAddress,
    /// A renewing client's address lies outside the configured subnet.
    NetworkMismatch,
}

/// The tier of address selection for a DISCOVER that comes next.
#[derive(Clone, Copy, Debug, PartialEq, Eq, Structural)]
pub enum Selection {
    /// The address on record for the client.
    Leased,
    /// The address the client asked for.
    Requested,
    /// The smallest free address of the pool.
    Pool,
}

/// What `take_specific` does to a pool's contents.
pub open spec fn take_specific_spec(pool: Seq<u32>, a: u32) -> (Option<u32>, Seq<u32>) {
    if pool.contains(a) {
        (Some(a), pool.remove(pool.index_of(a)))
    } else {
        (None, pool)
    }
}

/// One step of address selection for a DISCOVER, from tier `stage` on: the
/// candidate to probe and the tier to go on with should the probe find it in
/// use, or no address left; and the pool afterwards.
pub open spec fn select_spec(
    env: Environment,
    stage: Selection,
    leased: Option<u32>,
    requested: Option<u32>,
    pool: Seq<u32>,
) -> (Result<(Selection, u32), DhcpError>, Seq<u32>) {
    let lease_tier = stage == Selection::Leased && leased is Some && env.contains_spec(leased->Some_0);
    let request_tier = !lease_tier && stage != Selection::Pool && requested is Some && pool.contains(
        requested->Some_0,
    );
    if lease_tier {
        (Ok((Selection::Requested, leased->Some_0)), pool)
    } else if request_tier {
        (Ok((Selection::Pool, requested->Some_0)), take_specific_spec(pool, requested->Some_0).1)
    } else if pool.len() > 0 {
        (Ok((Selection::Pool, pool.last())), pool.drop_last())
    } else {
        (Err(DhcpError::NoAvailableAddress), pool)
    }
}

/// The kind of request a message is, by its message-type option and, for a
/// REQUEST, its server-identifier option.
pub enum RequestKind {
    Discover,
    /// A REQUEST that names the server the client chose.
    Select(Vec<u8>),
    /// A REQUEST without server identifier: init-reboot, renewing or rebinding.
    Renew,
    Release,
}

/// The server's configuration and its pool of free addresses.
pub struct DhcpServer {
    addr_pool: AddressPool,
    env: Environment,
    lease_time: Vec<u8>,
}

impl DhcpServer {
    /// The free addresses, largest first.
    pub closed spec fn pool(&self) -> Seq<u32> {
        self.addr_pool@
    }

    /// The configuration the server was started with.
    pub closed spec fn config(&self) -> Environment {
        self.env
    }

    pub closed spec fn wf(&self) -> bool {
        &&& self.addr_pool.wf()
        &&& self.lease_time@ == be_bytes(self.env.lease_time)
        &&& forall|k: int| 0 <= k < self.addr_pool@.len() ==> self.env.assignable(#[trigger] self.addr_pool@[k])
    }

    /// A well-formed server keeps its free addresses in strictly descending
    /// order, so that `find_available_ip_addr` hands them out in ascending
    /// order, and each of them is an assignable address of its subnet.
    pub proof fn lemma_wf_pool(&self)
        requires
            self.wf(),
        ensures
            strictly_descending(self.pool()),
            forall|a: u32| #[trigger] self.pool().contains(a) ==> self.config().assignable(a),
    {
        assert forall|a: u32| #[trigger] self.pool().contains(a) implies self.config().assignable(a) by {
            let k = choose|k: int| 0 <= k < self.pool().len() && self.pool()[k] == a;
            assert(self.addr_pool@[k] == a);
        }
    }

    /// The configuration the server was started with.
    pub fn env(&self) -> (r: &Environment)
        ensures
            *r == self.config(),
    {
        &self.env
    }

    /// What a reply built by `make_dhcp_packet` holds, field by field.
    pub open spec fn is_reply(&self, r: &DhcpPacket, recv: &DhcpPacket, mt: u8, ip: u32) -> bool {
        &&& r@.len() == DHCP_SIZE
        &&& r.op_spec() == BOOTREPLY
        &&& r@[HTYPE as int] == HTYPE_ETHER
        &&& r@[HLEN as int] == ETHER_HLEN
        &&& r.xid_spec() == recv.xid_spec()
        &&& r.flags_spec() == recv.flags_spec()
        &&& r.ciaddr_spec() == (if mt == MessageType::DHCPACK { recv.ciaddr_spec() } else { 0 })
        &&& r.yiaddr_spec() == ip
        &&& r.giaddr_spec() == recv.giaddr_spec()
        &&& r.chaddr_spec() == recv.chaddr_spec()
        &&& r.option_spec(53) == Some(seq![mt])
        &&& r.option_spec(51) == Some(be_bytes(self.config().lease_time))
        &&& r.option_spec(54) == Some(be_bytes(self.config().dhcp_svr_addr))
        &&& r.option_spec(1) == Some(be_bytes(self.config().subnet_mask))
        &&& r.option_spec(3) == Some(be_bytes(self.config().default_gateway))
        &&& r.option_spec(6) == Some(be_bytes(self.config().dns_svr_addr))
        &&& r.option_spec(50) is None
        &&& r@.subrange(OPTIONS as int, OPTIONS + MAGIC_COOKIE_LEN) == MAGIC_COOKIE@
        &&& reply_options_layout(
            r.options_spec(),
            mt,
            be_bytes(self.config().lease_time),
            be_bytes(self.config().dhcp_svr_addr),
            be_bytes(self.config().subnet_mask),
            be_bytes(self.config().default_gateway),
            be_bytes(self.config().dns_svr_addr),
        )
        &&& mt != MessageType::DHCPACK ==> r@.subrange(CIADDR as int, YIADDR as int) == seq![0u8, 0u8, 0u8, 0u8]
        &&& forall|k: int| #[trigger] reply_zero_byte(k) ==> r@[k] == 0
    }

    /// Builds a reply of type `message_type` to `recv` that leases `ip_addr_to_lease`.
    pub fn make_dhcp_packet(&self, recv_packet: &DhcpPacket, message_type: MessageType, ip_addr_to_lease: u32) -> (r: DhcpPacket)
        requires
            self.wf(),
        ensures
            self.is_reply(&r, recv_packet, message_type.0, ip_addr_to_lease),
    {
        // The request's length bounds the offsets of its fixed fields.
        let recv_len = recv_packet.len();
        assert(recv_len >= PACKET_MINIMUM_SIZE);
        let buf = vec![0u8; DHCP_SIZE];
        let mut p = DhcpPacket::new(buf).unwrap();
        let ghost zeroed = p@;
        assert(forall|k: int| 0 <= k < DHCP_SIZE ==> zeroed[k] == 0);
        p.set_op(BOOTREPLY);
        p.set_htype(HTYPE_ETHER);
        p.set_hlen(ETHER_HLEN);
        let xid = recv_packet.xid();
        let ghost g1 = p@;
        p.set_xid(xid);
        proof { lemma_splice_index(g1, XID as int, xid@); }
        let ghost g2 = p@;
        if message_type.0 == MessageType::DHCPACK {
            let ci = recv_packet.ciaddr();
            p.set_ciaddr(ci);
            proof { lemma_splice_index(g2, CIADDR as int, be_bytes(ci)); }
        }
        let ghost g3 = p@;
        p.set_yiaddr(ip_addr_to_lease);
        proof { lemma_splice_index(g3, YIADDR as int, be_bytes(ip_addr_to_lease)); }
        let flags = recv_packet.flags();
        let ghost g4 = p@;
        p.set_flags(flags);
        proof { lemma_splice_index(g4, FLAGS as int, flags@); }
        let ghost g5 = p@;
        let gi = recv_packet.giaddr();
        p.set_giaddr(gi);
        proof { lemma_splice_index(g5, GIADDR as int, be_bytes(gi)); }
        let ghost g6 = p@;
        let ch = recv_packet.chaddr();
        p.set_chaddr(ch.as_slice());
        proof { lemma_splice_index(g6, CHADDR as int, ch@); }
        let ghost fixed = p@;

        let mut cursor: usize = OPTIONS;
        p.set_magic_cookie(&mut cursor);
        proof { lemma_splice_index(fixed, OPTIONS as int, crate::packet::MAGIC_COOKIE@); }
        let ghost h0 = p@;
        let mt = [message_type.0];
        p.set_option(DhcpOptions::MessageType, Some(mt.as_slice()), &mut cursor);
        proof { lemma_splice_index(h0, 240, seq![53u8, 1u8] + mt@); }
        let ghost h1 = p@;
        p.set_option(DhcpOptions::IpAddressLeaseTime, Some(self.lease_time.as_slice()), &mut cursor);
        proof { lemma_splice_index(h1, 243, seq![51u8, 4u8] + self.lease_time@); }
        let ghost h2 = p@;
        let svr = big_endian_from(self.env.dhcp_svr_addr);
        p.set_option(DhcpOptions::ServerIdentifier, Some(svr.as_slice()), &mut cursor);
        proof { lemma_splice_index(h2, 249, seq![54u8, 4u8] + svr@); }
        let ghost h3 = p@;
        let mask = big_endian_from(self.env.subnet_mask);
        p.set_option(DhcpOptions::SubnetMask, Some(mask.as_slice()), &mut cursor);
        proof { lemma_splice_index(h3, 255, seq![1u8, 4u8] + mask@); }
        let ghost h4 = p@;
        let router = big_endian_from(self.env.default_gateway);
        p.set_option(DhcpOptions::Router, Some(router.as_slice()), &mut cursor);
        proof { lemma_splice_index(h4, 261, seq![3u8, 4u8] + router@); }
        let ghost h5 = p@;
        let dns = big_endian_from(self.env.dns_svr_addr);
        p.set_option(DhcpOptions::Dns, Some(dns.as_slice()), &mut cursor);
        proof { lemma_splice_index(h5, 267, seq![6u8, 4u8] + dns@); }
        p.set_option(DhcpOptions::End, None, &mut cursor);
        proof {
            let f = p@;
            assert(f.len() == DHCP_SIZE);
            assert forall|k: int| 0 <= k < OPTIONS implies f[k] == fixed[k] by {}
            assert(f.subrange(XID as int, 8) =~= recv_packet.xid_spec());
            assert(f.subrange(FLAGS as int, 12) =~= recv_packet.flags_spec());
            assert(f.subrange(CHADDR as int, 34) =~= recv_packet.chaddr_spec());
            let ip = ip_addr_to_lease;
            assert(f.subrange(YIADDR as int, 20) =~= be_bytes(ip));
            lemma_be_round_trip(ip);
            let gi = recv_packet.giaddr_spec();
            assert(f.subrange(GIADDR as int, 28) =~= be_bytes(gi));
            lemma_be_round_trip(gi);
            if message_type.0 == MessageType::DHCPACK {
                let ci = recv_packet.ciaddr_spec();
                assert(f.subrange(CIADDR as int, 16) =~= be_bytes(ci));
                lemma_be_round_trip(ci);
            } else {
                assert(f.subrange(CIADDR as int, 16) =~= seq![0u8, 0u8, 0u8, 0u8]);
                assert(be_u32(0, 0, 0, 0) == 0) by (bit_vector);
            }
            assert forall|k: int| #[trigger] reply_zero_byte(k) implies f[k] == 0 by {
                assert(zeroed[k] == 0);
            }
            assert(f.subrange(OPTIONS as int, OPTIONS + MAGIC_COOKIE_LEN) =~= MAGIC_COOKIE@);
            let opts = f.subrange(OPTIONS as int, DHCP_SIZE as int);
            assert(opts.subrange(9, 13) =~= be_bytes(self.config().lease_time));
            assert(opts.subrange(15, 19) =~= be_bytes(self.config().dhcp_svr_addr));
            assert(opts.subrange(21, 25) =~= be_bytes(self.config().subnet_mask));
            assert(opts.subrange(27, 31) =~= be_bytes(self.config().default_gateway));
            assert(opts.subrange(33, 37) =~= be_bytes(self.config().dns_svr_addr));
            lemma_reply_options(
                opts,
                message_type.0,
                be_bytes(self.config().lease_time),
                be_bytes(self.config().dhcp_svr_addr),
                be_bytes(self.config().subnet_mask),
                be_bytes(self.config().default_gateway),
                be_bytes(self.config().dns_svr_addr),
            );
        }
        p
    }

    /// A server for `env` whose pool holds every assignable address of the
    /// subnet that `leased` does not hold; it fails on a mask that is not a
    /// run of leading ones.
    pub fn new(env: Environment, leased: &Vec<u32>) -> (r: Result<DhcpServer, DhcpError>)
        ensures
            !is_prefix_mask(env.subnet_mask) ==> r == Err::<DhcpServer, DhcpError>(DhcpError::InvalidSubnetMask),
            is_prefix_mask(env.subnet_mask) ==> (r matches Ok(s) && s.wf() && s.config() == env
                && forall|a: u32| s.pool().contains(a) <==> (env.assignable(a) && !leased@.contains(a))),
    {
        if !is_valid_mask(env.subnet_mask) {
            return Err(DhcpError::InvalidSubnetMask);
        }
        let addrs = init_addr_pool(&env, leased);
        let lease_time = big_endian_from(env.lease_time);
        Ok(DhcpServer { addr_pool: AddressPool::from_descending(addrs), env, lease_time })
    }

    /// Takes the smallest free address.
    pub fn find_available_ip_addr(&mut self) -> (r: Option<u32>)
        requires
            old(self).wf(),
        ensures
            final(self).wf(),
            final(self).config() == old(self).config(),
            (r, final(self).pool()) == take_next_spec(old(self).pool()),
    {
        let r = self.addr_pool.take_next();
        proof {
            assert forall|k: int| 0 <= k < self.addr_pool@.len() implies self.env.assignable(#[trigger] self.addr_pool@[k]) by {
                assert(old(self).addr_pool@[k] == self.addr_pool@[k]);
            }
        }
        r
    }

    /// Takes `ip_addr` out of the pool if it is free.
    pub fn find_ip_addr(&mut self, ip_addr: u32) -> (r: Option<u32>)
        requires
            old(self).wf(),
        ensures
            final(self).wf(),
            final(self).config() == old(self).config(),
            (r, final(self).pool()) == take_specific_spec(old(self).pool(), ip_addr),
    {
        let r = self.addr_pool.take_specific(ip_addr);
        proof {
            assert forall|k: int| 0 <= k < self.addr_pool@.len() implies self.env.assignable(#[trigger] self.addr_pool@[k]) by {
                let a = self.addr_pool@[k];
                assert(self.addr_pool@.to_set().contains(a));
                assert(old(self).addr_pool@.to_set().contains(a));
                let j = choose|j: int| 0 <= j < old(self).addr_pool@.len() && old(self).addr_pool@[j] == a;
            }
        }
        r
    }

    /// One step of address selection for a DISCOVER. `leased` is the address
    /// on record for the client, `requested` the address it asked for. The
    /// caller probes the candidate and, should it be in use, calls again with
    /// the tier returned beside it.
    pub fn choose_leased_ip_addr(
        &mut self,
        stage: Selection,
        leased: Option<u32>,
        requested: Option<u32>,
    ) -> (r: Result<(Selection, u32), DhcpError>)
        requires
            old(self).wf(),
        ensures
            final(self).wf(),
            final(self).config() == old(self).config(),
            (r, final(self).pool()) == select_spec(old(self).config(), stage, leased, requested, old(self).pool()),
    {
        if stage == Selection::Leased {
            if let Some(a) = leased {
                if self.env.contains(a) {
                    return Ok((Selection::Requested, a));
                }
            }
        }
        if stage != Selection::Pool {
            if let Some(q) = requested {
                if let Some(a) = self.find_ip_addr(q) {
                    return Ok((Selection::Pool, a));
                }
            }
        }
        match self.find_available_ip_addr() {
            Some(a) => Ok((Selection::Pool, a)),
            None => Err(DhcpError::NoAvailableAddress),
        }
    }

    /// The OFFER of `ip_addr_to_lease` in answer to a DISCOVER.
    pub fn offer_network_addr(&self, recv_packet: &DhcpPacket, ip_addr_to_lease: u32) -> (r: DhcpPacket)
        requires
            self.wf(),
        ensures
            self.is_reply(&r, recv_packet, MessageType::DHCPOFFER, ip_addr_to_lease),
    {
        self.make_dhcp_packet(recv_packet, MessageType(MessageType::DHCPOFFER), ip_addr_to_lease)
    }

    /// A REQUEST that names server `svr_id`: nothing where the client chose
    /// another server, else the address to lease and the ACK that grants it.
    pub fn allocate_ip_addr(&self, svr_id: &[u8], recv_packet: &DhcpPacket) -> (r: Result<Option<(u32, DhcpPacket)>, DhcpError>)
        requires
            self.wf(),
        ensures
            svr_id@.len() != 4 ==> r == Err::<Option<(u32, DhcpPacket)>, DhcpError>(DhcpError::InvalidServerIdentifier),
            svr_id@.len() == 4 && be_u32_of(svr_id@) != self.config().dhcp_svr_addr ==> r matches Ok(None),
            svr_id@.len() == 4 && be_u32_of(svr_id@) == self.config().dhcp_svr_addr ==> match recv_packet.option_spec(50) {
                None => r == Err::<Option<(u32, DhcpPacket)>, DhcpError>(DhcpError::MissingOption),
                Some(v) => if v.len() != 4 {
                    r == Err::<Option<(u32, DhcpPacket)>, DhcpError>(DhcpError::InvalidRequestedAddress)
                } else {
                    r matches Ok(Some((a, p))) && a == be_u32_of(v) && self.is_reply(&p, recv_packet, MessageType::DHCPACK, a)
                },
            },
    {
        let svr = match ipv4_addr_from(svr_id) {
            Some(a) => a,
            None => return Err(DhcpError::InvalidServerIdentifier),
        };
        if svr != self.env.dhcp_svr_addr {
            return Ok(None);
        }
        let requested = match recv_packet.option(DhcpOptions::RequestedIpAddress) {
            Some(v) => v,
            None => return Err(DhcpError::MissingOption),
        };
        let ip_addr_to_lease = match ipv4_addr_from(requested.as_slice()) {
            Some(a) => a,
            None => return Err(DhcpError::InvalidRequestedAddress),
        };
        let ack = self.make_dhcp_packet(recv_packet, MessageType(MessageType::DHCPACK), ip_addr_to_lease);
        Ok(Some((ip_addr_to_lease, ack)))
    }

    /// A REQUEST without server identifier. With a requested address
    /// (init-reboot), `leased` is the address on record for the client: none
    /// means no reply; an ACK where it equals the requested address and lies
    /// in the subnet, else a NAK. Without one (renewing, rebinding), an ACK of
    /// the client's own address where it lies in the subnet, else an error.
    pub fn reallocate_ip_addr(&self, recv_packet: &DhcpPacket, leased: Option<u32>) -> (r: Result<Option<DhcpPacket>, DhcpError>)
        requires
            self.wf(),
        ensures
            match recv_packet.option_spec(50) {
                Some(v) => if v.len() != 4 {
                    r == Err::<Option<DhcpPacket>, DhcpError>(DhcpError::InvalidRequestedAddress)
                } else {
                    match leased {
                        None => r matches Ok(None),
                        Some(a) => if a == be_u32_of(v) && self.config().contains_spec(a) {
                            r matches Ok(Some(p)) && self.is_reply(&p, recv_packet, MessageType::DHCPACK, a)
                        } else {
                            r matches Ok(Some(p)) && self.is_reply(&p, recv_packet, MessageType::DHCPNAK, 0)
                        },
                    }
                },
                None => if self.config().contains_spec(recv_packet.ciaddr_spec()) {
                    r matches Ok(Some(p)) && self.is_reply(&p, recv_packet, MessageType::DHCPACK, recv_packet.ciaddr_spec())
                } else {
                    r == Err::<Option<DhcpPacket>, DhcpError>(DhcpError::NetworkMismatch)
                },
            },
    {
        match recv_packet.option(DhcpOptions::RequestedIpAddress) {
            Some(v) => {
                let requested = match ipv4_addr_from(v.as_slice()) {
                    Some(a) => a,
                    None => return Err(DhcpError::InvalidRequestedAddress),
                };
                let ip_addr = match leased {
                    Some(a) => a,
                    None => return Ok(None),
                };
                if ip_addr == requested && self.env.contains(ip_addr) {
                    Ok(Some(self.make_dhcp_packet(recv_packet, MessageType(MessageType::DHCPACK), ip_addr)))
                } else {
                    Ok(Some(self.make_dhcp_packet(recv_packet, MessageType(MessageType::DHCPNAK), 0)))
                }
            },
            None => {
                let ciaddr = recv_packet.ciaddr();
                if self.env.contains(ciaddr) {
                    Ok(Some(self.make_dhcp_packet(recv_packet, MessageType(MessageType::DHCPACK), ciaddr)))
                } else {
                    Err(DhcpError::NetworkMismatch)
                }
            },
        }
    }

    /// A RELEASE, once the lease is marked deleted: the client's address goes
    /// back to the pool where it is an assignable address of the subnet.
    pub fn release_ip_addr(&mut self, recv_packet: &DhcpPacket)
        requires
            old(self).wf(),
        ensures
            final(self).wf(),
            final(self).config() == old(self).config(),
            old(self).config().assignable(recv_packet.ciaddr_spec()) ==> final(self).pool().to_set()
                == old(self).pool().to_set().insert(recv_packet.ciaddr_spec()),
            !old(self).config().assignable(recv_packet.ciaddr_spec()) ==> final(self).pool() == old(self).pool(),
    {
        let ciaddr = recv_packet.ciaddr();
        if self.env.is_assignable(ciaddr) {
            self.addr_pool.give_back(ciaddr);
            proof {
                assert forall|k: int| 0 <= k < self.addr_pool@.len() implies self.env.assignable(#[trigger] self.addr_pool@[k]) by {
                    let a = self.addr_pool@[k];
                    assert(self.addr_pool@.to_set().contains(a));
                    if a != ciaddr {
                        assert(old(self).addr_pool@.to_set().contains(a));
                        let j = choose|j: int| 0 <= j < old(self).addr_pool@.len() && old(self).addr_pool@[j] == a;
                    }
                }
            }
        }
    }

    /// Whether `addr` is free.
    pub fn is_free(&self, addr: u32) -> (r: bool)
        ensures
            r == self.pool().contains(addr),
    {
        self.addr_pool.contains(addr)
    }

    /// The number of free addresses.
    pub fn free_count(&self) -> (r: usize)
        ensures
            r == self.pool().len(),
    {
        self.addr_pool.len()
    }
}

/// A received datagram as a request: `None` where it is shorter than the
/// fixed fields or is not a BOOTREQUEST.
pub fn parse_request(datagram: Vec<u8>) -> (r: Option<DhcpPacket>)
    ensures
        datagram@.len() < PACKET_MINIMUM_SIZE ==> r is None,
        datagram@.len() >= PACKET_MINIMUM_SIZE ==> (datagram@[OP as int] == BOOTREQUEST <==> r is Some),
        r matches Some(p) ==> p@ == datagram@,
{
    match DhcpPacket::new(datagram) {
        Some(p) => if p.op() == BOOTREQUEST {
            Some(p)
        } else {
            None
        },
        None => None,
    }
}

/// What a request asks for, by its message type; a message without one, or of
/// a type this server does not handle, is an error.
pub fn request_kind(packet: &DhcpPacket) -> (r: Result<RequestKind, DhcpError>)
    ensures
        match packet.option_spec(53) {
            None => r matches Err(DhcpError::MissingOption),
            Some(v) => if v.len() == 0 {
                r matches Err(DhcpError::MissingOption)
            } else if v[0] == MessageType::DHCPDISCOVER {
                r matches Ok(RequestKind::Discover)
            } else if v[0] == MessageType::DHCPREQUEST {
                match packet.option_spec(54) {
                    Some(id) => r matches Ok(RequestKind::Select(s)) && s@ == id,
                    None => r matches Ok(RequestKind::Renew),
                }
            } else if v[0] == MessageType::DHCPRELEASE {
                r matches Ok(RequestKind::Release)
            } else {
                r == Err::<RequestKind, DhcpError>(DhcpError::UnimplementedMessage(v[0]))
            },
        },
{
    let message = match packet.option(DhcpOptions::MessageType) {
        Some(v) => v,
        None => return Err(DhcpError::MissingOption),
    };
    if message.len() == 0 {
        return Err(DhcpError::MissingOption);
    }
    let t = message[0];
    if t == MessageType::DHCPDISCOVER {
        Ok(RequestKind::Discover)
    } else if t == MessageType::DHCPREQUEST {
        match packet.option(DhcpOptions::ServerIdentifier) {
            Some(id) => Ok(RequestKind::Select(id)),
            None => Ok(RequestKind::Renew),
        }
    } else if t == MessageType::DHCPRELEASE {
        Ok(RequestKind::Release)
    } else {
        Err(DhcpError::UnimplementedMessage(t))
    }
}

/// Two DISCOVERs from a client whose address on record lies in the subnet,
/// with no REQUEST between them, both resolve to that address first, and the
/// first leaves the pool as it was.
pub proof fn lemma_discover_idempotent(
    env: Environment,
    leased: u32,
    requested: Option<u32>,
    pool: Seq<u32>,
)
    requires
        env.contains_spec(leased),
    ensures
        select_spec(env, Selection::Leased, Some(leased), requested, pool) == (
            Ok::<(Selection, u32), DhcpError>((Selection::Requested, leased)),
            pool,
        ),
        select_spec(env, Selection::Leased, Some(leased), requested, select_spec(env, Selection::Leased, Some(leased), requested, pool).1)
            == select_spec(env, Selection::Leased, Some(leased), requested, pool),
{
}

} // verus!
