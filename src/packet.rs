use vstd::prelude::*;
use vstd::slice::{slice_subrange, slice_to_vec};
use crate::wire::{be_bytes, be_u32_of, big_endian_from, ipv4_addr_from, read_be_u32};

verus! {

pub const OP: usize = 0;
pub const HTYPE: usize = 1;
pub const HLEN: usize = 2;
pub const XID: usize = 4;
pub const SECS: usize = 8;
pub const FLAGS: usize = 10;
pub const CIADDR: usize = 12;
pub const YIADDR: usize = 16;
pub const SIADDR: usize = 20;
pub const GIADDR: usize = 24;
pub const CHADDR: usize = 28;
pub const OPTIONS: usize = 236;
pub const MAGIC_COOKIE: [u8; 4] = [0x63, 0x82, 0x53, 0x63];
pub const MAGIC_COOKIE_LEN: usize = 4;
pub const PACKET_MINIMUM_SIZE: usize = 237;
pub const MAC_LEN: usize = 6;

/// The option codes this server reads and writes.
pub enum DhcpOptions {
    MessageType,
    IpAddressLeaseTime,
    ServerIdentifier,
    RequestedIpAddress,
    SubnetMask,
    Router,
    Dns,
    End,
}

impl DhcpOptions {
    pub open spec fn code_spec(&self) -> u8 {
        match self {
            DhcpOptions::MessageType => 53,
            DhcpOptions::IpAddressLeaseTime => 51,
            DhcpOptions::ServerIdentifier => 54,
            DhcpOptions::RequestedIpAddress => 50,
            DhcpOptions::SubnetMask => 1,
            DhcpOptions::Router => 3,
            DhcpOptions::Dns => 6,
            DhcpOptions::End => 255,
        }
    }

    pub open spec fn len_spec(&self) -> nat {
        match self {
            DhcpOptions::MessageType => 1,
            DhcpOptions::End => 0,
            _ => 4,
        }
    }

    /// The option's code on the wire.
    pub fn code(&self) -> (r: u8)
        ensures
            r == self.code_spec(),
    {
        match self {
            DhcpOptions::MessageType => 53,
            DhcpOptions::IpAddressLeaseTime => 51,
            DhcpOptions::ServerIdentifier => 54,
            DhcpOptions::RequestedIpAddress => 50,
            DhcpOptions::SubnetMask => 1,
            DhcpOptions::Router => 3,
            DhcpOptions::Dns => 6,
            DhcpOptions::End => 255,
        }
    }

    /// The fixed length of the option's value.
    pub fn len(&self) -> (r: usize)
        ensures
            r == self.len_spec(),
    {
        match self {
            DhcpOptions::MessageType => 1,
            DhcpOptions::IpAddressLeaseTime => 4,
            DhcpOptions::ServerIdentifier => 4,
            DhcpOptions::RequestedIpAddress => 4,
            DhcpOptions::SubnetMask => 4,
            DhcpOptions::Router => 4,
            DhcpOptions::Dns => 4,
            DhcpOptions::End => 0,
        }
    }
}

/// The value of the first option with `code` in the options area `opts`,
/// scanning from index `i`: Pad (0) is one byte, End (255) stops the scan,
/// every other option is code, length and value. A value that runs past the
/// end of the area is not found.
pub open spec fn find_option(opts: Seq<u8>, i: int, code: u8) -> Option<Seq<u8>>
    decreases opts.len() - i,
{
    if i < 0 || i >= opts.len() {
        None
    } else if opts[i] == 255 {
        None
    } else if opts[i] == code {
        if i + 1 < opts.len() && i + 2 + opts[i + 1] <= opts.len() {
            Some(opts.subrange(i + 2, i + 2 + opts[i + 1]))
        } else {
            None
        }
    } else if opts[i] == 0 {
        find_option(opts, i + 1, code)
    } else if i + 1 < opts.len() {
        let next = i + 2 + opts[i + 1] as int;
        if next <= opts.len() {
            find_option(opts, next, code)
        } else {
            None
        }
    } else {
        None
    }
}

/// `b` with the bytes from `off` on replaced by `data`.
pub open spec fn splice(b: Seq<u8>, off: int, data: Seq<u8>) -> Seq<u8> {
    b.subrange(0, off) + data + b.subrange(off + data.len(), b.len() as int)
}

/// The address stored big-endian at `off`.
pub open spec fn addr_at(b: Seq<u8>, off: int) -> u32 {
    be_u32_of(b.subrange(off, off + 4))
}

/// A DHCP message over its byte buffer, which holds at least the fixed fields.
pub struct DhcpPacket {
    buf: Vec<u8>,
}

impl View for DhcpPacket {
    type V = Seq<u8>;

    closed spec fn view(&self) -> Seq<u8> {
        self.buf@
    }
}

impl DhcpPacket {
    #[verifier::type_invariant]
    spec fn inv(&self) -> bool {
        PACKET_MINIMUM_SIZE <= self.buf@.len() <= usize::MAX
    }

    pub open spec fn op_spec(&self) -> u8 {
        self@[OP as int]
    }

    pub open spec fn xid_spec(&self) -> Seq<u8> {
        self@.subrange(XID as int, SECS as int)
    }

    pub open spec fn flags_spec(&self) -> Seq<u8> {
        self@.subrange(FLAGS as int, CIADDR as int)
    }

    pub open spec fn ciaddr_spec(&self) -> u32 {
        addr_at(self@, CIADDR as int)
    }

    pub open spec fn yiaddr_spec(&self) -> u32 {
        addr_at(self@, YIADDR as int)
    }

    pub open spec fn giaddr_spec(&self) -> u32 {
        addr_at(self@, GIADDR as int)
    }

    pub open spec fn chaddr_spec(&self) -> Seq<u8> {
        self@.subrange(CHADDR as int, CHADDR + MAC_LEN)
    }

    pub open spec fn options_spec(&self) -> Seq<u8> {
        self@.subrange(OPTIONS as int, self@.len() as int)
    }

    /// The value of an option, as `option` finds it.
    pub open spec fn option_spec(&self, code: u8) -> Option<Seq<u8>> {
        find_option(self.options_spec(), MAGIC_COOKIE_LEN as int, code)
    }

    /// The length of the buffer.
    pub fn len(&self) -> (r: usize)
        ensures
            r == self@.len(),
            r >= PACKET_MINIMUM_SIZE,
    {
        proof { use_type_invariant(self); }
        self.buf.len()
    }

    /// A message over `buf`, or `None` where `buf` is shorter than the fixed fields.
    pub fn new(buf: Vec<u8>) -> (r: Option<DhcpPacket>)
        ensures
            buf@.len() >= PACKET_MINIMUM_SIZE ==> (r matches Some(p) && p@ == buf@),
            buf@.len() < PACKET_MINIMUM_SIZE ==> r is None,
    {
        if buf.len() >= PACKET_MINIMUM_SIZE {
            Some(DhcpPacket { buf })
        } else {
            None
        }
    }

    /// The whole buffer.
    pub fn buf(&self) -> (r: &[u8])
        ensures
            r@ == self@,
    {
        self.buf.as_slice()
    }

    pub fn op(&self) -> (r: u8)
        ensures
            r == self.op_spec(),
    {
        proof { use_type_invariant(self); }
        self.buf[OP]
    }

    pub fn xid(&self) -> (r: &[u8])
        ensures
            r@ == self.xid_spec(),
    {
        proof { use_type_invariant(self); }
        slice_subrange(self.buf.as_slice(), XID, SECS)
    }

    /// The transaction id as a big-endian integer.
    pub fn transaction_id(&self) -> (r: u32)
        ensures
            r == be_u32_of(self.xid_spec()),
    {
        proof { use_type_invariant(self); }
        read_be_u32(self.xid())
    }

    pub fn flags(&self) -> (r: &[u8])
        ensures
            r@ == self.flags_spec(),
    {
        proof { use_type_invariant(self); }
        slice_subrange(self.buf.as_slice(), FLAGS, CIADDR)
    }

    fn addr_field(&self, off: usize) -> (r: u32)
        requires
            off + 4 <= PACKET_MINIMUM_SIZE,
        ensures
            r == addr_at(self@, off as int),
    {
        proof { use_type_invariant(self); }
        read_be_u32(slice_subrange(self.buf.as_slice(), off, off + 4))
    }

    pub fn ciaddr(&self) -> (r: u32)
        ensures
            r == self.ciaddr_spec(),
    {
        self.addr_field(CIADDR)
    }

    pub fn yiaddr(&self) -> (r: u32)
        ensures
            r == self.yiaddr_spec(),
    {
        self.addr_field(YIADDR)
    }

    pub fn giaddr(&self) -> (r: u32)
        ensures
            r == self.giaddr_spec(),
    {
        self.addr_field(GIADDR)
    }

    /// The Ethernet client hardware address.
    pub fn chaddr(&self) -> (r: Vec<u8>)
        ensures
            r@ == self.chaddr_spec(),
    {
        proof { use_type_invariant(self); }
        slice_to_vec(slice_subrange(self.buf.as_slice(), CHADDR, CHADDR + MAC_LEN))
    }

    /// The options area, magic cookie included.
    pub fn options(&self) -> (r: &[u8])
        ensures
            r@ == self.options_spec(),
    {
        proof { use_type_invariant(self); }
        slice_subrange(self.buf.as_slice(), OPTIONS, self.buf.len())
    }

    /// The value of the first option of the given kind, scanning the options
    /// area after the magic cookie; `None` once End or the end of the buffer
    /// is reached.
    pub fn option(&self, option: DhcpOptions) -> (r: Option<Vec<u8>>)
        ensures
            r is Some ==> self.option_spec(option.code_spec()) == Some(r->Some_0@),
            r is None ==> self.option_spec(option.code_spec()) is None,
    {
        proof { use_type_invariant(self); }
        let code = option.code();
        let opts = self.options();
        let n = opts.len();
        let mut index: usize = MAGIC_COOKIE_LEN;
        while index < n
            invariant
                code == option.code_spec(),
                opts@ == self.options_spec(),
                n == opts@.len(),
                find_option(opts@, index as int, code) == find_option(opts@, MAGIC_COOKIE_LEN as int, code),
            decreases n - index,
        {
            let c = opts[index];
            assert(c == opts@[index as int]);
            if c == 255 {
                return None;
            } else if c == code {
                if index + 1 < n {
                    let len = opts[index + 1] as usize;
                    if len <= n - index - 2 {
                        let data = slice_to_vec(slice_subrange(opts, index + 2, index + 2 + len));
                        return Some(data);
                    }
                }
                return None;
            } else if c == 0 {
                index = index + 1;
            } else {
                if index + 1 < n {
                    let len = opts[index + 1] as usize;
                    if len > n - index - 2 {
                        assert(find_option(opts@, index as int, code) is None) by {
                            assert(find_option(opts@, index + 2 + len, code) is None);
                        }
                        return None;
                    }
                    index = index + 2 + len;
                } else {
                    return None;
                }
            }
        }
        None
    }

    /// The requested-address option as an address, where it holds four bytes.
    pub fn requested_ip_addr(&self) -> (r: Option<u32>)
        ensures
            r == (match self.option_spec(DhcpOptions::RequestedIpAddress.code_spec()) {
                Some(v) => if v.len() == 4 { Some(be_u32_of(v)) } else { None },
                None => None,
            }),
    {
        match self.option(DhcpOptions::RequestedIpAddress) {
            Some(v) => ipv4_addr_from(v.as_slice()),
            None => None,
        }
    }

    /// Overwrites the bytes from `off` on with `data`.
    fn write_bytes(&mut self, off: usize, data: &[u8])
        requires
            off + data@.len() <= old(self)@.len(),
        ensures
            final(self)@ == splice(old(self)@, off as int, data@),
    {
        proof { use_type_invariant(&*self); }
        let n = data.len();
        let mut i: usize = 0;
        while i < n
            invariant
                n == data@.len(),
                off + n <= old(self)@.len(),
                old(self)@.len() <= usize::MAX,
                self@.len() == old(self)@.len(),
                self@.len() >= PACKET_MINIMUM_SIZE,
                0 <= i <= n,
                forall|k: int| 0 <= k < off || off + n <= k < self@.len() ==> self@[k] == old(self)@[k],
                forall|k: int| 0 <= k < i ==> self@[off + k] == data@[k],
            decreases n - i,
        {
            self.buf[off + i] = data[i];
            i = i + 1;
        }
        proof {
            let sp = splice(old(self)@, off as int, data@);
            assert forall|k: int| 0 <= k < self@.len() implies self@[k] == sp[k] by {
                if off <= k < off + n {
                    assert(self@[off + (k - off)] == data@[k - off]);
                }
            }
            assert(self@ =~= sp);
        }
    }

    pub fn set_op(&mut self, op: u8)
        ensures
            final(self)@ == old(self)@.update(OP as int, op),
    {
        proof { use_type_invariant(&*self); }
        self.buf[OP] = op;
    }

    pub fn set_htype(&mut self, htype: u8)
        ensures
            final(self)@ == old(self)@.update(HTYPE as int, htype),
    {
        proof { use_type_invariant(&*self); }
        self.buf[HTYPE] = htype;
    }

    pub fn set_hlen(&mut self, hlen: u8)
        ensures
            final(self)@ == old(self)@.update(HLEN as int, hlen),
    {
        proof { use_type_invariant(&*self); }
        self.buf[HLEN] = hlen;
    }

    /// Copies a four-byte transaction id.
    pub fn set_xid(&mut self, xid: &[u8])
        requires
            xid@.len() == SECS - XID,
        ensures
            final(self)@ == splice(old(self)@, XID as int, xid@),
    {
        proof { use_type_invariant(&*self); }
        self.write_bytes(XID, xid);
    }

    /// Copies the two flag bytes.
    pub fn set_flags(&mut self, flags: &[u8])
        requires
            flags@.len() == CIADDR - FLAGS,
        ensures
            final(self)@ == splice(old(self)@, FLAGS as int, flags@),
    {
        proof { use_type_invariant(&*self); }
        self.write_bytes(FLAGS, flags);
    }

    fn set_addr_field(&mut self, off: usize, addr: u32)
        requires
            off + 4 <= PACKET_MINIMUM_SIZE,
        ensures
            final(self)@ == splice(old(self)@, off as int, be_bytes(addr)),
    {
        proof { use_type_invariant(&*self); }
        let bytes = big_endian_from(addr);
        self.write_bytes(off, bytes.as_slice());
    }

    pub fn set_ciaddr(&mut self, ciaddr: u32)
        ensures
            final(self)@ == splice(old(self)@, CIADDR as int, be_bytes(ciaddr)),
    {
        self.set_addr_field(CIADDR, ciaddr);
    }

    pub fn set_yiaddr(&mut self, yiaddr: u32)
        ensures
            final(self)@ == splice(old(self)@, YIADDR as int, be_bytes(yiaddr)),
    {
        self.set_addr_field(YIADDR, yiaddr);
    }

    pub fn set_giaddr(&mut self, giaddr: u32)
        ensures
            final(self)@ == splice(old(self)@, GIADDR as int, be_bytes(giaddr)),
    {
        self.set_addr_field(GIADDR, giaddr);
    }

    /// Copies a six-byte Ethernet address into the client hardware address field.
    pub fn set_chaddr(&mut self, chaddr: &[u8])
        requires
            chaddr@.len() == MAC_LEN,
        ensures
            final(self)@ == splice(old(self)@, CHADDR as int, chaddr@),
    {
        proof { use_type_invariant(&*self); }
        self.write_bytes(CHADDR, chaddr);
    }

    /// Writes the magic cookie at the cursor and moves the cursor past it.
    pub fn set_magic_cookie(&mut self, cursor: &mut usize)
        requires
            *old(cursor) + MAGIC_COOKIE_LEN <= old(self)@.len(),
        ensures
            final(self)@ == splice(old(self)@, *old(cursor) as int, MAGIC_COOKIE@),
            *final(cursor) == *old(cursor) + MAGIC_COOKIE_LEN,
    {
        proof { use_type_invariant(&*self); }
        let cookie: [u8; 4] = MAGIC_COOKIE;
        self.write_bytes(*cursor, cookie.as_slice());
        *cursor = *cursor + MAGIC_COOKIE_LEN;
    }

    /// Writes an option at the cursor: End as its code alone, with the cursor
    /// left on it; any other option as code, fixed length and value (the value
    /// bytes left as they are when `data` is `None`), with the cursor moved past it.
    pub fn set_option(&mut self, option: DhcpOptions, data: Option<&[u8]>, cursor: &mut usize)
        requires
            option is End ==> *old(cursor) < old(self)@.len(),
            !(option is End) ==> *old(cursor) + 2 + option.len_spec() <= old(self)@.len(),
            data matches Some(d) ==> d@.len() == option.len_spec(),
        ensures
            option is End ==> final(self)@ == old(self)@.update(*old(cursor) as int, 255u8)
                && *final(cursor) == *old(cursor),
            !(option is End) ==> *final(cursor) == *old(cursor) + 2 + option.len_spec(),
            !(option is End) && data is Some ==> final(self)@ == splice(
                old(self)@,
                *old(cursor) as int,
                seq![option.code_spec(), option.len_spec() as u8] + data->Some_0@,
            ),
            !(option is End) && data is None ==> final(self)@ == splice(
                old(self)@,
                *old(cursor) as int,
                seq![option.code_spec(), option.len_spec() as u8],
            ),
    {
        proof { use_type_invariant(&*self); }
        let code = option.code();
        let c = *cursor;
        self.buf[c] = code;
        if code == 255 {
            return;
        }
        let len = option.len();
        self.buf[c + 1] = len as u8;
        match data {
            Some(d) => {
                self.write_bytes(c + 2, d);
                proof {
                    let want = splice(old(self)@, c as int, seq![option.code_spec(), len as u8] + d@);
                    assert(self@ =~= want);
                }
            },
            None => {
                proof {
                    let want = splice(old(self)@, c as int, seq![option.code_spec(), len as u8]);
                    assert(self@ =~= want);
                }
            },
        }
        *cursor = c + 2 + len;
    }
}

} // verus!
