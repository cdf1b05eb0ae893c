use vstd::prelude::*;
use byteorder::{BigEndian, ByteOrder};

verus! {

/// The integer whose big-endian bytes are `b0 b1 b2 b3`.
pub open spec fn be_u32(b0: u8, b1: u8, b2: u8, b3: u8) -> u32 {
    ((b0 as u32) << 24u32) | ((b1 as u32) << 16u32) | ((b2 as u32) << 8u32) | (b3 as u32)
}

/// The four bytes of `n`, most significant first.
pub open spec fn be_bytes(n: u32) -> Seq<u8> {
    seq![(n >> 24u32) as u8, (n >> 16u32) as u8, (n >> 8u32) as u8, n as u8]
}

/// The first four bytes of `s` read as a big-endian integer.
pub open spec fn be_u32_of(s: Seq<u8>) -> u32 {
    be_u32(s[0], s[1], s[2], s[3])
}

pub proof fn lemma_be_round_trip(n: u32)
    ensures
        be_u32_of(be_bytes(n)) == n,
{
    let b0 = (n >> 24u32) as u8;
    let b1 = (n >> 16u32) as u8;
    let b2 = (n >> 8u32) as u8;
    let b3 = n as u8;
    assert(be_u32(b0, b1, b2, b3) == n) by (bit_vector)
        requires
            b0 == (n >> 24u32) as u8,
            b1 == (n >> 16u32) as u8,
            b2 == (n >> 8u32) as u8,
            b3 == n as u8,
    ;
}

/// Relies on byteorder's `BigEndian::read_u32`: the first four bytes of `b` as a
/// big-endian integer (it panics on fewer than four).
#[verifier::external_body]
pub(crate) fn read_be_u32(b: &[u8]) -> (r: u32)
    requires
        b@.len() >= 4,
    ensures
        r == be_u32_of(b@),
{
    BigEndian::read_u32(b)
}

/// Relies on byteorder's `BigEndian::write_u32`: it stores the four bytes of
/// `n`, most significant first, at the start of the buffer.
#[verifier::external_body]
fn write_be_u32(n: u32) -> (r: Vec<u8>)
    ensures
        r@ == be_bytes(n),
{
    let mut v = vec![0u8; 4];
    BigEndian::write_u32(&mut v, n);
    v
}

/// The big-endian encoding of `i`, as carried by the lease-time option.
pub fn big_endian_from(i: u32) -> (r: Vec<u8>)
    ensures
        r@ == be_bytes(i),
{
    write_be_u32(i)
}

/// An IPv4 address from exactly four bytes, or `None` for any other length.
pub fn ipv4_addr_from(buf: &[u8]) -> (r: Option<u32>)
    ensures
        buf@.len() == 4 ==> r == Some(be_u32_of(buf@)),
        buf@.len() != 4 ==> r is None,
{
    if buf.len() == 4 {
        Some(read_be_u32(buf))
    } else {
        None
    }
}

} // verus!
