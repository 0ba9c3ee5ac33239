//! The peer's transport address and its XOR masking.
//!
//! A response carries the address that the request was seen to come from,
//! XORed with the magic cookie and, for IPv6, with the request's transaction
//! id, which the functions here call the token. XOR with a fixed mask undoes
//! itself, so the receiver masks once more to read the address.

use crate::message::{AttributeView, StunAttribute, STUN_MAGIC_COOKIE};
use crate::wire::{
    be16, be16_bytes, be32, be32_bytes, lemma_be16_of_bytes, lemma_be32_of_bytes,
    lemma_bytes_of_be32, push_u16_be, push_u32_be, read_u16_be, read_u32_be,
};
use vstd::prelude::*;

verus! {

/// The attribute type of a masked transport address.
pub const XOR_MAPPED_ADDRESS: u16 = 0x0020;

/// The family code of an IPv4 address in a masked-address attribute.
pub const FAMILY_IPV4: u16 = 0x0001;

/// The family code of an IPv6 address in a masked-address attribute.
pub const FAMILY_IPV6: u16 = 0x0002;

/// A transport address as it was seen on the wire: an IPv4 address by its
/// four octets or an IPv6 address by its eight 16-bit segments, each in
/// network order, with the port.
#[derive(Clone, Copy, Debug, PartialEq, Eq)]
pub enum PeerAddress {
    V4 { octets: [u8; 4], port: u16 },
    V6 { segments: [u16; 8], port: u16 },
}

/// Bits `16 * i` to `16 * i + 15` of the magic cookie, counted from the
/// least significant. The cookie has 32 bits: from `i = 2` on there are
/// none left and the slice is zero.
pub open spec fn cookie_slice(i: int) -> u16 {
    if i == 0 {
        0xA442
    } else if i == 1 {
        0x2112
    } else {
        0
    }
}

/// What a port is XORed with: the high 16 bits of the magic cookie.
pub open spec fn port_mask() -> u16 {
    cookie_slice(1)
}

/// What segment `i` of an IPv6 address is XORed with: for the first four
/// segments the cookie's slice `i`, for the last four the big-endian 16-bit
/// value at bytes `2 * (i - 4)` and `2 * (i - 4) + 1` of the token.
pub open spec fn segment_mask(i: int, token: Seq<u8>) -> u16 {
    if i < 4 {
        cookie_slice(i)
    } else {
        be16(token[2 * (i - 4)], token[2 * (i - 4) + 1])
    }
}

/// The four octets of an IPv4 address after masking: the address as a
/// big-endian 32-bit value, XORed with the magic cookie, in network order.
pub open spec fn mask_octets(octets: [u8; 4]) -> [u8; 4] {
    let masked = be32_bytes(be32(octets[0], octets[1], octets[2], octets[3]) ^ STUN_MAGIC_COOKIE);
    [masked[0], masked[1], masked[2], masked[3]]
}

/// The eight segments of an IPv6 address after masking.
pub open spec fn mask_segments(segments: [u16; 8], token: Seq<u8>) -> [u16; 8] {
    [
        segments[0] ^ segment_mask(0, token),
        segments[1] ^ segment_mask(1, token),
        segments[2] ^ segment_mask(2, token),
        segments[3] ^ segment_mask(3, token),
        segments[4] ^ segment_mask(4, token),
        segments[5] ^ segment_mask(5, token),
        segments[6] ^ segment_mask(6, token),
        segments[7] ^ segment_mask(7, token),
    ]
}

/// The address that stands in a masked-address attribute for `address`.
pub open spec fn mask_address(address: PeerAddress, token: Seq<u8>) -> PeerAddress {
    match address {
        PeerAddress::V4 { octets, port } => PeerAddress::V4 {
            octets: mask_octets(octets),
            port: port ^ port_mask(),
        },
        PeerAddress::V6 { segments, port } => PeerAddress::V6 {
            segments: mask_segments(segments, token),
            port: port ^ port_mask(),
        },
    }
}

/// The segments of an IPv6 address on the wire: each as two bytes, most
/// significant first, one segment after the other.
pub open spec fn segments_bytes(segments: Seq<u16>) -> Seq<u8> {
    Seq::new(2 * segments.len(), |k: int| be16_bytes(segments[k / 2])[k % 2])
}

/// The value of an address attribute that carries `address` as it is:
/// family code, port, then the address, 8 bytes for IPv4 and 20 for IPv6.
pub open spec fn address_payload(address: PeerAddress) -> Seq<u8> {
    match address {
        PeerAddress::V4 { octets, port } => be16_bytes(FAMILY_IPV4) + be16_bytes(port) + octets@,
        PeerAddress::V6 { segments, port } => be16_bytes(FAMILY_IPV6) + be16_bytes(port)
            + segments_bytes(segments@),
    }
}

/// The value of the masked-address attribute for `address`: the masked
/// address in the place of the address.
pub open spec fn xor_mapped_payload(address: PeerAddress, token: Seq<u8>) -> Seq<u8> {
    address_payload(mask_address(address, token))
}

/// The masked-address attribute for `address`.
pub open spec fn xor_mapped_attribute(address: PeerAddress, token: Seq<u8>) -> AttributeView {
    AttributeView {
        attr_type: XOR_MAPPED_ADDRESS,
        length: xor_mapped_payload(address, token).len() as u16,
        value: xor_mapped_payload(address, token),
    }
}

/// The slices of the magic cookie are what shifting gives: slice `i` is
/// the low 16 bits of the cookie, as a 64-bit value, shifted right by
/// `16 * i`.
pub proof fn lemma_cookie_slice_by_shift(i: u64)
    requires
        i < 4,
    ensures
        cookie_slice(i as int) == ((STUN_MAGIC_COOKIE as u64) >> ((16 * i) as u64)) & 0xffff,
{
    assert((0x2112_A442u64 >> 0u64) & 0xffff == 0xA442) by (bit_vector);
    assert((0x2112_A442u64 >> 16u64) & 0xffff == 0x2112) by (bit_vector);
    assert((0x2112_A442u64 >> 32u64) & 0xffff == 0) by (bit_vector);
    assert((0x2112_A442u64 >> 48u64) & 0xffff == 0) by (bit_vector);
}

/// Slice `i` of the magic cookie.
fn cookie_slice_at(i: usize) -> (slice: u16)
    requires
        i < 4,
    ensures
        slice == cookie_slice(i as int),
{
    let shifted: u64 = (STUN_MAGIC_COOKIE as u64) >> (16 * (i as u64));
    proof {
        lemma_cookie_slice_by_shift(i as u64);
    }
    (shifted & 0xffff) as u16
}

/// Masks the eight segments of an IPv6 address and lays them out in network
/// order: the first four segments are XORed with the slices of the magic
/// cookie, the last four with the first eight bytes of the transaction id.
///
/// The cookie has two 16-bit slices. The third and fourth segments are
/// XORed with zero and so stand in the result as they are, and the last
/// four bytes of the transaction id are not used.
pub fn xor_ipv6_address(segments: &[u16; 8], transaction_id: &[u8; 12]) -> (masked: [u8; 16])
    ensures
        masked@ == segments_bytes(mask_segments(*segments, transaction_id@)@),
{
    let ghost expected = segments_bytes(mask_segments(*segments, transaction_id@)@);
    let mut xor_ip = [0u8; 16];
    let mut i: usize = 0;
    while i < 8
        invariant
            i <= 8,
            expected == segments_bytes(mask_segments(*segments, transaction_id@)@),
            forall|k: int| 0 <= k < 2 * i ==> xor_ip@[k] == expected[k],
        decreases 8 - i,
    {
        let mask = if i < 4 {
            cookie_slice_at(i)
        } else {
            read_u16_be(transaction_id.as_slice(), 2 * (i - 4))
        };
        let segment = segments[i] ^ mask;
        assert(segment == mask_segments(*segments, transaction_id@)@[i as int]);
        proof {
            reveal(be16_bytes);
        }
        xor_ip[2 * i] = (segment / 256) as u8;
        xor_ip[2 * i + 1] = (segment % 256) as u8;
        i += 1;
    }
    assert(xor_ip@ =~= expected);
    xor_ip
}

/// Builds the masked-address attribute for a peer: type `0x0020`, and as
/// value the family code, the masked port and the masked address.
///
/// The port is XORed with the high 16 bits of the magic cookie. An IPv4
/// address is XORed, as a big-endian 32-bit value, with the magic cookie;
/// an IPv6 address is masked as [`xor_ipv6_address`] does.
pub fn create_xor_mapped_address(client_addr: &PeerAddress, transaction_id: &[u8; 12]) -> (attribute:
    StunAttribute)
    ensures
        attribute@ == xor_mapped_attribute(*client_addr, transaction_id@),
        attribute.is_consistent(),
        attribute.length == match *client_addr {
            PeerAddress::V4 { .. } => 8u16,
            PeerAddress::V6 { .. } => 20u16,
        },
{
    assert(0x2112_A442u32 >> 16u32 == 0x2112) by (bit_vector);
    match client_addr {
        PeerAddress::V4 { octets, port } => {
            let ip = read_u32_be(octets.as_slice(), 0) ^ STUN_MAGIC_COOKIE;
            let port = *port ^ ((STUN_MAGIC_COOKIE >> 16) as u16);

            let mut value = Vec::with_capacity(8);
            push_u16_be(&mut value, FAMILY_IPV4);
            push_u16_be(&mut value, port);
            push_u32_be(&mut value, ip);
            proof {
                lemma_be16_of_bytes(FAMILY_IPV4);
                lemma_be16_of_bytes(port);
                lemma_be32_of_bytes(ip);
            }
            assert(value@ =~= xor_mapped_payload(*client_addr, transaction_id@));

            StunAttribute { attr_type: XOR_MAPPED_ADDRESS, length: value.len() as u16, value }
        },
        PeerAddress::V6 { segments, port } => {
            let ip = xor_ipv6_address(segments, transaction_id);
            let port = *port ^ ((STUN_MAGIC_COOKIE >> 16) as u16);

            let mut value = Vec::with_capacity(20);
            push_u16_be(&mut value, FAMILY_IPV6);
            push_u16_be(&mut value, port);
            value.extend_from_slice(ip.as_slice());
            proof {
                lemma_be16_of_bytes(FAMILY_IPV6);
                lemma_be16_of_bytes(port);
            }
            assert(value@ =~= xor_mapped_payload(*client_addr, transaction_id@));

            StunAttribute { attr_type: XOR_MAPPED_ADDRESS, length: value.len() as u16, value }
        },
    }
}

/// Byte by byte, masking an IPv4 address XORs its octets with the bytes of
/// the magic cookie in network order: `21 12 A4 42`.
pub proof fn lemma_mask_octets_bytewise(octets: [u8; 4])
    ensures
        mask_octets(octets)[0] == octets[0] ^ 0x21,
        mask_octets(octets)[1] == octets[1] ^ 0x12,
        mask_octets(octets)[2] == octets[2] ^ 0xA4,
        mask_octets(octets)[3] == octets[3] ^ 0x42,
{
    let a = octets[0];
    let b = octets[1];
    let c = octets[2];
    let d = octets[3];
    let x = be32(a, b, c, d);
    let y = x ^ STUN_MAGIC_COOKIE;
    reveal(be32);
    reveal(be32_bytes);
    assert(x == (a as u32) * 0x100_0000 + (b as u32) * 0x1_0000 + (c as u32) * 0x100 + (d as u32));
    assert({
        &&& (y / 0x100_0000) as u8 == a ^ 0x21
        &&& (y / 0x1_0000 % 0x100) as u8 == b ^ 0x12
        &&& (y / 0x100 % 0x100) as u8 == c ^ 0xA4
        &&& (y % 0x100) as u8 == d ^ 0x42
    }) by (bit_vector)
        requires
            x == (a as u32) * 0x100_0000 + (b as u32) * 0x1_0000 + (c as u32) * 0x100 + (d as u32),
            y == x ^ 0x2112_A442u32,
    ;
}

/// Masking is its own inverse: masking a masked address with the same token
/// gives the address that was masked first. So the masked-address payload of
/// a masked address is the plain payload of the address itself.
pub proof fn lemma_mask_address_involution(address: PeerAddress, token: Seq<u8>)
    ensures
        mask_address(mask_address(address, token), token) == address,
        xor_mapped_payload(mask_address(address, token), token) == address_payload(address),
{
    match address {
        PeerAddress::V4 { octets, port } => {
            let x = be32(octets[0], octets[1], octets[2], octets[3]);
            let y = x ^ STUN_MAGIC_COOKIE;
            lemma_be32_of_bytes(y);
            lemma_bytes_of_be32(octets[0], octets[1], octets[2], octets[3]);
            assert((x ^ 0x2112_A442u32) ^ 0x2112_A442u32 == x) by (bit_vector);
            assert((port ^ 0x2112u16) ^ 0x2112u16 == port) by (bit_vector);
            assert(mask_octets(mask_octets(octets)) =~= octets);
        },
        PeerAddress::V6 { segments, port } => {
            assert((port ^ 0x2112u16) ^ 0x2112u16 == port) by (bit_vector);
            assert forall|s: u16, m: u16| (#[trigger] (s ^ m)) ^ m == s by {
                assert((s ^ m) ^ m == s) by (bit_vector);
            }
            assert(mask_segments(mask_segments(segments, token), token) =~= segments);
        },
    }
}

} // verus!
