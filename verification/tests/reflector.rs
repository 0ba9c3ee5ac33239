use stun_responder::address::{create_xor_mapped_address, xor_ipv6_address};
use stun_responder::PeerAddress;

const ZERO_TOKEN: [u8; 12] = [0; 12];
const TOKEN: [u8; 12] = [1, 2, 3, 4, 5, 6, 7, 8, 9, 10, 11, 12];

/// Reads an address back out of the value of an address attribute.
fn address_of_payload(value: &[u8]) -> PeerAddress {
    let port = u16::from_be_bytes([value[2], value[3]]);
    match (value[0], value[1]) {
        (0, 1) => {
            assert_eq!(value.len(), 8);
            PeerAddress::V4 { octets: [value[4], value[5], value[6], value[7]], port }
        }
        (0, 2) => {
            assert_eq!(value.len(), 20);
            let mut segments = [0u16; 8];
            for i in 0..8usize {
                segments[i] = u16::from_be_bytes([value[4 + 2 * i], value[5 + 2 * i]]);
            }
            PeerAddress::V6 { segments, port }
        }
        _ => panic!("unknown address family"),
    }
}

/// The value of an address attribute that carries the address unmasked.
fn plain_payload(address: &PeerAddress) -> Vec<u8> {
    let mut value: Vec<u8> = Vec::new();
    match address {
        PeerAddress::V4 { octets, port } => {
            value.extend_from_slice(&[0, 1]);
            value.extend_from_slice(&port.to_be_bytes());
            value.extend_from_slice(octets);
        }
        PeerAddress::V6 { segments, port } => {
            value.extend_from_slice(&[0, 2]);
            value.extend_from_slice(&port.to_be_bytes());
            for segment in segments {
                value.extend_from_slice(&segment.to_be_bytes());
            }
        }
    }
    value
}

#[test]
fn ipv4_peer_is_masked_with_the_cookie() {
    let peer = PeerAddress::V4 { octets: [203, 0, 113, 5], port: 4242 };
    let attribute = create_xor_mapped_address(&peer, &TOKEN);
    assert_eq!(attribute.attr_type, 0x0020);
    assert_eq!(attribute.length, 8);
    assert_eq!(attribute.value.len(), 8);
    assert_eq!(&attribute.value[0..2], &[0x00, 0x01]);
    assert_eq!(&attribute.value[2..4], &(4242u16 ^ 0x2112).to_be_bytes());
    assert_eq!(
        &attribute.value[4..8],
        &[203 ^ 0x21, 0 ^ 0x12, 113 ^ 0xA4, 5 ^ 0x42]
    );
    assert_eq!(attribute.value, vec![0x00, 0x01, 0x31, 0x80, 0xEA, 0x12, 0xD5, 0x47]);
}

#[test]
fn ipv4_mask_does_not_depend_on_the_token() {
    let peer = PeerAddress::V4 { octets: [203, 0, 113, 5], port: 4242 };
    assert_eq!(
        create_xor_mapped_address(&peer, &TOKEN),
        create_xor_mapped_address(&peer, &ZERO_TOKEN)
    );
    assert_eq!(
        create_xor_mapped_address(&peer, &TOKEN),
        create_xor_mapped_address(&peer, &[0xFF; 12])
    );
}

#[test]
fn ipv4_address_is_masked_big_endian() {
    let peer = PeerAddress::V4 { octets: [192, 168, 1, 77], port: 54321 };
    let attribute = create_xor_mapped_address(&peer, &ZERO_TOKEN);
    assert_eq!(attribute.value, vec![0x00, 0x01, 0xF5, 0x23, 0xE1, 0xBA, 0xA5, 0x0F]);
    let masked = u32::from_be_bytes([192, 168, 1, 77]) ^ 0x2112_A442;
    assert_eq!(&attribute.value[4..8], &masked.to_be_bytes());
}

#[test]
fn ipv4_zero_address_shows_the_cookie() {
    let peer = PeerAddress::V4 { octets: [0, 0, 0, 0], port: 0 };
    let attribute = create_xor_mapped_address(&peer, &TOKEN);
    assert_eq!(attribute.value, vec![0x00, 0x01, 0x21, 0x12, 0x21, 0x12, 0xA4, 0x42]);
}

#[test]
fn ipv6_peer_with_zero_token() {
    let peer = PeerAddress::V6 { segments: [0x2001, 0x0db8, 0, 0, 0, 0, 0, 1], port: 3478 };
    let attribute = create_xor_mapped_address(&peer, &ZERO_TOKEN);
    assert_eq!(attribute.attr_type, 0x0020);
    assert_eq!(attribute.length, 20);
    assert_eq!(attribute.value.len(), 20);
    assert_eq!(&attribute.value[0..2], &[0x00, 0x02]);
    assert_eq!(&attribute.value[2..4], &(3478u16 ^ 0x2112).to_be_bytes());
    assert_eq!(&attribute.value[4..6], &(0x2001u16 ^ 0xA442).to_be_bytes());
    assert_eq!(&attribute.value[6..8], &(0x0db8u16 ^ 0x2112).to_be_bytes());
    assert_eq!(&attribute.value[8..12], &[0, 0, 0, 0]);
    assert_eq!(&attribute.value[12..20], &[0, 0, 0, 0, 0, 0, 0, 1]);
    assert_eq!(
        attribute.value,
        vec![
            0x00, 0x02, 0x2C, 0x84, 0x84, 0x43, 0x2C, 0xAA, 0, 0, 0, 0, 0, 0, 0, 0, 0, 0, 0, 1
        ]
    );
}

#[test]
fn ipv6_last_segments_are_masked_with_the_token() {
    let peer = PeerAddress::V6 {
        segments: [0xfe80, 0, 0, 0, 0x1234, 0x5678, 0x9abc, 0xdef0],
        port: 4242,
    };
    let attribute = create_xor_mapped_address(&peer, &TOKEN);
    assert_eq!(
        attribute.value,
        vec![
            0x00, 0x02, 0x31, 0x80, 0x5A, 0xC2, 0x21, 0x12, 0x00, 0x00, 0x00, 0x00, 0x13, 0x36,
            0x55, 0x7C, 0x9F, 0xBA, 0xD9, 0xF8
        ]
    );
}

#[test]
fn ipv6_third_and_fourth_segments_pass_unmasked() {
    let segments: [u16; 8] = [0, 0, 0xBEEF, 0xCAFE, 0, 0, 0, 0];
    let masked = xor_ipv6_address(&segments, &[0xFF; 12]);
    assert_eq!(&masked[4..8], &[0xBE, 0xEF, 0xCA, 0xFE]);
}

#[test]
fn ipv6_last_four_token_bytes_are_not_used() {
    let segments: [u16; 8] = [1, 2, 3, 4, 5, 6, 7, 8];
    let mut other = TOKEN;
    other[8] = 0xF0;
    other[9] = 0xF1;
    other[10] = 0xF2;
    other[11] = 0xF3;
    assert_eq!(xor_ipv6_address(&segments, &TOKEN), xor_ipv6_address(&segments, &other));
    other[7] ^= 0x80;
    assert_ne!(xor_ipv6_address(&segments, &TOKEN), xor_ipv6_address(&segments, &other));
}

#[test]
fn xor_ipv6_address_of_zero_shows_the_masks() {
    let masked = xor_ipv6_address(&[0; 8], &TOKEN);
    assert_eq!(masked, [0xA4, 0x42, 0x21, 0x12, 0, 0, 0, 0, 1, 2, 3, 4, 5, 6, 7, 8]);
}

#[test]
fn xor_ipv6_address_masks_each_segment() {
    let segments: [u16; 8] = [0xFFFF; 8];
    let masked = xor_ipv6_address(&segments, &TOKEN);
    assert_eq!(
        masked,
        [
            0x5B, 0xBD, 0xDE, 0xED, 0xFF, 0xFF, 0xFF, 0xFF, 0xFE, 0xFD, 0xFC, 0xFB, 0xFA, 0xF9,
            0xF8, 0xF7
        ]
    );
}

#[test]
fn masking_is_deterministic() {
    let peer = PeerAddress::V6 { segments: [9, 8, 7, 6, 5, 4, 3, 2], port: 1 };
    let first = create_xor_mapped_address(&peer, &TOKEN);
    let second = create_xor_mapped_address(&peer, &TOKEN);
    assert_eq!(first, second);
}

#[test]
fn masking_twice_gives_back_an_ipv4_address() {
    let peer = PeerAddress::V4 { octets: [203, 0, 113, 5], port: 4242 };
    let once = create_xor_mapped_address(&peer, &TOKEN);
    let masked = address_of_payload(&once.value);
    assert_ne!(masked, peer);
    let twice = create_xor_mapped_address(&masked, &TOKEN);
    assert_eq!(twice.value, plain_payload(&peer));
    assert_eq!(address_of_payload(&twice.value), peer);
}

#[test]
fn masking_twice_gives_back_an_ipv6_address() {
    let peer = PeerAddress::V6 {
        segments: [0x2001, 0x0db8, 0x85a3, 0x0042, 0x1000, 0x8a2e, 0x0370, 0x7334],
        port: 65535,
    };
    let once = create_xor_mapped_address(&peer, &TOKEN);
    let masked = address_of_payload(&once.value);
    assert_ne!(masked, peer);
    let twice = create_xor_mapped_address(&masked, &TOKEN);
    assert_eq!(twice.value, plain_payload(&peer));
    assert_eq!(address_of_payload(&twice.value), peer);
}

#[test]
fn masking_twice_with_another_token_does_not_give_back_an_ipv6_address() {
    let peer = PeerAddress::V6 { segments: [1, 2, 3, 4, 5, 6, 7, 8], port: 80 };
    let once = create_xor_mapped_address(&peer, &TOKEN);
    let twice = create_xor_mapped_address(&address_of_payload(&once.value), &ZERO_TOKEN);
    assert_ne!(address_of_payload(&twice.value), peer);
}

#[test]
fn attribute_length_is_the_number_of_value_bytes() {
    let v4 = create_xor_mapped_address(&PeerAddress::V4 { octets: [10, 0, 0, 1], port: 9 }, &TOKEN);
    assert_eq!(usize::from(v4.length), v4.value.len());
    let v6 = create_xor_mapped_address(&PeerAddress::V6 { segments: [0; 8], port: 9 }, &TOKEN);
    assert_eq!(usize::from(v6.length), v6.value.len());
    assert_eq!(v4.encode().len(), 12);
    assert_eq!(v6.encode().len(), 24);
}
