use bittorrent::bitfield::{bitfield_from_payload, parse_bitfield};
use bittorrent::error::Error;
use bittorrent::handshake::{construct_handshake, local_peer_id, remote_peer_id_hex};
use bittorrent::messages::Message;

#[test]
fn handshake_layout_is_exact() {
    let info_hash: Vec<u8> = (0..20u8).collect();
    let peer_id = local_peer_id();
    let h = construct_handshake(&info_hash, &peer_id);
    assert_eq!(h.len(), 68);
    assert_eq!(h[0], 19);
    assert_eq!(&h[1..20], b"BitTorrent protocol");
    assert_eq!(&h[20..28], &[0u8; 8]);
    assert_eq!(&h[28..48], info_hash.as_slice());
    assert_eq!(&h[48..68], peer_id.as_slice());
}

#[test]
fn local_peer_id_is_fixed() {
    assert_eq!(local_peer_id(), b"21372137696921372137".to_vec());
}

#[test]
fn remote_peer_id_is_hex_of_the_tail() {
    let mut response = vec![0u8; 48];
    response.extend_from_slice(&(0..20u8).collect::<Vec<u8>>());
    let hex = remote_peer_id_hex(&response).expect("68 bytes parse");
    assert_eq!(hex, "000102030405060708090a0b0c0d0e0f10111213");
}

#[test]
fn short_handshake_response_is_a_protocol_error() {
    assert_eq!(remote_peer_id_hex(&vec![0u8; 67]), Err(Error::Protocol));
    assert_eq!(remote_peer_id_hex(&vec![0u8; 69]), Err(Error::Protocol));
    assert_eq!(remote_peer_id_hex(&Vec::new()), Err(Error::Protocol));
}

#[test]
fn bitfield_bits_are_msb_first() {
    let bits = bitfield_from_payload(&vec![0b1010_0000]);
    assert_eq!(
        bits,
        vec![true, false, true, false, false, false, false, false]
    );
    let bits = bitfield_from_payload(&vec![0x01, 0x80]);
    assert_eq!(bits.len(), 16);
    assert!(!bits[0]);
    assert!(bits[7]);
    assert!(bits[8]);
    assert!(!bits[15]);
}

#[test]
fn first_message_must_be_a_bitfield() {
    let good = Message {
        length: 2,
        id: 5,
        payload: vec![0b1100_0000],
    };
    let bits = parse_bitfield(&good).expect("bitfield parses");
    assert_eq!(&bits[0..2], &[true, true]);
    let bad = Message {
        length: 1,
        id: 1,
        payload: Vec::new(),
    };
    assert_eq!(parse_bitfield(&bad), Err(Error::Protocol));
}
