use bittorrent::digest::{hex_encode, sha1_digest};
use bittorrent::metadata::Metadata;
use bittorrent::peers::{urlencode, DiscoverPeersQuery, DiscoverPeersResponse};
use bittorrent::text::decimal_string;

#[test]
fn decimal_strings_are_exact() {
    assert_eq!(decimal_string(0), "0");
    assert_eq!(decimal_string(7), "7");
    assert_eq!(decimal_string(10), "10");
    assert_eq!(decimal_string(255), "255");
    assert_eq!(decimal_string(65535), "65535");
    assert_eq!(decimal_string(u32::MAX), "4294967295");
}

#[test]
fn hex_encoding_is_lowercase_pairs() {
    assert_eq!(hex_encode(&vec![0xab, 0xcd, 0x01]), "abcd01");
    assert_eq!(hex_encode(&Vec::new()), "");
}

#[test]
fn sha1_digest_matches_known_vector() {
    // The digest of "abc" is a published SHA-1 test vector; this fails if
    // the digest wrapper handed its input back or hashed something else.
    let d = sha1_digest(&b"abc".to_vec());
    assert_eq!(hex_encode(&d), "a9993e364706816aba3e25717850c26c9cd0d89d");
}

#[test]
fn info_hash_is_the_digest_of_the_info_bytes() {
    let d = bittorrent::metadata::info_hash_of(&b"abc".to_vec());
    assert_eq!(d.len(), 20);
    assert_eq!(hex_encode(&d), "a9993e364706816aba3e25717850c26c9cd0d89d");
}

#[test]
fn metadata_hex_views() {
    let mut pieces = vec![0u8; 20];
    pieces.extend_from_slice(&[0xffu8; 20]);
    let m = Metadata::from_parts(vec![0xab; 20], 4, 7, pieces).expect("valid metadata");
    assert_eq!(m.get_hex_hash(), "ab".repeat(20));
    let hashes = m.get_piece_hashes();
    assert_eq!(hashes.len(), 2);
    assert_eq!(hashes[0], "00".repeat(20));
    assert_eq!(hashes[1], "ff".repeat(20));
}

#[test]
fn urlencode_percent_encodes_every_byte() {
    let mut hash = [0u8; 20];
    for (i, b) in hash.iter_mut().enumerate() {
        *b = i as u8;
    }
    assert_eq!(
        urlencode(&hash),
        "%00%01%02%03%04%05%06%07%08%09%0a%0b%0c%0d%0e%0f%10%11%12%13"
    );
    let all_ff = [0xffu8; 20];
    assert_eq!(urlencode(&all_ff), "%ff".repeat(20));
}

#[test]
fn discover_query_holds_its_fields() {
    let q = DiscoverPeersQuery::new(
        "21372137696921372137".to_string(),
        6881,
        0,
        0,
        7,
        1,
        [0xab; 20],
    );
    assert_eq!(q.peer_id, "21372137696921372137");
    assert_eq!(q.port, 6881);
    assert_eq!(q.uploaded, 0);
    assert_eq!(q.downloaded, 0);
    assert_eq!(q.left, 7);
    assert_eq!(q.compact, 1);
    assert_eq!(q.info_hash, "%ab".repeat(20));
}

#[test]
fn compact_peers_decode_to_address_port() {
    let response = DiscoverPeersResponse {
        complete: 1,
        incomplete: 0,
        interval: 60,
        min_interval: 30,
        peers: vec![127, 0, 0, 1, 0x1f, 0x90, 10, 0, 0, 255, 0, 80],
    };
    assert_eq!(
        response.get_peers(),
        vec!["127.0.0.1:8080".to_string(), "10.0.0.255:80".to_string()]
    );
}

#[test]
fn trailing_partial_peer_group_is_ignored() {
    let response = DiscoverPeersResponse {
        complete: 0,
        incomplete: 0,
        interval: 0,
        min_interval: 0,
        peers: vec![1, 2, 3, 4, 0x1a, 0xe1, 9, 9],
    };
    let peers = response.get_peers();
    assert_eq!(peers.len(), 1);
    assert_eq!(peers[0], "1.2.3.4:6881");
}
