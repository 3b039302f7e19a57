use bittorrent::error::Error;
use bittorrent::messages::decode_message;
use bittorrent::metadata::Metadata;
use bittorrent::pipeline::get_piece_blocks_messages;

fn metadata(piece_length: u32, total_length: u32, piece_count: usize) -> Metadata {
    Metadata::from_parts(
        vec![0u8; 20],
        piece_length,
        total_length,
        vec![0u8; 20 * piece_count],
    )
    .expect("valid metadata")
}

#[test]
fn piece_count_rounds_up() {
    assert_eq!(metadata(4, 7, 2).piece_count(), 2);
    assert_eq!(metadata(4, 8, 2).piece_count(), 2);
    assert_eq!(metadata(4, 9, 3).piece_count(), 3);
    assert_eq!(metadata(16384, 16384, 1).piece_count(), 1);
    assert_eq!(metadata(262144, 1, 1).piece_count(), 1);
}

#[test]
fn last_piece_gets_the_remainder() {
    let m = metadata(4, 7, 2);
    assert_eq!(m.piece_len(0), 4);
    assert_eq!(m.piece_len(1), 3);
    let even = metadata(4, 8, 2);
    assert_eq!(even.piece_len(0), 4);
    assert_eq!(even.piece_len(1), 4);
    let single = metadata(262144, 100, 1);
    assert_eq!(single.piece_len(0), 100);
}

#[test]
fn piece_offsets_are_multiples_of_piece_length() {
    let m = metadata(4, 9, 3);
    assert_eq!(m.piece_offset(0), 0);
    assert_eq!(m.piece_offset(1), 4);
    assert_eq!(m.piece_offset(2), 8);
}

#[test]
fn from_parts_rejects_bad_fields() {
    // One fingerprint too few for two pieces.
    assert_eq!(
        Metadata::from_parts(vec![0u8; 20], 4, 7, vec![0u8; 20]),
        Err(Error::Protocol)
    );
    // A fingerprint string that is not a multiple of 20 bytes.
    assert_eq!(
        Metadata::from_parts(vec![0u8; 20], 4, 7, vec![0u8; 41]),
        Err(Error::Protocol)
    );
    // A zero piece length, a zero total length, a short info hash.
    assert_eq!(
        Metadata::from_parts(vec![0u8; 20], 0, 7, vec![0u8; 40]),
        Err(Error::Protocol)
    );
    assert_eq!(
        Metadata::from_parts(vec![0u8; 20], 4, 0, Vec::new()),
        Err(Error::Protocol)
    );
    assert_eq!(
        Metadata::from_parts(vec![0u8; 19], 4, 7, vec![0u8; 40]),
        Err(Error::Protocol)
    );
}

#[test]
fn from_parts_splits_fingerprints() {
    let mut pieces = Vec::new();
    for b in 0..40u8 {
        pieces.push(b);
    }
    let m = Metadata::from_parts(vec![9u8; 20], 4, 7, pieces).expect("valid metadata");
    assert_eq!(m.piece_hashes.len(), 2);
    assert_eq!(m.piece_hashes[0], (0..20u8).collect::<Vec<u8>>());
    assert_eq!(m.piece_hashes[1], (20..40u8).collect::<Vec<u8>>());
}

#[test]
fn request_count_rounds_up() {
    assert_eq!(get_piece_blocks_messages(0, 1).len(), 1);
    assert_eq!(get_piece_blocks_messages(0, 16384).len(), 1);
    assert_eq!(get_piece_blocks_messages(0, 16385).len(), 2);
    assert_eq!(get_piece_blocks_messages(0, 40000).len(), 3);
    assert_eq!(get_piece_blocks_messages(0, 3 * 16384).len(), 3);
}

#[test]
fn request_lengths_follow_the_remainder_rule() {
    // 40000 = 2 * 16384 + 7232: two full blocks and a 7232-byte tail.
    let frames = get_piece_blocks_messages(5, 40000);
    let expected = [
        (0u32, 16384u32),
        (16384, 16384),
        (32768, 7232),
    ];
    assert_eq!(frames.len(), expected.len());
    for (frame, (begin, len)) in frames.iter().zip(expected.iter()) {
        let m = decode_message(frame).expect("request frames are well formed");
        assert_eq!(m.length, 13);
        assert_eq!(m.id, 6);
        assert_eq!(m.payload.len(), 12);
        assert_eq!(&m.payload[0..4], &[0, 0, 0, 5]);
        assert_eq!(&m.payload[4..8], begin.to_be_bytes());
        assert_eq!(&m.payload[8..12], len.to_be_bytes());
    }
    // An exact multiple of the block size ends with a full-sized block.
    let frames = get_piece_blocks_messages(0, 2 * 16384);
    let last = decode_message(&frames[1]).expect("request frames are well formed");
    assert_eq!(&last.payload[8..12], 16384u32.to_be_bytes());
}

#[test]
fn request_frame_bytes_are_exact() {
    let frames = get_piece_blocks_messages(1, 16384);
    assert_eq!(
        frames[0],
        vec![0, 0, 0, 13, 6, 0, 0, 0, 1, 0, 0, 0, 0, 0, 0, 0x40, 0]
    );
}
