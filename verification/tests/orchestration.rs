use sha1::{Digest, Sha1};

use bittorrent::assign::assign_pieces;
use bittorrent::error::Error;
use bittorrent::messages::{decode_message, expect_unchoke, Message};
use bittorrent::metadata::Metadata;
use bittorrent::piece::combine_blocks_into_piece;
use bittorrent::pipeline::{BlockPipeline, PIPELINE_DEPTH};

fn sha1_of(data: &[u8]) -> Vec<u8> {
    Sha1::digest(data).to_vec()
}

fn piece_message(piece_index: u32, begin: u32, data: &[u8]) -> Message {
    let mut payload = Vec::new();
    payload.extend_from_slice(&piece_index.to_be_bytes());
    payload.extend_from_slice(&begin.to_be_bytes());
    payload.extend_from_slice(data);
    Message {
        length: payload.len() as u32 + 1,
        id: 7,
        payload,
    }
}

#[test]
fn round_robin_assignment() {
    let bitfields = vec![vec![true; 4], vec![true; 4]];
    let a = assign_pieces(&bitfields, 4).expect("all pieces available");
    assert_eq!(a, vec![vec![0, 2], vec![1, 3]]);
}

#[test]
fn assignment_falls_to_next_peer_that_has_the_piece() {
    // Piece 1's home peer (1) lacks it; peer 0 has it.
    let bitfields = vec![vec![true, true, true], vec![true, false, true]];
    let a = assign_pieces(&bitfields, 3).expect("all pieces available");
    assert_eq!(a, vec![vec![0, 1, 2], vec![]]);
}

#[test]
fn single_peer_missing_piece_is_unavailable() {
    // A single usable peer whose bitfield does not include the only piece.
    let bitfields = vec![vec![false]];
    assert_eq!(assign_pieces(&bitfields, 1), Err(Error::PieceUnavailable));
}

#[test]
fn piece_nobody_has_fails_the_job() {
    let bitfields = vec![vec![true, false], vec![true, false], vec![true, false]];
    assert_eq!(assign_pieces(&bitfields, 2), Err(Error::PieceUnavailable));
}

#[test]
fn short_bitfield_counts_as_unavailable() {
    let bitfields = vec![vec![true]];
    assert_eq!(assign_pieces(&bitfields, 2), Err(Error::PieceUnavailable));
}

#[test]
fn unchoke_is_mandatory() {
    let unchoke = Message {
        length: 1,
        id: 1,
        payload: Vec::new(),
    };
    assert_eq!(expect_unchoke(&unchoke), Ok(()));
    let other = Message {
        length: 1,
        id: 4,
        payload: Vec::new(),
    };
    assert_eq!(expect_unchoke(&other), Err(Error::Protocol));
}

#[test]
fn single_peer_two_pieces_rebuilds_the_file() {
    // One peer, piece_length 4, total_length 7: piece 0 holds 4 bytes,
    // piece 1 holds 3, and the rebuilt output is exactly the source.
    let content = b"abcdefg";
    let piece_bytes: [&[u8]; 2] = [&content[0..4], &content[4..7]];
    let mut fingerprints = Vec::new();
    for p in piece_bytes {
        fingerprints.extend_from_slice(&sha1_of(p));
    }
    let m = Metadata::from_parts(vec![1u8; 20], 4, 7, fingerprints).expect("valid metadata");
    assert_eq!(m.piece_count(), 2);

    let bitfields = vec![vec![true, true]];
    let assignments = assign_pieces(&bitfields, m.piece_count()).expect("peer has both");
    assert_eq!(assignments, vec![vec![0, 1]]);

    let mut output = vec![0u8; m.total_length as usize];
    for &piece_index in &assignments[0] {
        let piece_len = m.piece_len(piece_index as usize);
        let mut pipeline = BlockPipeline::new(piece_index, piece_len);
        // The peer answers each request with the matching block.
        let mut in_flight = Vec::new();
        for _ in 0..PIPELINE_DEPTH {
            if let Some(frame) = pipeline.next_to_send() {
                in_flight.push(frame);
            }
        }
        while !pipeline.done() {
            let request = decode_message(&in_flight.remove(0)).expect("request frames decode");
            let begin = u32::from_be_bytes(request.payload[4..8].try_into().unwrap());
            let len = u32::from_be_bytes(request.payload[8..12].try_into().unwrap());
            let offset = m.piece_offset(piece_index as usize) as usize + begin as usize;
            let reply = piece_message(
                piece_index,
                begin,
                &content[offset..offset + len as usize],
            );
            assert_eq!(pipeline.on_message(&reply), Ok(true));
            if let Some(frame) = pipeline.next_to_send() {
                in_flight.push(frame);
            }
        }
        let hash = &m.piece_hashes[piece_index as usize];
        let piece = combine_blocks_into_piece(&pipeline.into_blocks(), piece_len, piece_index, hash)
            .expect("piece verifies");
        let at = m.piece_offset(piece_index as usize) as usize;
        output[at..at + piece.len()].copy_from_slice(&piece);
    }
    assert_eq!(output.len(), 7);
    assert_eq!(&output, content);
}
