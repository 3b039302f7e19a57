use bittorrent::bytes::{bytes_to_u32, u32_slice_to_bytes};
use bittorrent::error::Error;
use bittorrent::messages::{decode_message, encode_message, interested_message, Message};

#[test]
fn bytes_to_u32_reads_big_endian() {
    assert_eq!(bytes_to_u32(&[1, 2, 3, 4]), 0x01020304);
    assert_eq!(bytes_to_u32(&[0, 0, 0, 0]), 0);
    assert_eq!(bytes_to_u32(&[0xff, 0xff, 0xff, 0xff]), u32::MAX);
    assert_eq!(bytes_to_u32(&[0, 0, 0x40, 0, 99]), 16384);
}

#[test]
fn u32_slice_to_bytes_writes_big_endian() {
    assert_eq!(u32_slice_to_bytes(&[0x01020304]), vec![1, 2, 3, 4]);
    assert_eq!(
        u32_slice_to_bytes(&[13, 16384]),
        vec![0, 0, 0, 13, 0, 0, 0x40, 0]
    );
    assert_eq!(u32_slice_to_bytes(&[]), Vec::<u8>::new());
}

#[test]
fn u32_round_trip() {
    for n in [0u32, 1, 255, 256, 16384, 0xdeadbeef, u32::MAX] {
        let bytes = u32_slice_to_bytes(&[n]);
        assert_eq!(bytes_to_u32(&bytes), n);
    }
}

#[test]
fn interested_message_is_five_bytes() {
    assert_eq!(interested_message(), vec![0, 0, 0, 1, 2]);
}

#[test]
fn encode_prefixes_length_and_id() {
    let m = Message {
        length: 4,
        id: 7,
        payload: vec![0xaa, 0xbb, 0xcc],
    };
    assert_eq!(encode_message(&m), vec![0, 0, 0, 4, 7, 0xaa, 0xbb, 0xcc]);
}

#[test]
fn decode_reads_back_encoded_request() {
    let payload = u32_slice_to_bytes(&[3, 16384, 9000]);
    let m = Message {
        length: 13,
        id: 6,
        payload: payload.clone(),
    };
    let frame = encode_message(&m);
    let back = decode_message(&frame).expect("frame must decode");
    assert_eq!(back.length, 13);
    assert_eq!(back.id, 6);
    assert_eq!(back.payload, payload);
}

#[test]
fn decode_reads_back_encoded_piece() {
    let mut payload = u32_slice_to_bytes(&[0, 0]);
    payload.extend_from_slice(b"block bytes");
    let m = Message {
        length: payload.len() as u32 + 1,
        id: 7,
        payload: payload.clone(),
    };
    let back = decode_message(&encode_message(&m)).expect("frame must decode");
    assert_eq!(back.id, 7);
    assert_eq!(back.payload, payload);
}

#[test]
fn decode_reads_back_encoded_interested() {
    let back = decode_message(&interested_message()).expect("frame must decode");
    assert_eq!(back.length, 1);
    assert_eq!(back.id, 2);
    assert!(back.payload.is_empty());
}

#[test]
fn decode_rejects_short_buffer() {
    assert_eq!(decode_message(&vec![0, 0]), Err(Error::Protocol));
    assert_eq!(decode_message(&Vec::new()), Err(Error::Protocol));
}

#[test]
fn decode_rejects_length_mismatch() {
    // The length field announces three payload bytes but only two follow.
    let frame = vec![0, 0, 0, 4, 7, 0xaa, 0xbb];
    assert_eq!(decode_message(&frame), Err(Error::Protocol));
    // The buffer holds one byte more than the length field announces.
    let frame = vec![0, 0, 0, 2, 7, 0xaa, 0xbb];
    assert_eq!(decode_message(&frame), Err(Error::Protocol));
}

#[test]
fn decode_zero_length_frame_takes_next_byte_as_id() {
    let frame = vec![0, 0, 0, 0, 9];
    let m = decode_message(&frame).expect("five bytes decode");
    assert_eq!(m.length, 0);
    assert_eq!(m.id, 9);
    assert!(m.payload.is_empty());
}

#[test]
fn error_descriptions_name_the_failure() {
    assert_eq!(Error::Protocol.describe(), "protocol error");
    assert_eq!(Error::HashMismatch.describe(), "piece hash mismatch");
    assert_eq!(Error::PieceUnavailable.describe(), "no peer has a needed piece");
    assert_eq!(Error::Connection.describe(), "connection failed");
    assert_eq!(Error::Io.describe(), "output write failed");
}
