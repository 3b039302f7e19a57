//! A verified core for a BitTorrent-style piece-exchange engine.
//!
//! The library covers the logic of the download path: the length-prefixed
//! message codec, the 68-byte handshake, bitfield interpretation, block
//! request generation and the sliding-window request pipeline, piece
//! reassembly and fingerprint verification, round-robin piece assignment,
//! and the tracker query/response value handling. Socket and file I/O live
//! outside the library and hand it plain values.

pub mod assign;
pub mod bitfield;
pub mod bytes;
pub mod digest;
pub mod error;
pub mod handshake;
pub mod messages;
pub mod metadata;
pub mod peers;
pub mod piece;
pub mod pipeline;
pub mod text;
