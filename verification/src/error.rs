use vstd::prelude::*;

verus! {

/// Everything that can go wrong while exchanging pieces with a swarm.
///
/// A `Connection` failure only excludes one peer; every other variant is
/// fatal to the whole job, since the job succeeds only when every peer task
/// succeeds.
#[derive(Clone, Copy, Debug, PartialEq, Eq, Structural)]
pub enum Error {
    /// A peer could not be reached.
    Connection,
    /// A malformed frame or handshake, or a mandatory message id was not the
    /// one received.
    Protocol,
    /// No usable peer advertises a needed piece.
    PieceUnavailable,
    /// A reconstructed piece does not match its published fingerprint.
    HashMismatch,
    /// The output file could not be written.
    Io,
}

impl Error {
    /// A short human-readable name for the error.
    pub fn describe(&self) -> (r: &'static str)
        ensures
            r@ == match self {
                Error::Connection => "connection failed"@,
                Error::Protocol => "protocol error"@,
                Error::PieceUnavailable => "no peer has a needed piece"@,
                Error::HashMismatch => "piece hash mismatch"@,
                Error::Io => "output write failed"@,
            },
    {
        match self {
            Error::Connection => "connection failed",
            Error::Protocol => "protocol error",
            Error::PieceUnavailable => "no peer has a needed piece",
            Error::HashMismatch => "piece hash mismatch",
            Error::Io => "output write failed",
        }
    }
}

} // verus!
