use vstd::prelude::*;

verus! {

/// Length in bytes of an Ed448 key, private or public.
pub const KEY_LENGTH: usize = 57;

/// Length in bytes of an Ed448 signature.
pub const SIG_LENGTH: usize = 114;

/// Frames whose payload length reaches this bound are refused.
pub const MAXMSGLEN: usize = 125002;

/// Length in bytes of the handshake challenge.
pub const CHALLENGE_LENGTH: usize = 16;

/// Length in bytes of the big-endian length header of a frame.
pub const HEADER_LENGTH: usize = 8;

/// Port that every peer's hidden service exposes.
pub const REMOTE_PORT: u16 = 4545;

} // verus!
