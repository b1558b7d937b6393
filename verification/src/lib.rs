//! A verified binary codec for the Tor wire format.
//!
//! Values are encoded to, and recovered from, the exact big-endian byte
//! layout that the protocol mandates.  Every encoder and decoder carries a
//! contract that pins the byte image down precisely, and the round-trip and
//! byte-exactness laws are proved once, at the codec trait itself.

use vstd::prelude::*;

pub mod addr;
pub mod bytes;
pub mod codec;
pub mod laws;
pub mod lists;
pub mod text;
pub mod time;
pub mod wire;

pub use addr::{Ipv4Address, Ipv6Address, WireIpAddress};
pub use bytes::{ByteSink, ByteSource};
pub use codec::TorSerde;
pub use lists::{NLengthVector, VersionsVector};
pub use text::WireString;
pub use time::WireTimestamp;

verus! {

/// The error taxonomy of the codec layer.
///
/// Decoding either fully succeeds or fails atomically with exactly one of
/// these kinds; no partially decoded value is ever exposed.  The kinds that
/// this crate's decoders themselves produce are `EndOfInput`,
/// `BadDiscriminant`, `MismatchedLength`, `InvalidUtf8` and `LengthOverflow`;
/// the remaining kinds belong to the taxonomy that the enclosing cell layer
/// reports through the same type.
#[derive(Debug, Clone, PartialEq, Eq)]
pub enum ErrorKind {
    /// A bad discriminant was found when deserialising a tagged union.
    /// Holds the value of the discriminant.
    BadDiscriminant(u128),
    /// A cell has been discarded upstream because of a bad discriminant.
    /// Holds the value of the bad discriminant.
    DiscardedCell(u128),
    /// A predicted digest does not match the actual one.
    /// Holds the predicted and the actual digest.
    BadDigest(u32, u32),
    /// A serialised relay cell does not have the required length.  Holds the
    /// length of the entire serialised relay cell, then the lengths of the
    /// command, recognised, stream id, digest, data and padding parts.
    InvalidRelayLength(u32, u32, u32, u32, u32, u32, u32),
    /// Fewer bytes of padding were present than required.
    /// Holds the number of bytes expected and the number read.
    NotEnoughPadding(usize, usize),
    /// A structural length field disagrees with the structure it frames.
    /// Holds the declared length and the length required by the structure.
    MismatchedLength(u32, u32),
    /// Decoded text was not valid UTF-8.
    InvalidUtf8,
    /// The source ran out of bytes before the value was complete.
    EndOfInput,
    /// A value is too large for the length field that must describe it.
    LengthOverflow,
}

} // verus!
