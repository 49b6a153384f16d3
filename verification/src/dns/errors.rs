//! Error taxonomy of the DNS codec and resolver.

use vstd::prelude::*;

verus! {

/// Everything that can go wrong while encoding or decoding a DNS
/// message, or while resolving a name.
///
/// Codec errors are fatal to the single encode or decode attempt that
/// raised them; the service translates them into a result code rather
/// than crashing.
#[derive(Copy, Clone, Debug, PartialEq, Eq, Structural)]
pub enum DnsError {
    /// A read or write would touch a position at or past the fixed
    /// buffer capacity.
    EndOfBuffer,
    /// A compression-pointer chain exceeded the jump limit.
    TooManyJumps,
    /// A name label exceeds 63 bytes on encode.
    LabelTooLong,
    /// Declared section counts are inconsistent with the buffer, or a
    /// section length does not fit the header's 16-bit count.
    MalformedMessage,
    /// The iterative resolver exhausted its options without an
    /// authoritative or negative answer.
    ResolutionFailed,
}

} // verus!
