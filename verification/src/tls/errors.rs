//! Error type of the TLS codecs.

use vstd::prelude::*;

verus! {

/// What went wrong while decoding or preparing handshake material.
#[derive(Clone, Debug)]
pub enum DecodeError {
    /// A key-agreement primitive failed.
    CryptoError(String),
    /// The buffer ran out or a field was malformed.
    InvalidMessage(String),
    /// A value could not be converted to the required form.
    InvalidConversion(String),
}

/// Result type of the TLS codecs.
pub type TlsResult<T = (), E = DecodeError> = Result<T, E>;

} // verus!
