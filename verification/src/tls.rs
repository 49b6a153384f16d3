//! TLS 1.3 ClientHello building blocks: byte-level codecs for the
//! handshake structures, and the X25519 key agreement they ride on.

pub mod buffer;
pub mod codec;
pub mod crypto;
pub mod enums;
pub mod errors;
pub mod handshake;
pub mod record_header;
pub mod utils;
