//! Wire-protocol codecs: a DNS message codec and iterative-resolver
//! core over a fixed 512-byte packet buffer, and the byte-level
//! encoders of a TLS 1.3 ClientHello.

pub mod dns;
pub mod tls;
