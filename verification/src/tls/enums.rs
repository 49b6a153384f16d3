//! Protocol enums used while building a ClientHello.

use vstd::prelude::*;

verus! {

/// The kind of a handshake-layer message.
#[derive(Copy, Clone, Debug)]
pub enum HandshakeType {
    HelloRequest,
    ClientHello,
    ServerHello,
    HelloVerifyRequest,
    NewSessionTicket,
    EndOfEarlyData,
    CertificateStatus,
    /// Any other kind, carrying its raw wire value.
    Unsupported(u8),
}

impl HandshakeType {
    /// The wire value of this kind.
    pub open spec fn spec_to_num(self) -> u8 {
        match self {
            HandshakeType::HelloRequest => 0x00,
            HandshakeType::ClientHello => 0x01,
            HandshakeType::ServerHello => 0x02,
            HandshakeType::HelloVerifyRequest => 0x03,
            HandshakeType::NewSessionTicket => 0x04,
            HandshakeType::EndOfEarlyData => 0x05,
            HandshakeType::CertificateStatus => 0x16,
            HandshakeType::Unsupported(x) => x,
        }
    }

    pub fn to_num(self) -> (r: u8)
        ensures
            r == self.spec_to_num(),
    {
        match self {
            HandshakeType::HelloRequest => 0x00,
            HandshakeType::ClientHello => 0x01,
            HandshakeType::ServerHello => 0x02,
            HandshakeType::HelloVerifyRequest => 0x03,
            HandshakeType::NewSessionTicket => 0x04,
            HandshakeType::EndOfEarlyData => 0x05,
            HandshakeType::CertificateStatus => 0x16,
            HandshakeType::Unsupported(x) => x,
        }
    }
}

/// A protocol version as negotiated on the wire. The handshake starts
/// with the 1.0 value for backward compatibility; the real version is
/// negotiated later.
#[derive(Copy, Clone, Debug)]
pub enum ProtocolVersion {
    TLSv1_0,
    TLSv1_1,
    TLSv1_2,
    TLSv1_3,
    /// Any other version, carrying its raw wire value.
    Unsupported(u16),
}

impl ProtocolVersion {
    /// The wire value: SSL ended at 3.0, so TLS 1.0 is recorded as
    /// 3.1 and so on upward.
    pub open spec fn spec_to_num(self) -> u16 {
        match self {
            ProtocolVersion::TLSv1_0 => 0x0301,
            ProtocolVersion::TLSv1_1 => 0x0302,
            ProtocolVersion::TLSv1_2 => 0x0303,
            ProtocolVersion::TLSv1_3 => 0x0304,
            ProtocolVersion::Unsupported(x) => x,
        }
    }

    pub fn to_num(self) -> (r: u16)
        ensures
            r == self.spec_to_num(),
    {
        match self {
            ProtocolVersion::TLSv1_0 => 0x0301,
            ProtocolVersion::TLSv1_1 => 0x0302,
            ProtocolVersion::TLSv1_2 => 0x0303,
            ProtocolVersion::TLSv1_3 => 0x0304,
            ProtocolVersion::Unsupported(x) => x,
        }
    }
}

/// A cipher suite offered in the hello.
#[allow(non_camel_case_types)]
#[derive(Copy, Clone, Debug)]
pub enum CipherSuite {
    TLS_AES_256_GCM_SHA384,
    TLS_CHACHA20_POLY1305_SHA256,
    TLS_AES_128_GCM_SHA256,
    TLS_EMPTY_RENEGOTIATION_INFO_SCSV,
    /// Any other suite, carrying its raw wire value.
    Unsupported(u16),
}

impl CipherSuite {
    /// The wire value of this suite.
    pub open spec fn spec_to_num(self) -> u16 {
        match self {
            CipherSuite::TLS_AES_256_GCM_SHA384 => 0x1302,
            CipherSuite::TLS_CHACHA20_POLY1305_SHA256 => 0x1303,
            CipherSuite::TLS_AES_128_GCM_SHA256 => 0x1301,
            CipherSuite::TLS_EMPTY_RENEGOTIATION_INFO_SCSV => 0x00ff,
            CipherSuite::Unsupported(x) => x,
        }
    }

    pub fn to_num(self) -> (r: u16)
        ensures
            r == self.spec_to_num(),
    {
        match self {
            CipherSuite::TLS_AES_256_GCM_SHA384 => 0x1302,
            CipherSuite::TLS_CHACHA20_POLY1305_SHA256 => 0x1303,
            CipherSuite::TLS_AES_128_GCM_SHA256 => 0x1301,
            CipherSuite::TLS_EMPTY_RENEGOTIATION_INFO_SCSV => 0x00ff,
            CipherSuite::Unsupported(x) => x,
        }
    }
}

} // verus!
