//! The five-byte record-layer header.

use vstd::prelude::*;
use crate::tls::codec::be2;
use crate::tls::enums::{HandshakeType, ProtocolVersion};

verus! {

/// Kind, version and payload size of one record-layer message.
#[derive(Copy, Clone, Debug)]
pub struct RecordHeader {
    pub kind: HandshakeType,
    pub version: ProtocolVersion,
    pub size: u16,
}

impl RecordHeader {
    /// The five wire bytes: kind, version, size, big-endian.
    pub fn to_bytes(&self) -> (r: [u8; 5])
        ensures
            r@ == seq![self.kind.spec_to_num()] + be2(self.version.spec_to_num()) + be2(
                self.size,
            ),
    {
        let version = self.version.to_num();
        let r = [
            self.kind.to_num(),
            (version / 256) as u8,
            (version % 256) as u8,
            (self.size / 256) as u8,
            (self.size % 256) as u8,
        ];
        proof {
            assert(r@ =~= seq![self.kind.spec_to_num()] + be2(self.version.spec_to_num()) + be2(
                self.size,
            ));
        }
        r
    }
}

} // verus!
