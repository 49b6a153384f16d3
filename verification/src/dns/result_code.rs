//! The 4-bit DNS result-code field.

use vstd::prelude::*;

verus! {

/// Result codes carried in the low four bits of a DNS header's second
/// flag byte. Wire values that name no known code decode as `NOERROR`.
#[derive(Copy, Clone, Debug, PartialEq, Eq, Structural)]
pub enum ResultCode {
    NOERROR,
    FORMERR,
    SERVFAIL,
    NXDOMAIN,
    NOTIMP,
    REFUSED,
}

impl ResultCode {
    /// The wire value of this result code.
    pub open spec fn spec_to_num(self) -> u8 {
        match self {
            ResultCode::NOERROR => 0,
            ResultCode::FORMERR => 1,
            ResultCode::SERVFAIL => 2,
            ResultCode::NXDOMAIN => 3,
            ResultCode::NOTIMP => 4,
            ResultCode::REFUSED => 5,
        }
    }

    /// The result code a wire value decodes to: unknown values fall
    /// back to `NOERROR`.
    pub open spec fn spec_from_num(value: u8) -> ResultCode {
        match value {
            1u8 => ResultCode::FORMERR,
            2u8 => ResultCode::SERVFAIL,
            3u8 => ResultCode::NXDOMAIN,
            4u8 => ResultCode::NOTIMP,
            5u8 => ResultCode::REFUSED,
            _ => ResultCode::NOERROR,
        }
    }

    pub fn to_num(self) -> (r: u8)
        ensures
            r == self.spec_to_num(),
    {
        match self {
            ResultCode::NOERROR => 0,
            ResultCode::FORMERR => 1,
            ResultCode::SERVFAIL => 2,
            ResultCode::NXDOMAIN => 3,
            ResultCode::NOTIMP => 4,
            ResultCode::REFUSED => 5,
        }
    }

    pub fn from_num(value: u8) -> (r: ResultCode)
        ensures
            r == ResultCode::spec_from_num(value),
    {
        match value {
            1 => ResultCode::FORMERR,
            2 => ResultCode::SERVFAIL,
            3 => ResultCode::NXDOMAIN,
            4 => ResultCode::NOTIMP,
            5 => ResultCode::REFUSED,
            _ => ResultCode::NOERROR,
        }
    }

    /// Decoding a code's own wire value gives the code back.
    pub proof fn lemma_num_round_trip(self)
        ensures
            ResultCode::spec_from_num(self.spec_to_num()) == self,
    {
    }
}

} // verus!
