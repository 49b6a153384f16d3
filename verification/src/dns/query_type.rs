//! The 16-bit record/query type field.

use vstd::prelude::*;

verus! {

/// Record types the codec interprets. Any other wire value is carried
/// unchanged in `UNKNOWN`, so unsupported types round-trip without
/// loss.
#[derive(Copy, Clone, Debug, PartialEq, Eq, Structural)]
pub enum QueryType {
    UNKNOWN(u16),
    A,
    NS,
    CNAME,
    MX,
    AAA,
}

impl QueryType {
    /// The wire value of this query type.
    pub open spec fn spec_to_num(self) -> u16 {
        match self {
            QueryType::UNKNOWN(x) => x,
            QueryType::A => 1,
            QueryType::NS => 2,
            QueryType::CNAME => 5,
            QueryType::MX => 15,
            QueryType::AAA => 28,
        }
    }

    /// The query type a wire value decodes to.
    pub open spec fn spec_from_num(value: u16) -> QueryType {
        match value {
            1u16 => QueryType::A,
            2u16 => QueryType::NS,
            5u16 => QueryType::CNAME,
            15u16 => QueryType::MX,
            28u16 => QueryType::AAA,
            x => QueryType::UNKNOWN(x),
        }
    }

    pub fn to_num(self) -> (r: u16)
        ensures
            r == self.spec_to_num(),
    {
        match self {
            QueryType::UNKNOWN(x) => x,
            QueryType::A => 1,
            QueryType::NS => 2,
            QueryType::CNAME => 5,
            QueryType::MX => 15,
            QueryType::AAA => 28,
        }
    }

    pub fn from_num(value: u16) -> (r: QueryType)
        ensures
            r == QueryType::spec_from_num(value),
    {
        match value {
            1 => QueryType::A,
            2 => QueryType::NS,
            5 => QueryType::CNAME,
            15 => QueryType::MX,
            28 => QueryType::AAA,
            x => QueryType::UNKNOWN(x),
        }
    }

    /// Decoding a type's own wire value gives the type back, except
    /// that an `UNKNOWN` carrying a known code decodes to that code's
    /// own variant.
    pub proof fn lemma_num_round_trip(self)
        ensures
            !(self matches QueryType::UNKNOWN(x) && (x == 1 || x == 2 || x == 5 || x == 15 || x
                == 28)) ==> QueryType::spec_from_num(self.spec_to_num()) == self,
    {
    }
}

} // verus!
