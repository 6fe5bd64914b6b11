//! The closed set of document kinds the converter accepts, and the policy
//! for the wire discriminator: the values 0, 1 and 2 name WORD, EXCEL and
//! PPT; any other value is rejected as a hard failure.

use vstd::prelude::*;

verus! {

/// A document kind the external converter understands.
#[derive(Clone, Copy, Debug, PartialEq, Eq, Structural)]
pub enum MSFileType {
    EXCEL,
    PPT,
    WORD,
}

/// The document kind a wire discriminator names: 0 is WORD, 1 is EXCEL,
/// 2 is PPT, anything else is no kind at all.
pub open spec fn kind_of_wire(v: u32) -> Option<MSFileType> {
    if v == 0 {
        Some(MSFileType::WORD)
    } else if v == 1 {
        Some(MSFileType::EXCEL)
    } else if v == 2 {
        Some(MSFileType::PPT)
    } else {
        None
    }
}

impl MSFileType {
    /// Resolves a wire discriminator; an unrecognized value is rejected
    /// rather than coerced to a default.
    pub fn from_wire(v: u32) -> (r: Option<MSFileType>)
        ensures
            r == kind_of_wire(v),
    {
        if v == 0 {
            Some(MSFileType::WORD)
        } else if v == 1 {
            Some(MSFileType::EXCEL)
        } else if v == 2 {
            Some(MSFileType::PPT)
        } else {
            None
        }
    }

    /// The discriminator this kind is written as on the wire.
    pub fn wire_value(&self) -> (r: u32)
        ensures
            kind_of_wire(r) == Some(*self),
    {
        match self {
            MSFileType::WORD => 0,
            MSFileType::EXCEL => 1,
            MSFileType::PPT => 2,
        }
    }

    /// The name handed to the external converter's command line.
    pub fn name(&self) -> (r: &'static str)
        ensures
            *self == MSFileType::WORD ==> r@ == "WORD"@,
            *self == MSFileType::EXCEL ==> r@ == "EXCEL"@,
            *self == MSFileType::PPT ==> r@ == "PPT"@,
    {
        match self {
            MSFileType::WORD => "WORD",
            MSFileType::EXCEL => "EXCEL",
            MSFileType::PPT => "PPT",
        }
    }
}

/// Every kind's wire value resolves back to that kind: the discriminator
/// policy is a round trip on the closed set.
pub proof fn lemma_wire_round_trip(k: MSFileType)
    ensures
        kind_of_wire(match k {
            MSFileType::WORD => 0u32,
            MSFileType::EXCEL => 1u32,
            MSFileType::PPT => 2u32,
        }) == Some(k),
{
}

} // verus!
