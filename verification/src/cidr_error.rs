//! Failures of network block construction.

use vstd::prelude::*;
use vstd::string::*;

verus! {

/// Why a network block could not be built.
#[derive(Debug, Clone, Copy, PartialEq, Eq, Structural)]
pub enum CidrError {
    /// The address is not the network address under the mask.
    InvalidAddressOrMask,
}

/// The rendering of each failure.
pub open spec fn spec_cidr_error_text(e: CidrError) -> Seq<char> {
    match e {
        CidrError::InvalidAddressOrMask => "CidrError::InvalidAddressOrMask"@,
    }
}

impl CidrError {
    /// The textual name of the failure.
    pub fn format(&self) -> (r: String)
        ensures
            r@ == spec_cidr_error_text(*self),
    {
        match self {
            CidrError::InvalidAddressOrMask => String::from_str("CidrError::InvalidAddressOrMask"),
        }
    }
}

} // verus!
