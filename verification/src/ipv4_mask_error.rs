//! Failures of subnet mask construction.

use vstd::prelude::*;
use vstd::string::*;

verus! {

/// Why a subnet mask could not be built.
#[derive(Debug, Clone, Copy, PartialEq, Eq, Structural)]
pub enum IPv4MaskError {
    /// A prefix length outside `1..=32`.
    CidrOutOfRange,
    /// Text that is not a prefix-length rendering.
    FormatError,
    /// A bit pattern that is not a contiguous run of leading ones.
    InvalidSubnetMask,
}

/// The rendering of each failure.
pub open spec fn spec_mask_error_text(e: IPv4MaskError) -> Seq<char> {
    match e {
        IPv4MaskError::CidrOutOfRange => "IPv4MaskError::CidrOutOfRange"@,
        IPv4MaskError::FormatError => "IPv4MaskError::FormatError"@,
        IPv4MaskError::InvalidSubnetMask => "IPv4MaskError::InvalidSubnetMask"@,
    }
}

impl IPv4MaskError {
    /// The textual name of the failure.
    pub fn format(&self) -> (r: String)
        ensures
            r@ == spec_mask_error_text(*self),
    {
        match self {
            IPv4MaskError::CidrOutOfRange => String::from_str("IPv4MaskError::CidrOutOfRange"),
            IPv4MaskError::FormatError => String::from_str("IPv4MaskError::FormatError"),
            IPv4MaskError::InvalidSubnetMask => String::from_str(
                "IPv4MaskError::InvalidSubnetMask",
            ),
        }
    }
}

} // verus!
