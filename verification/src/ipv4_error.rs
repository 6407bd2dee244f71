//! Failures of address conversion and octet access.

use vstd::prelude::*;
use vstd::string::*;

verus! {

/// Why a value could not be turned into an address, or an octet could not
/// be read from one.
#[derive(Debug, Clone, Copy, PartialEq, Eq, Structural)]
pub enum Ipv4Error {
    /// An octet index outside `0..=3`.
    IndexOutOfRange,
    /// Text that does not split into exactly four components.
    InvalidFormat,
    /// A byte sequence whose length is not four.
    InvalidArrayLength,
    /// A component that is not an unsigned decimal integer of at most 255.
    InvalidValue,
}

/// The rendering of each failure.
pub open spec fn spec_ipv4_error_text(e: Ipv4Error) -> Seq<char> {
    match e {
        Ipv4Error::IndexOutOfRange => "IPv4Error::IndexOutOfRange"@,
        Ipv4Error::InvalidFormat => "IPv4Error::InvalidFormat"@,
        Ipv4Error::InvalidArrayLength => "IPv4Error::InvalidArrayLength"@,
        Ipv4Error::InvalidValue => "IPv4Error::InvalidValue"@,
    }
}

impl Ipv4Error {
    /// The textual name of the failure.
    pub fn format(&self) -> (r: String)
        ensures
            r@ == spec_ipv4_error_text(*self),
    {
        match self {
            Ipv4Error::IndexOutOfRange => String::from_str("IPv4Error::IndexOutOfRange"),
            Ipv4Error::InvalidFormat => String::from_str("IPv4Error::InvalidFormat"),
            Ipv4Error::InvalidArrayLength => String::from_str("IPv4Error::InvalidArrayLength"),
            Ipv4Error::InvalidValue => String::from_str("IPv4Error::InvalidValue"),
        }
    }
}

} // verus!
