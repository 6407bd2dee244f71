//! An explicit inclusive range of addresses, with a membership test.

use vstd::prelude::*;
use vstd::string::*;

use crate::ipv4::{ipv4_text, IPv4};

verus! {

/// The rendering of a range: its two bounds, joined by a spaced dash.
pub open spec fn range_text(b: u32, e: u32) -> Seq<char> {
    ipv4_text(b) + seq![' ', '-', ' '] + ipv4_text(e)
}

/// An inclusive `[begin, end]` pair of addresses, with `begin` never
/// above `end`.
#[derive(Debug, Eq, PartialEq, Structural)]
pub struct IPv4NetworkRange {
    begin: IPv4,
    end: IPv4,
}

impl IPv4NetworkRange {
    #[verifier::type_invariant]
    spec fn wf(self) -> bool {
        self.begin@ <= self.end@
    }

    /// The first address of the range.
    pub closed spec fn spec_begin(&self) -> u32 {
        self.begin@
    }

    /// The last address of the range.
    pub closed spec fn spec_end(&self) -> u32 {
        self.end@
    }

    /// The range from `begin` to `end` inclusive. Calling this with
    /// `begin` above `end` is a programming error, ruled out here rather
    /// than reported back.
    pub fn new(begin: IPv4, end: IPv4) -> (r: IPv4NetworkRange)
        requires
            begin@ <= end@,
        ensures
            r.spec_begin() == begin@,
            r.spec_end() == end@,
    {
        IPv4NetworkRange { begin, end }
    }

    /// Whether `address` lies between the bounds, inclusively.
    pub fn contain(&self, address: &IPv4) -> (r: bool)
        ensures
            r == (self.spec_begin() <= address@ <= self.spec_end()),
    {
        self.begin.to_u32() <= address.to_u32() && address.to_u32() <= self.end.to_u32()
    }

    /// The rendering of the range: both bounds in dotted decimal.
    pub fn format(&self) -> (out: String)
        ensures
            out@ == range_text(self.spec_begin(), self.spec_end()),
    {
        let mut out = self.begin.format();
        out.append(" - ");
        let tail = self.end.format();
        out.append(tail.as_str());
        proof {
            reveal_strlit(" - ");
            assert(" - "@ =~= seq![' ', '-', ' ']);
            assert(out@ =~= range_text(self.spec_begin(), self.spec_end()));
        }
        out
    }

    /// The first address of the range; it never exceeds the last.
    pub fn begin(&self) -> (r: &IPv4)
        ensures
            r@ == self.spec_begin(),
            self.spec_begin() <= self.spec_end(),
    {
        proof {
            use_type_invariant(self);
        }
        &self.begin
    }

    /// The last address of the range.
    pub fn end(&self) -> (r: &IPv4)
        ensures
            r@ == self.spec_end(),
    {
        &self.end
    }
}

} // verus!
