//! A CIDR subnet mask: a prefix length in `1..=32` paired with the bit
//! pattern that has exactly that many leading ones.

use vstd::prelude::*;
use vstd::string::*;

use crate::ipv4::{lemma_spec_from, IPv4};
use crate::ipv4_mask_error::IPv4MaskError;
use crate::text::{dec_u8, octet_string};

verus! {

/// The bit pattern of a mask with prefix length `p`: the top `p` bits
/// set, the rest clear.
pub open spec fn mask_bits(p: u8) -> u32
    recommends
        1 <= p <= 32,
{
    (0xFFFF_FFFFu32 >> ((32 - p) as u32)) << ((32 - p) as u32)
}

/// The network part of an address under a mask bit pattern.
pub open spec fn spec_network(m: u32, a: u32) -> u32 {
    m & a
}

/// The broadcast address of an address under a mask bit pattern: the
/// network part with every host bit set.
pub open spec fn spec_broadcast(m: u32, a: u32) -> u32 {
    (m & a) | !m
}

/// The unique prefix length whose bit pattern is `a` exactly, if any;
/// bit patterns without one are not subnet masks.
pub open spec fn mask_from_bits(a: u32) -> Result<u8, IPv4MaskError> {
    if exists|p: u8| 1 <= p <= 32 && #[trigger] mask_bits(p) == a {
        Ok(choose|p: u8| 1 <= p <= 32 && #[trigger] mask_bits(p) == a)
    } else {
        Err(IPv4MaskError::InvalidSubnetMask)
    }
}

/// The rendering of a mask: a slash, then the prefix length in decimal.
pub open spec fn mask_text(p: u8) -> Seq<char> {
    seq!['/'] + dec_u8(p)
}

/// Distinct prefix lengths have distinct bit patterns.
pub proof fn lemma_mask_bits_injective(p1: u8, p2: u8)
    by (bit_vector)
    requires
        1 <= p1 <= 32,
        1 <= p2 <= 32,
        mask_bits(p1) == mask_bits(p2),
    ensures
        p1 == p2,
{
}

/// A shorter prefix keeps a subset of a longer prefix's bits: masking
/// one pattern with the other leaves the shorter pattern unchanged.
pub proof fn lemma_mask_monotonic(p1: u8, p2: u8)
    by (bit_vector)
    requires
        1 <= p1 <= p2 <= 32,
    ensures
        mask_bits(p1) & mask_bits(p2) == mask_bits(p1),
{
}

/// The network part never exceeds the broadcast address, and both have
/// the same network part again: masking is idempotent.
pub proof fn lemma_network_broadcast(m: u32, a: u32)
    by (bit_vector)
    ensures
        spec_network(m, a) <= spec_broadcast(m, a),
        spec_network(m, spec_network(m, a)) == spec_network(m, a),
        spec_network(m, spec_broadcast(m, a)) == spec_network(m, a),
{
}

/// Reading the prefix length back from a mask's own bit pattern gives
/// that prefix length: the two directions of the mask table agree.
pub proof fn lemma_mask_duality(p: u8)
    requires
        1 <= p <= 32,
    ensures
        mask_from_bits(mask_bits(p)) == Ok::<u8, IPv4MaskError>(p),
{
    let a = mask_bits(p);
    assert(1 <= p <= 32 && mask_bits(p) == a);
    let q = choose|q: u8| 1 <= q <= 32 && #[trigger] mask_bits(q) == a;
    lemma_mask_bits_injective(q, p);
}

/// The bit pattern of a mask with prefix length `p`.
fn prefix_bits(p: u8) -> (r: u32)
    requires
        1 <= p <= 32,
    ensures
        r == mask_bits(p),
{
    let sh: u32 = 32 - (p as u32);
    (0xFFFF_FFFFu32 >> sh) << sh
}

/// A subnet mask: its bit pattern and its prefix length, which always
/// agree. Its view is the prefix length.
#[derive(Debug, Eq, PartialEq, Copy, Clone, Structural)]
pub struct IPv4Mask(IPv4, u8);

impl View for IPv4Mask {
    type V = u8;

    closed spec fn view(&self) -> u8 {
        self.1
    }
}

impl IPv4Mask {
    #[verifier::type_invariant]
    spec fn wf(self) -> bool {
        1 <= self.1 <= 32 && self.0@ == mask_bits(self.1)
    }

    /// The mask with the given prefix length; fails outside `1..=32`.
    pub fn new(cidr: u8) -> (r: Result<IPv4Mask, IPv4MaskError>)
        ensures
            1 <= cidr <= 32 ==> r is Ok && r->Ok_0@ == cidr,
            !(1 <= cidr <= 32) ==> r == Err::<IPv4Mask, IPv4MaskError>(
                IPv4MaskError::CidrOutOfRange,
            ),
    {
        if cidr > 0 && cidr <= 32 {
            let bits = IPv4::from(prefix_bits(cidr));
            proof {
                lemma_spec_from(mask_bits(cidr));
            }
            Ok(IPv4Mask(bits, cidr))
        } else {
            Err(IPv4MaskError::CidrOutOfRange)
        }
    }

    /// The mask whose bit pattern is exactly the given address, if that
    /// pattern is a contiguous run of leading ones.
    pub fn try_from(value: &IPv4) -> (r: Result<IPv4Mask, IPv4MaskError>)
        ensures
            mask_from_bits(value@) is Ok ==> r is Ok && r->Ok_0@ == mask_from_bits(value@)->Ok_0
                && mask_bits(r->Ok_0@) == value@,
            mask_from_bits(value@) is Err ==> r == Err::<IPv4Mask, IPv4MaskError>(
                IPv4MaskError::InvalidSubnetMask,
            ),
    {
        let a = value.to_u32();
        let mut p: u8 = 1;
        while p <= 32
            invariant
                1 <= p <= 33,
                a == value@,
                forall|q: u8| 1 <= q < p ==> #[trigger] mask_bits(q) != a,
            decreases 33 - p,
        {
            if prefix_bits(p) == a {
                proof {
                    assert(1 <= p <= 32 && mask_bits(p) == a);
                    let q = choose|q: u8| 1 <= q <= 32 && #[trigger] mask_bits(q) == a;
                    lemma_mask_bits_injective(q, p);
                    lemma_spec_from(a);
                }
                let bits = IPv4::from(a);
                return Ok(IPv4Mask(bits, p));
            }
            p += 1;
        }
        Err(IPv4MaskError::InvalidSubnetMask)
    }

    /// The prefix length.
    pub fn cidr(&self) -> (r: u8)
        ensures
            r == self@,
            1 <= r <= 32,
    {
        proof {
            use_type_invariant(self);
        }
        self.1
    }

    /// The mask's bit pattern, as an address.
    pub fn mask_address(&self) -> (r: &IPv4)
        ensures
            r@ == mask_bits(self@),
    {
        proof {
            use_type_invariant(self);
        }
        &self.0
    }

    /// The network address of `ip` under this mask.
    pub fn network_address(&self, ip: &IPv4) -> (r: IPv4)
        ensures
            r@ == spec_network(mask_bits(self@), ip@),
    {
        proof {
            use_type_invariant(self);
        }
        let addr = self.0.to_u32() & ip.to_u32();
        proof {
            lemma_spec_from(addr);
        }
        IPv4::from(addr)
    }

    /// The broadcast address of `ip` under this mask.
    pub fn broadcast_address(&self, ip: &IPv4) -> (r: IPv4)
        ensures
            r@ == spec_broadcast(mask_bits(self@), ip@),
    {
        proof {
            use_type_invariant(self);
        }
        let mut addr = self.0.to_u32() & ip.to_u32();
        addr = addr | !self.0.to_u32();
        proof {
            lemma_spec_from(addr);
        }
        IPv4::from(addr)
    }

    /// The rendering of the mask: a slash, then the prefix length.
    pub fn format(&self) -> (out: String)
        ensures
            out@ == mask_text(self@),
    {
        let mut out = String::from_str("/");
        let digits = octet_string(self.1);
        out.append(digits.as_str());
        proof {
            reveal_strlit("/");
            assert("/"@ =~= seq!['/']);
            assert(out@ =~= mask_text(self@));
        }
        out
    }
}

} // verus!
