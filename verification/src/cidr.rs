//! A validated network block: an address that is exactly the network
//! address under its mask, with containment and range queries.

use vstd::prelude::*;
use vstd::string::*;

use crate::cidr_error::CidrError;
use crate::ipv4::{ipv4_text, IPv4};
use crate::ipv4_mask::{
    lemma_network_broadcast, mask_bits, mask_text, spec_broadcast, spec_network, IPv4Mask,
};
use crate::ipv4_network_range::IPv4NetworkRange;

verus! {

/// The rendering of a block: its network address, then its mask.
pub open spec fn cidr_text(a: u32, p: u8) -> Seq<char> {
    ipv4_text(a) + mask_text(p)
}

/// An address is canonical under a prefix length when masking changes
/// nothing: it has no host bits set.
pub open spec fn is_canonical(a: u32, p: u8) -> bool {
    spec_network(mask_bits(p), a) == a
}

/// A block built from a canonical address contains both ends of its
/// range: the network address and the broadcast address each mask back
/// to the block's own address, which is what `contains` tests for any
/// candidate.
pub proof fn lemma_block_contains_endpoints(p: u8, n: u32)
    requires
        is_canonical(n, p),
    ensures
        spec_network(mask_bits(p), n) == n,
        spec_network(mask_bits(p), spec_broadcast(mask_bits(p), n)) == n,
{
    lemma_network_broadcast(mask_bits(p), n);
}

/// A network block: an (address, mask) pair whose address is canonical
/// under the mask, so the pair never needs re-validation.
#[derive(Debug, Eq, PartialEq, Structural)]
pub struct Cidr(IPv4, IPv4Mask);

impl Cidr {
    #[verifier::type_invariant]
    spec fn wf(self) -> bool {
        is_canonical(self.0@, self.1@)
    }

    /// The network address of the block.
    pub closed spec fn spec_address(&self) -> u32 {
        self.0@
    }

    /// The prefix length of the block's mask.
    pub closed spec fn spec_prefix(&self) -> u8 {
        self.1@
    }

    /// The block of `address` under `subnet`; fails unless `address` is
    /// already the network address under that mask.
    pub fn new(address: IPv4, subnet: IPv4Mask) -> (r: Result<Cidr, CidrError>)
        ensures
            is_canonical(address@, subnet@) ==> r is Ok && r->Ok_0.spec_address() == address@
                && r->Ok_0.spec_prefix() == subnet@,
            !is_canonical(address@, subnet@) ==> r == Err::<Cidr, CidrError>(
                CidrError::InvalidAddressOrMask,
            ),
    {
        let tmp = subnet.network_address(&address);
        if tmp.to_u32() != address.to_u32() {
            Err(CidrError::InvalidAddressOrMask)
        } else {
            Ok(Cidr(address, subnet))
        }
    }

    /// Whether the block contains `address`: exactly when the network
    /// part of `address` under the block's mask is the block's address.
    pub fn contains(&self, address: &IPv4) -> (r: bool)
        ensures
            r == (spec_network(mask_bits(self.spec_prefix()), address@) == self.spec_address()),
    {
        let tmp = self.1.network_address(address);
        tmp.to_u32() == self.0.to_u32()
    }

    /// The inclusive range the block covers, from its network address to
    /// its broadcast address.
    pub fn network_range(&self) -> (r: IPv4NetworkRange)
        ensures
            r.spec_begin() == self.spec_address(),
            r.spec_end() == spec_broadcast(mask_bits(self.spec_prefix()), self.spec_address()),
    {
        proof {
            use_type_invariant(self);
            lemma_network_broadcast(mask_bits(self.spec_prefix()), self.spec_address());
        }
        let end = self.broadcast_address();
        IPv4NetworkRange::new(self.0, end)
    }

    /// The network address of the block.
    pub fn address(&self) -> (r: &IPv4)
        ensures
            r@ == self.spec_address(),
            is_canonical(self.spec_address(), self.spec_prefix()),
    {
        proof {
            use_type_invariant(self);
        }
        &self.0
    }

    /// The block's mask.
    pub fn subnet_mask(&self) -> (r: &IPv4Mask)
        ensures
            r@ == self.spec_prefix(),
    {
        &self.1
    }

    /// The broadcast address of the block.
    pub fn broadcast_address(&self) -> (r: IPv4)
        ensures
            r@ == spec_broadcast(mask_bits(self.spec_prefix()), self.spec_address()),
    {
        self.1.broadcast_address(&self.0)
    }

    /// The rendering of the block: network address, then mask.
    pub fn format(&self) -> (out: String)
        ensures
            out@ == cidr_text(self.spec_address(), self.spec_prefix()),
    {
        let mut out = self.0.format();
        let tail = self.1.format();
        out.append(tail.as_str());
        out
    }
}

} // verus!
