//! A small IPv4 addressing toolkit: 32-bit addresses with dotted-decimal
//! text and byte conversions, CIDR subnet masks, validated network blocks
//! and explicit inclusive address ranges.

pub mod text;

pub mod cidr;
pub mod cidr_error;
pub mod ipv4;
pub mod ipv4_error;
pub mod ipv4_mask;
pub mod ipv4_mask_error;
pub mod ipv4_network_range;
