//! A 32-bit IPv4 address: octet access, byte and integer conversions.

use vstd::prelude::*;
use vstd::string::*;

use crate::ipv4_error::Ipv4Error;
use crate::text::{
    dec_u8, first_dot, lemma_dec_u8, lemma_split_dots_prepend, lemma_split_dots_single,
    octet_string, octet_value, parse_octet_text, scan_component, split_dots, valid_octet_text,
};

verus! {

/// Octet `i` of an address, counting from the most significant byte.
pub open spec fn octet_of(a: u32, i: int) -> u8
    recommends
        0 <= i <= 3,
{
    ((a >> (8 * (3 - i))) & 0xFF) as u8
}

/// The address whose octets, most significant first, are the four given bytes.
pub open spec fn pack_octets(b0: u8, b1: u8, b2: u8, b3: u8) -> u32 {
    ((b0 as u32) << 24) | ((b1 as u32) << 16) | ((b2 as u32) << 8) | (b3 as u32)
}

/// Packing four bytes and reading the octets back are mutually inverse.
pub proof fn lemma_bytes_round_trip(b0: u8, b1: u8, b2: u8, b3: u8)
    by (bit_vector)
    ensures
        octet_of(pack_octets(b0, b1, b2, b3), 0) == b0,
        octet_of(pack_octets(b0, b1, b2, b3), 1) == b1,
        octet_of(pack_octets(b0, b1, b2, b3), 2) == b2,
        octet_of(pack_octets(b0, b1, b2, b3), 3) == b3,
{
}

/// An address is the packing of its own octets.
pub proof fn lemma_octets_pack(a: u32)
    by (bit_vector)
    ensures
        pack_octets(octet_of(a, 0), octet_of(a, 1), octet_of(a, 2), octet_of(a, 3)) == a,
{
}

/// The dotted-decimal rendering of an address: its four octets in
/// canonical decimal, joined by dots.
pub open spec fn ipv4_text(a: u32) -> Seq<char> {
    dec_u8(octet_of(a, 0)) + seq!['.'] + dec_u8(octet_of(a, 1)) + seq!['.'] + dec_u8(octet_of(a, 2))
        + seq!['.'] + dec_u8(octet_of(a, 3))
}

/// What parsing dotted-decimal text yields: the components are the text
/// split on dots; a component among the first four that is not a valid
/// octet is an invalid value; any other component count than four is an
/// invalid format; otherwise the four octet values pack into an address.
pub open spec fn spec_parse(s: Seq<char>) -> Result<u32, Ipv4Error> {
    let comps = split_dots(s);
    if exists|i: int| 0 <= i < comps.len() && i < 4 && !valid_octet_text(#[trigger] comps[i]) {
        Err(Ipv4Error::InvalidValue)
    } else if comps.len() != 4 {
        Err(Ipv4Error::InvalidFormat)
    } else {
        Ok(
            pack_octets(
                octet_value(comps[0]) as u8,
                octet_value(comps[1]) as u8,
                octet_value(comps[2]) as u8,
                octet_value(comps[3]) as u8,
            ),
        )
    }
}

/// Splitting at a component boundary: the split of the text from `start`
/// is the component up to `end`, then the split of what follows the dot.
proof fn lemma_split_step(s: Seq<char>, start: int, end: int)
    requires
        0 <= start <= end <= s.len(),
        first_dot(s.skip(start)) == end - start,
    ensures
        split_dots(s.skip(start)) == (if end == s.len() {
            seq![s.subrange(start, end)]
        } else {
            seq![s.subrange(start, end)] + split_dots(s.skip(end + 1))
        }),
{
    let t = s.skip(start);
    if end == s.len() {
        assert(t =~= s.subrange(start, end));
    } else {
        assert(t.take(end - start) =~= s.subrange(start, end));
        assert(t.skip(end - start + 1) =~= s.skip(end + 1));
    }
}

/// Every split has at least one component.
proof fn lemma_split_dots_len(s: Seq<char>)
    ensures
        split_dots(s).len() >= 1,
{
}

/// Parsing the dotted-decimal rendering of an address gives that address
/// back; with the rendering contract, rendering is thus a left and right
/// inverse of parsing on canonical text.
pub proof fn lemma_text_round_trip(a: u32)
    ensures
        spec_parse(ipv4_text(a)) == Ok::<u32, Ipv4Error>(a),
{
    let d0 = dec_u8(octet_of(a, 0));
    let d1 = dec_u8(octet_of(a, 1));
    let d2 = dec_u8(octet_of(a, 2));
    let d3 = dec_u8(octet_of(a, 3));
    lemma_dec_u8(octet_of(a, 0));
    lemma_dec_u8(octet_of(a, 1));
    lemma_dec_u8(octet_of(a, 2));
    lemma_dec_u8(octet_of(a, 3));
    let y2 = d2 + seq!['.'] + d3;
    let y1 = d1 + seq!['.'] + y2;
    assert(ipv4_text(a) =~= d0 + seq!['.'] + y1);
    lemma_split_dots_prepend(d0, y1);
    lemma_split_dots_prepend(d1, y2);
    lemma_split_dots_prepend(d2, d3);
    lemma_split_dots_single(d3);
    let comps = split_dots(ipv4_text(a));
    assert(comps =~= seq![d0, d1, d2, d3]);
    assert(forall|i: int| 0 <= i < comps.len() && i < 4 ==> valid_octet_text(#[trigger] comps[i]));
    lemma_octets_pack(a);
}

/// Octet `idx` of a raw address value.
fn octet_at(a: u32, idx: u32) -> (r: u8)
    requires
        idx <= 3,
    ensures
        r == octet_of(a, idx as int),
{
    let shift: u32 = 8 * (3 - idx);
    ((a >> shift) & 0xFF) as u8
}

/// The next dot-separated component of `s` from `start`: its octet value
/// (or an invalid-value failure), and the index of the dot that ends it
/// (the end of `s` if there is no further dot).
fn take_octet(s: &str, start: usize, n: usize) -> (r: (Result<u8, Ipv4Error>, usize))
    requires
        n == s@.len(),
        start <= n,
    ensures
        ({
            let end = r.1;
            let comp = s@.subrange(start as int, end as int);
            &&& start <= end <= n
            &&& r.0 == (if valid_octet_text(comp) {
                Ok::<u8, Ipv4Error>(octet_value(comp) as u8)
            } else {
                Err::<u8, Ipv4Error>(Ipv4Error::InvalidValue)
            })
            &&& split_dots(s@.skip(start as int)) == (if end == n {
                seq![comp]
            } else {
                seq![comp] + split_dots(s@.skip(end as int + 1))
            })
        }),
{
    let end = scan_component(s, start, n);
    let v = parse_octet_text(s, start, end);
    proof {
        lemma_split_step(s@, start as int, end as int);
    }
    match v {
        Some(b) => (Ok(b), end),
        None => (Err(Ipv4Error::InvalidValue), end),
    }
}

/// An IPv4 address as an opaque 32-bit value; byte 0 (most significant)
/// is the first dotted-decimal octet.
#[derive(Debug, Eq, PartialEq, Copy, Clone, Structural)]
pub struct IPv4(u32);

impl View for IPv4 {
    type V = u32;

    closed spec fn view(&self) -> u32 {
        self.0
    }
}

impl IPv4 {
    /// The address with the given raw 32-bit value.
    pub closed spec fn spec_from(value: u32) -> IPv4 {
        IPv4(value)
    }

    /// Octet `index` of the address, most significant first; fails for an
    /// index above 3.
    pub fn fragment(&self, index: usize) -> (r: Result<u8, Ipv4Error>)
        ensures
            index <= 3 ==> r == Ok::<u8, Ipv4Error>(octet_of(self@, index as int)),
            index > 3 ==> r == Err::<u8, Ipv4Error>(Ipv4Error::IndexOutOfRange),
    {
        if index > 3 {
            Err(Ipv4Error::IndexOutOfRange)
        } else {
            let shift: u32 = 8 * (3 - index as u32);
            Ok(((self.0 >> shift) & 0xFF) as u8)
        }
    }

    /// The raw 32-bit value.
    pub fn to_u32(&self) -> (r: u32)
        ensures
            r == self@,
    {
        self.0
    }

    /// The dotted-decimal rendering of the address.
    pub fn format(&self) -> (out: String)
        ensures
            out@ == ipv4_text(self@),
    {
        let a = self.0;
        let mut out = octet_string(octet_at(a, 0));
        out.append(".");
        let p1 = octet_string(octet_at(a, 1));
        out.append(p1.as_str());
        out.append(".");
        let p2 = octet_string(octet_at(a, 2));
        out.append(p2.as_str());
        out.append(".");
        let p3 = octet_string(octet_at(a, 3));
        out.append(p3.as_str());
        proof {
            reveal_strlit(".");
            assert("."@ =~= seq!['.']);
            assert(out@ =~= ipv4_text(self@));
        }
        out
    }

    /// The address parsed from dotted-decimal text, as `spec_parse` says:
    /// four dot-separated octet components, most significant first.
    pub fn try_from_str(value: &str) -> (r: Result<IPv4, Ipv4Error>)
        ensures
            r is Ok <==> spec_parse(value@) is Ok,
            r is Ok ==> r->Ok_0@ == spec_parse(value@)->Ok_0,
            r is Err ==> r->Err_0 == spec_parse(value@)->Err_0,
    {
        let n = value.unicode_len();
        proof {
            assert(value@.skip(0) =~= value@);
        }
        let (r0, d0) = take_octet(value, 0, n);
        let b0 = match r0 {
            Ok(b) => b,
            Err(e) => {
                proof {
                    let comps = split_dots(value@);
                    assert(comps[0] == value@.subrange(0, d0 as int));
                }
                return Err(e);
            },
        };
        if d0 == n {
            return Err(Ipv4Error::InvalidFormat);
        }
        let (r1, d1) = take_octet(value, d0 + 1, n);
        let b1 = match r1 {
            Ok(b) => b,
            Err(e) => {
                proof {
                    let comps = split_dots(value@);
                    let t0 = split_dots(value@.skip(d0 as int + 1));
                    assert(comps[1] == t0[0]);
                    assert(t0[0] == value@.subrange(d0 as int + 1, d1 as int));
                }
                return Err(e);
            },
        };
        if d1 == n {
            return Err(Ipv4Error::InvalidFormat);
        }
        let (r2, d2) = take_octet(value, d1 + 1, n);
        let b2 = match r2 {
            Ok(b) => b,
            Err(e) => {
                proof {
                    let comps = split_dots(value@);
                    let t0 = split_dots(value@.skip(d0 as int + 1));
                    let t1 = split_dots(value@.skip(d1 as int + 1));
                    assert(comps[2] == t0[1]);
                    assert(t0[1] == t1[0]);
                    assert(t1[0] == value@.subrange(d1 as int + 1, d2 as int));
                }
                return Err(e);
            },
        };
        if d2 == n {
            return Err(Ipv4Error::InvalidFormat);
        }
        let (r3, d3) = take_octet(value, d2 + 1, n);
        let b3 = match r3 {
            Ok(b) => b,
            Err(e) => {
                proof {
                    let comps = split_dots(value@);
                    let t0 = split_dots(value@.skip(d0 as int + 1));
                    let t1 = split_dots(value@.skip(d1 as int + 1));
                    let t2 = split_dots(value@.skip(d2 as int + 1));
                    assert(comps[3] == t0[2]);
                    assert(t0[2] == t1[1]);
                    assert(t1[1] == t2[0]);
                    assert(t2[0] == value@.subrange(d2 as int + 1, d3 as int));
                }
                return Err(e);
            },
        };
        if d3 < n {
            proof {
                lemma_split_dots_len(value@.skip(d3 as int + 1));
            }
            return Err(Ipv4Error::InvalidFormat);
        }
        let accum: u32 = ((b0 as u32) << 24) | ((b1 as u32) << 16) | ((b2 as u32) << 8) | (b3
            as u32);
        Ok(IPv4(accum))
    }

    /// The address read from exactly four bytes, most significant first;
    /// any other length fails.
    pub fn try_from_bytes(value: &[u8]) -> (r: Result<IPv4, Ipv4Error>)
        ensures
            value@.len() == 4 ==> r is Ok && r->Ok_0@ == pack_octets(
                value@[0],
                value@[1],
                value@[2],
                value@[3],
            ),
            value@.len() != 4 ==> r == Err::<IPv4, Ipv4Error>(Ipv4Error::InvalidArrayLength),
    {
        if value.len() != 4 {
            Err(Ipv4Error::InvalidArrayLength)
        } else {
            let accum: u32 = ((value[0] as u32) << 24) | ((value[1] as u32) << 16) | ((value[2]
                as u32) << 8) | (value[3] as u32);
            Ok(IPv4(accum))
        }
    }
}

impl From<u32> for IPv4 {
    /// The address with the given raw 32-bit value; every value is legal.
    fn from(value: u32) -> (r: IPv4) {
        IPv4(value)
    }
}

impl vstd::std_specs::convert::FromSpecImpl<u32> for IPv4 {
    open spec fn obeys_from_spec() -> bool {
        true
    }

    open spec fn from_spec(value: u32) -> IPv4 {
        IPv4::spec_from(value)
    }
}

/// An address built from a raw value holds exactly that value.
pub broadcast proof fn lemma_spec_from(value: u32)
    ensures
        (#[trigger] IPv4::spec_from(value))@ == value,
{
}

} // verus!
