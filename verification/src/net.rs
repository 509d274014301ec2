//! The address model: a v4 address as its 32-bit value, a v6 address as
//! its 128-bit value, with the octet and segment arithmetic the
//! classifiers and expanders read.

use vstd::prelude::*;

verus! {

/// A scan target address.
#[derive(Clone, Copy, Debug, PartialEq, Eq, Structural)]
pub enum Address {
    V4(u32),
    V6(u128),
}

/// The leading octet of a v4 address.
pub open spec fn oct0(x: u32) -> int {
    x as int / 0x1000000
}

/// The second octet of a v4 address.
pub open spec fn oct1(x: u32) -> int {
    (x as int / 0x10000) % 256
}

/// The third octet of a v4 address.
pub open spec fn oct2(x: u32) -> int {
    (x as int / 0x100) % 256
}

/// The trailing octet of a v4 address.
pub open spec fn oct3(x: u32) -> int {
    x as int % 256
}

/// The v4 address with the given octets.
pub open spec fn ipv4_from_octets(a: int, b: int, c: int, d: int) -> int {
    a * 0x1000000 + b * 0x10000 + c * 0x100 + d
}

/// The leading 16-bit segment of a v6 address.
pub open spec fn seg0(x: u128) -> int {
    x as int / 0x1_0000_0000_0000_0000_0000_0000_0000
}

/// An address's octets rebuild it.
pub proof fn lemma_octets_rebuild(x: u32)
    ensures
        ipv4_from_octets(oct0(x), oct1(x), oct2(x), oct3(x)) == x as int,
        0 <= oct0(x) < 256,
        0 <= oct1(x) < 256,
        0 <= oct2(x) < 256,
        0 <= oct3(x) < 256,
{
    let v = x as int;
    assert(v == (v / 0x100) * 0x100 + v % 0x100);
    assert(v / 0x100 == ((v / 0x100) / 0x100) * 0x100 + (v / 0x100) % 0x100);
    assert((v / 0x100) / 0x100 == v / 0x10000) by (nonlinear_arith);
    assert(v / 0x10000 == ((v / 0x10000) / 0x100) * 0x100 + (v / 0x10000) % 0x100);
    assert((v / 0x10000) / 0x100 == v / 0x1000000) by (nonlinear_arith);
    assert(v / 0x1000000 < 256) by (nonlinear_arith)
        requires v < 0x100000000;
    assert(v / 0x1000000 >= 0);
}

/// Extract the octets of a v4 address, most significant first.
pub fn ipv4_octets(x: u32) -> (r: (u8, u8, u8, u8))
    ensures
        r.0 as int == oct0(x),
        r.1 as int == oct1(x),
        r.2 as int == oct2(x),
        r.3 as int == oct3(x),
{
    proof {
        lemma_octets_rebuild(x);
    }
    let a = x / 0x1000000;
    let b = (x / 0x10000) % 256;
    let c = (x / 0x100) % 256;
    let d = x % 256;
    (a as u8, b as u8, c as u8, d as u8)
}

/// Whether a v4 value lies in a private, loopback or link-local range:
/// RFC 1918 (10/8, 172.16/12, 192.168/16), 127/8, or 169.254/16.
pub open spec fn spec_v4_private(x: u32) -> bool {
    ||| oct0(x) == 10
    ||| (oct0(x) == 172 && 16 <= oct1(x) <= 31)
    ||| (oct0(x) == 192 && oct1(x) == 168)
    ||| oct0(x) == 127
    ||| (oct0(x) == 169 && oct1(x) == 254)
}

/// Whether a v6 value is loopback, link-local (fe80::/10) or
/// unique-local (fc00::/7).
pub open spec fn spec_v6_private(x: u128) -> bool {
    ||| x == 1
    ||| (0xfe80 <= seg0(x) && seg0(x) <= 0xfebf)
    ||| (0xfc00 <= seg0(x) && seg0(x) <= 0xfdff)
}

/// Whether the address sits in a private or local range, where the
/// shorter fast-connect timeout floor is safe.
pub open spec fn spec_is_private_ip(a: Address) -> bool {
    match a {
        Address::V4(x) => spec_v4_private(x),
        Address::V6(x) => spec_v6_private(x),
    }
}

/// Check if the address is in a private/local range for optimized scanning.
pub fn is_private_ip(a: Address) -> (r: bool)
    ensures
        r == spec_is_private_ip(a),
{
    match a {
        Address::V4(x) => {
            let (o0, o1, _, _) = ipv4_octets(x);
            (o0 == 10) || (o0 == 172 && o1 >= 16 && o1 <= 31) || (o0 == 192 && o1 == 168) || (o0
                == 127) || (o0 == 169 && o1 == 254)
        },
        Address::V6(x) => {
            let s0 = x / 0x1_0000_0000_0000_0000_0000_0000_0000;
            x == 1 || (0xfe80 <= s0 && s0 <= 0xfebf) || (0xfc00 <= s0 && s0 <= 0xfdff)
        },
    }
}

} // verus!
