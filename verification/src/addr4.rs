//! The dotted-quad text form of a v4 address: parsing, rendering, and the
//! proof that one inverts the other.

use vstd::prelude::*;

use crate::net::{oct0, oct1, oct2, oct3, ipv4_from_octets, ipv4_octets, lemma_octets_rebuild};
use crate::text::{
    parse_dec, find_char, dec_str, is_dec_digit,
    lemma_parse_dec_nonneg, lemma_dec_str_parses,
    lemma_find_char_is, lemma_find_char_none,
    scan_for, parse_dec_range, append_dec,
};

verus! {

/// The value of one dotted-quad octet, in 0..=255.
pub open spec fn parse_octet(t: Seq<char>) -> Option<int> {
    match parse_dec(t) {
        Some(v) => if v <= 255 {
            Some(v)
        } else {
            None
        },
        None => None,
    }
}

/// The v4 address a dotted quad stands for, or `None` when malformed.
pub open spec fn parse_ipv4(s: Seq<char>) -> Option<u32> {
    let i1 = find_char(s, '.');
    if !(0 <= i1 && i1 < s.len()) {
        None
    } else {
        let r1 = s.skip(i1 + 1);
        let i2 = find_char(r1, '.');
        if !(0 <= i2 && i2 < r1.len()) {
            None
        } else {
            let r2 = r1.skip(i2 + 1);
            let i3 = find_char(r2, '.');
            if !(0 <= i3 && i3 < r2.len()) {
                None
            } else {
                let r3 = r2.skip(i3 + 1);
                match (parse_octet(s.take(i1)), parse_octet(r1.take(i2)), parse_octet(r2.take(i3)), parse_octet(r3)) {
                    (Some(a), Some(b), Some(c), Some(d)) => Some(
                        ipv4_from_octets(a, b, c, d) as u32,
                    ),
                    _ => None,
                }
            }
        }
    }
}

/// Parse the dotted quad `s[from..to]`. Mirrors `parse_ipv4` exactly.
pub fn parse_ipv4_range(s: &str, from: usize, to: usize) -> (r: Option<u32>)
    requires
        from <= to <= s@.len(),
    ensures
        r == parse_ipv4(s@.subrange(from as int, to as int)),
{
    let ghost t = s@.subrange(from as int, to as int);
    let p1 = scan_for(s, from, to, '.');
    if p1 == to {
        proof {
            lemma_find_char_none(t, '.');
        }
        return None;
    }
    let ghost r1 = t.skip(p1 - from + 1);
    proof {
        assert(t[p1 - from] == '.');
        assert(forall|j: int| 0 <= j < p1 - from ==> t[j] != '.');
        lemma_find_char_is(t, '.', p1 - from);
        assert(t.take(p1 - from) =~= s@.subrange(from as int, p1 as int));
        assert(r1 =~= s@.subrange(p1 + 1 as int, to as int));
    }
    let p2 = scan_for(s, p1 + 1, to, '.');
    if p2 == to {
        proof {
            lemma_find_char_none(r1, '.');
        }
        return None;
    }
    let ghost r2 = r1.skip(p2 - (p1 + 1) + 1);
    proof {
        assert(r1[p2 - (p1 + 1)] == '.');
        assert(forall|j: int| 0 <= j < p2 - (p1 + 1) ==> r1[j] != '.');
        lemma_find_char_is(r1, '.', p2 - (p1 + 1));
        assert(r1.take(p2 - (p1 + 1)) =~= s@.subrange(p1 + 1 as int, p2 as int));
        assert(r2 =~= s@.subrange(p2 + 1 as int, to as int));
    }
    let p3 = scan_for(s, p2 + 1, to, '.');
    if p3 == to {
        proof {
            lemma_find_char_none(r2, '.');
        }
        return None;
    }
    let ghost r3 = r2.skip(p3 - (p2 + 1) + 1);
    proof {
        assert(r2[p3 - (p2 + 1)] == '.');
        assert(forall|j: int| 0 <= j < p3 - (p2 + 1) ==> r2[j] != '.');
        lemma_find_char_is(r2, '.', p3 - (p2 + 1));
        assert(r2.take(p3 - (p2 + 1)) =~= s@.subrange(p2 + 1 as int, p3 as int));
        assert(r3 =~= s@.subrange(p3 + 1 as int, to as int));
        lemma_parse_dec_nonneg(s@.subrange(from as int, p1 as int));
        lemma_parse_dec_nonneg(s@.subrange(p1 + 1 as int, p2 as int));
        lemma_parse_dec_nonneg(s@.subrange(p2 + 1 as int, p3 as int));
        lemma_parse_dec_nonneg(s@.subrange(p3 + 1 as int, to as int));
    }
    let a = parse_dec_range(s, from, p1, 255);
    let b = parse_dec_range(s, p1 + 1, p2, 255);
    let c = parse_dec_range(s, p2 + 1, p3, 255);
    let d = parse_dec_range(s, p3 + 1, to, 255);
    match (a, b, c, d) {
        (Some(a), Some(b), Some(c), Some(d)) => Some(
            a * 0x1000000 + b * 0x10000 + c * 0x100 + d,
        ),
        _ => None,
    }
}

/// The dotted-quad rendering of a v4 address.
pub open spec fn ipv4_str(x: u32) -> Seq<char> {
    dec_str(oct0(x)) + seq!['.'] + dec_str(oct1(x)) + seq!['.'] + dec_str(oct2(x)) + seq!['.']
        + dec_str(oct3(x))
}

/// Append the dotted-quad rendering of `x` to `out`.
pub fn append_ipv4(out: &mut String, x: u32)
    ensures
        final(out)@ == old(out)@ + ipv4_str(x),
{
    proof {
        reveal_strlit(".");
    }
    let (a, b, c, d) = ipv4_octets(x);
    append_dec(out, a as u32);
    out.append(".");
    append_dec(out, b as u32);
    out.append(".");
    append_dec(out, c as u32);
    out.append(".");
    append_dec(out, d as u32);
    proof {
        assert(final(out)@ =~= old(out)@ + ipv4_str(x));
    }
}

/// Rendering a v4 address and parsing the rendering round-trips, and the
/// rendering holds only digits and dots.
pub proof fn lemma_ipv4_str(x: u32)
    ensures
        parse_ipv4(ipv4_str(x)) == Some(x),
        forall|i: int|
            0 <= i < ipv4_str(x).len() ==> (is_dec_digit(#[trigger] ipv4_str(x)[i]) || ipv4_str(
                x,
            )[i] == '.'),
{
    lemma_octets_rebuild(x);
    let l0 = dec_str(oct0(x));
    let l1 = dec_str(oct1(x));
    let l2 = dec_str(oct2(x));
    let l3 = dec_str(oct3(x));
    lemma_dec_str_parses(oct0(x));
    lemma_dec_str_parses(oct1(x));
    lemma_dec_str_parses(oct2(x));
    lemma_dec_str_parses(oct3(x));
    let s = ipv4_str(x);
    let n0 = l0.len() as int;
    let n1 = l1.len() as int;
    let n2 = l2.len() as int;
    let n3 = l3.len() as int;
    assert(s.len() == n0 + n1 + n2 + n3 + 3);
    assert forall|i: int| 0 <= i < s.len() implies (is_dec_digit(#[trigger] s[i]) || s[i]
        == '.') by {
        if i < n0 {
            assert(s[i] == l0[i]);
        } else if i == n0 {
            assert(s[i] == '.');
        } else if i < n0 + 1 + n1 {
            assert(s[i] == l1[i - n0 - 1]);
        } else if i == n0 + 1 + n1 {
            assert(s[i] == '.');
        } else if i < n0 + n1 + 2 + n2 {
            assert(s[i] == l2[i - n0 - n1 - 2]);
        } else if i == n0 + n1 + 2 + n2 {
            assert(s[i] == '.');
        } else {
            assert(s[i] == l3[i - n0 - n1 - n2 - 3]);
        }
    }
    // first dot
    assert(s[n0] == '.');
    assert(forall|j: int| 0 <= j < n0 ==> #[trigger] s[j] == l0[j]);
    lemma_find_char_is(s, '.', n0);
    assert(s.take(n0) =~= l0);
    let r1 = s.skip(n0 + 1);
    assert(r1 =~= l1 + seq!['.'] + l2 + seq!['.'] + l3);
    // second dot
    assert(r1[n1] == '.');
    assert(forall|j: int| 0 <= j < n1 ==> #[trigger] r1[j] == l1[j]);
    lemma_find_char_is(r1, '.', n1);
    assert(r1.take(n1) =~= l1);
    let r2 = r1.skip(n1 + 1);
    assert(r2 =~= l2 + seq!['.'] + l3);
    // third dot
    assert(r2[n2] == '.');
    assert(forall|j: int| 0 <= j < n2 ==> #[trigger] r2[j] == l2[j]);
    lemma_find_char_is(r2, '.', n2);
    assert(r2.take(n2) =~= l2);
    let r3 = r2.skip(n2 + 1);
    assert(r3 =~= l3);
    assert(parse_octet(l0) == Some(oct0(x)));
    assert(parse_octet(l1) == Some(oct1(x)));
    assert(parse_octet(l2) == Some(oct2(x)));
    assert(parse_octet(l3) == Some(oct3(x)));
    assert(ipv4_from_octets(oct0(x), oct1(x), oct2(x), oct3(x)) == x as int);
}

} // verus!
