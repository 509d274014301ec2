//! The text form of a v6 address: colon-separated hexadecimal groups with
//! at most one `::` compression; parsing, uncompressed rendering, and the
//! proof that one inverts the other.

use vstd::prelude::*;

use crate::text::{
    parse_hex, find_char, hex_str, is_hex_digit,
    lemma_parse_hex_digits, lemma_parse_hex_bound, lemma_hex_str_parses,
    lemma_find_char_is, lemma_find_char_none,
    scan_for, parse_hex_group, append_hex,
};

verus! {

/// The least index where `::` starts in `s`, or -1 when it does not occur.
pub open spec fn find_dcolon(s: Seq<char>) -> int
    decreases s.len(),
{
    if s.len() < 2 {
        -1
    } else if s[0] == ':' && s[1] == ':' {
        0
    } else {
        let r = find_dcolon(s.skip(1));
        if r < 0 {
            -1
        } else {
            r + 1
        }
    }
}

/// No adjacent pair of colons pins `find_dcolon` at -1.
pub proof fn lemma_find_dcolon_none(s: Seq<char>)
    requires
        forall|i: int| 0 <= i < s.len() - 1 ==> !(#[trigger] s[i] == ':' && s[i + 1] == ':'),
    ensures
        find_dcolon(s) == -1,
    decreases s.len(),
{
    if s.len() >= 2 {
        assert(forall|j: int| 1 <= j < s.len() ==> #[trigger] s[j] == s.skip(1)[j - 1]);
        assert(forall|i: int|
            0 <= i < s.skip(1).len() - 1 ==> !(#[trigger] s.skip(1)[i] == ':' && s.skip(1)[i + 1]
                == ':')) by {
            assert(forall|i: int|
                0 <= i < s.len() - 2 ==> (s.skip(1)[i] == s[i + 1] && #[trigger] s.skip(1)[i + 1]
                    == s[i + 2]));
        }
        lemma_find_dcolon_none(s.skip(1));
    }
}

/// An adjacent pair with none before it pins `find_dcolon`.
pub proof fn lemma_find_dcolon_is(s: Seq<char>, i: int)
    requires
        0 <= i < s.len() - 1,
        s[i] == ':' && s[i + 1] == ':',
        forall|j: int| 0 <= j < i ==> !(#[trigger] s[j] == ':' && s[j + 1] == ':'),
    ensures
        find_dcolon(s) == i,
    decreases s.len(),
{
    if i > 0 {
        assert(forall|j: int| 1 <= j < s.len() ==> #[trigger] s[j] == s.skip(1)[j - 1]);
        assert(s.skip(1)[i - 1] == ':' && s.skip(1)[i] == ':');
        assert(forall|j: int|
            0 <= j < i - 1 ==> !(#[trigger] s.skip(1)[j] == ':' && s.skip(1)[j + 1] == ':')) by {
            assert(forall|j: int|
                0 <= j < i - 1 ==> (s.skip(1)[j] == s[j + 1] && #[trigger] s.skip(1)[j + 1] == s[j
                    + 2]));
        }
        lemma_find_dcolon_is(s.skip(1), i - 1);
    }
}

/// The value of one address group: one to four hex digits.
pub open spec fn parse_group(t: Seq<char>) -> Option<int> {
    match parse_hex(t) {
        Some(v) => if t.len() <= 4 {
            Some(v)
        } else {
            None
        },
        None => None,
    }
}

/// The group values of a colon-separated run of groups; `None` when a
/// group is empty, overlong, or holds a stray character.
pub open spec fn parse_groups(s: Seq<char>) -> Option<Seq<int>>
    decreases s.len(),
{
    let i = find_char(s, ':');
    if !(0 <= i && i < s.len()) {
        match parse_group(s) {
            Some(g) => Some(seq![g]),
            None => None,
        }
    } else {
        match (parse_group(s.take(i)), parse_groups(s.skip(i + 1))) {
            (Some(g), Some(gs)) => Some(seq![g] + gs),
            _ => None,
        }
    }
}

/// Parsed groups are non-empty and each value is a 16-bit word.
pub proof fn lemma_parse_groups_range(s: Seq<char>)
    requires
        parse_groups(s) is Some,
    ensures
        parse_groups(s)->Some_0.len() >= 1,
        forall|k: int|
            0 <= k < parse_groups(s)->Some_0.len() ==> 0 <= #[trigger] parse_groups(s)->Some_0[k]
                < 0x10000,
    decreases s.len(),
{
    let i = find_char(s, ':');
    if !(0 <= i && i < s.len()) {
        lemma_parse_hex_bound(s);
    } else {
        lemma_parse_hex_bound(s.take(i));
        lemma_parse_groups_range(s.skip(i + 1));
    }
}

/// The address value of a sequence of group values, most significant
/// group first.
pub open spec fn groups_val(gs: Seq<int>) -> int
    decreases gs.len(),
{
    if gs.len() == 0 {
        0
    } else {
        groups_val(gs.drop_last()) * 0x10000 + gs.last()
    }
}

/// Group values in range bound the address value by the group count.
pub proof fn lemma_groups_val_bound(gs: Seq<int>)
    requires
        forall|k: int| 0 <= k < gs.len() ==> 0 <= #[trigger] gs[k] < 0x10000,
    ensures
        0 <= groups_val(gs),
        gs.len() <= 1 ==> groups_val(gs) < 0x10000,
        gs.len() <= 2 ==> groups_val(gs) < 0x1_0000_0000,
        gs.len() <= 3 ==> groups_val(gs) < 0x1_0000_0000_0000,
        gs.len() <= 4 ==> groups_val(gs) < 0x1_0000_0000_0000_0000,
        gs.len() <= 5 ==> groups_val(gs) < 0x1_0000_0000_0000_0000_0000,
        gs.len() <= 6 ==> groups_val(gs) < 0x1_0000_0000_0000_0000_0000_0000,
        gs.len() <= 7 ==> groups_val(gs) < 0x1_0000_0000_0000_0000_0000_0000_0000,
        gs.len() <= 8 ==> groups_val(gs) < 0x1_0000_0000_0000_0000_0000_0000_0000_0000,
    decreases gs.len(),
{
    if gs.len() > 0 {
        assert(forall|k: int| 0 <= k < gs.len() - 1 ==> #[trigger] gs.drop_last()[k] == gs[k]);
        lemma_groups_val_bound(gs.drop_last());
    }
}

/// The v6 address a literal stands for: eight groups, or two shorter runs
/// joined by one `::` standing for the elided zero groups.
pub open spec fn parse_ipv6(s: Seq<char>) -> Option<u128> {
    let d = find_dcolon(s);
    if !(0 <= d && d + 2 <= s.len()) {
        match parse_groups(s) {
            Some(gs) => if gs.len() == 8 {
                Some(groups_val(gs) as u128)
            } else {
                None
            },
            None => None,
        }
    } else {
        let left = s.take(d);
        let right = s.skip(d + 2);
        let lg = if left.len() == 0 {
            Some(Seq::<int>::empty())
        } else {
            parse_groups(left)
        };
        let rg = if right.len() == 0 {
            Some(Seq::<int>::empty())
        } else {
            parse_groups(right)
        };
        match (lg, rg) {
            (Some(a), Some(b)) => if a.len() + b.len() <= 7 {
                Some(
                    groups_val(
                        a + Seq::new((8 - a.len() - b.len()) as nat, |i: int| 0) + b,
                    ) as u128,
                )
            } else {
                None
            },
            _ => None,
        }
    }
}

/// Scan `s` in `[from, to)` for the first `::`; `to` when absent.
fn scan_dcolon(s: &str, from: usize, to: usize) -> (r: usize)
    requires
        from <= to <= s@.len(),
    ensures
        from <= r <= to,
        r < to ==> r + 1 < to && s@[r as int] == ':' && s@[r + 1] == ':',
        forall|j: int| from <= j < r && j + 1 < to ==> !(#[trigger] s@[j] == ':' && s@[j + 1] == ':'),
{
    if to - from < 2 {
        return to;
    }
    let mut i: usize = from;
    while i < to - 1
        invariant
            from <= i <= to - 1,
            2 <= to - from,
            to <= s@.len(),
            forall|j: int| from <= j < i ==> !(#[trigger] s@[j] == ':' && s@[j + 1] == ':'),
        decreases to - i,
    {
        if s.get_char(i) == ':' && s.get_char(i + 1) == ':' {
            return i;
        }
        i = i + 1;
    }
    to
}

/// Parse the colon-separated groups in `s[from..to]` into 16-bit words.
/// Mirrors `parse_groups` on that range.
fn parse_groups_range(s: &str, from: usize, to: usize) -> (r: Option<Vec<u16>>)
    requires
        from <= to <= s@.len(),
    ensures
        match parse_groups(s@.subrange(from as int, to as int)) {
            Some(gs) => r is Some && r->Some_0@.map_values(|g: u16| g as int) == gs,
            None => r is None,
        },
{
    let ghost whole = s@.subrange(from as int, to as int);
    let mut acc: Vec<u16> = Vec::new();
    let mut p: usize = from;
    proof {
        assert(whole.skip(0) =~= whole);
        if parse_groups(whole) is Some {
            let gs = parse_groups(whole)->Some_0;
            assert(acc@.map_values(|g: u16| g as int) + gs =~= gs);
        }
    }
    loop
        invariant
            from <= p <= to <= s@.len(),
            whole == s@.subrange(from as int, to as int),
            // what the suffix still owes
            match parse_groups(s@.subrange(p as int, to as int)) {
                Some(gs) => parse_groups(whole) == Some(
                    acc@.map_values(|g: u16| g as int) + gs,
                ),
                None => parse_groups(whole) is None,
            },
        decreases to - p,
    {
        let ghost suffix = s@.subrange(p as int, to as int);
        let q = scan_for(s, p, to, ':');
        let ghost tok = s@.subrange(p as int, q as int);
        proof {
            assert(forall|j: int| 0 <= j < suffix.len() ==> suffix[j] == #[trigger] s@[p + j]);
            if q < to {
                assert(suffix[q - p] == ':');
                lemma_find_char_is(suffix, ':', q - p);
                assert(suffix.take(q - p) =~= tok);
                assert(suffix.skip(q - p + 1) =~= s@.subrange(q + 1 as int, to as int));
            } else {
                lemma_find_char_none(suffix, ':');
                assert(suffix =~= tok);
            }
            if parse_hex(tok) is Some {
                lemma_parse_hex_bound(tok);
            }
        }
        let g = match parse_hex_group(s, p, q) {
            Some(g) => g,
            None => {
                return None;
            },
        };
        let ghost acc0 = acc@;
        acc.push(g);
        proof {
            assert(acc@.map_values(|x: u16| x as int) =~= acc0.map_values(|x: u16| x as int)
                + seq![g as int]);
        }
        if q == to {
            proof {
                let gs = seq![g as int];
                assert(parse_groups(suffix) == Some(gs));
                assert(acc0.map_values(|x: u16| x as int) + gs =~= acc@.map_values(
                    |x: u16| x as int,
                ));
            }
            return Some(acc);
        }
        proof {
            let after = s@.subrange(q + 1 as int, to as int);
            if parse_groups(after) is Some {
                let gs = parse_groups(after)->Some_0;
                assert(parse_groups(suffix) == Some(seq![g as int] + gs));
                assert(acc0.map_values(|x: u16| x as int) + (seq![g as int] + gs) =~= acc@.map_values(
                    |x: u16| x as int,
                ) + gs);
            }
        }
        p = q + 1;
    }
}

/// Fold up to eight 16-bit groups into an address value, most significant
/// first.
fn combine_groups(v: &Vec<u16>) -> (r: u128)
    requires
        v@.len() <= 8,
    ensures
        r as int == groups_val(v@.map_values(|g: u16| g as int)),
{
    let ghost gs = v@.map_values(|g: u16| g as int);
    proof {
        assert(forall|k: int| 0 <= k < gs.len() ==> 0 <= #[trigger] gs[k] < 0x10000);
    }
    let mut acc: u128 = 0;
    let mut i: usize = 0;
    proof {
        assert(gs.take(0) =~= Seq::<int>::empty());
    }
    while i < v.len()
        invariant
            0 <= i <= v@.len() <= 8,
            gs == v@.map_values(|g: u16| g as int),
            acc as int == groups_val(gs.take(i as int)),
        decreases v@.len() - i,
    {
        proof {
            assert(forall|k: int| 0 <= k < gs.len() ==> 0 <= #[trigger] gs[k] < 0x10000);
            assert(forall|k: int| 0 <= k < i ==> #[trigger] gs.take(i as int)[k] == gs[k]);
            lemma_groups_val_bound(gs.take(i as int));
            assert(gs.take(i + 1).drop_last() =~= gs.take(i as int));
            assert(gs.take(i + 1).last() == gs[i as int]);
        }
        acc = acc * 0x10000 + (v[i] as u128);
        i = i + 1;
    }
    proof {
        assert(gs.take(v@.len() as int) =~= gs);
    }
    acc
}

/// Parse the v6 literal `s[from..to]`. Mirrors `parse_ipv6` exactly.
pub fn parse_ipv6_range(s: &str, from: usize, to: usize) -> (r: Option<u128>)
    requires
        from <= to <= s@.len(),
    ensures
        r == parse_ipv6(s@.subrange(from as int, to as int)),
{
    let ghost t = s@.subrange(from as int, to as int);
    let d = scan_dcolon(s, from, to);
    if d == to {
        proof {
            assert(forall|j: int| 0 <= j < t.len() - 1 ==> !(#[trigger] t[j] == ':' && t[j + 1] == ':')) by {
                assert(forall|j: int| 0 <= j < t.len() ==> #[trigger] t[j] == s@[from + j]);
            }
            lemma_find_dcolon_none(t);
        }
        match parse_groups_range(s, from, to) {
            Some(v) => {
                proof {
                    lemma_parse_groups_range(t);
                    lemma_groups_val_bound(parse_groups(t)->Some_0);
                }
                if v.len() == 8 {
                    Some(combine_groups(&v))
                } else {
                    None
                }
            },
            None => None,
        }
    } else {
        proof {
            assert(t[d - from] == ':' && t[d - from + 1] == ':') by {
                assert(forall|j: int| 0 <= j < t.len() ==> #[trigger] t[j] == s@[from + j]);
            }
            assert(forall|j: int| 0 <= j < d - from ==> !(#[trigger] t[j] == ':' && t[j + 1] == ':')) by {
                assert(forall|j: int| 0 <= j < t.len() ==> #[trigger] t[j] == s@[from + j]);
            }
            lemma_find_dcolon_is(t, d - from);
            assert(t.take(d - from) =~= s@.subrange(from as int, d as int));
            assert(t.skip(d - from + 2) =~= s@.subrange(d + 2 as int, to as int));
        }
        let left: Option<Vec<u16>> = if d == from {
            Some(Vec::new())
        } else {
            parse_groups_range(s, from, d)
        };
        let right: Option<Vec<u16>> = if d + 2 == to {
            Some(Vec::new())
        } else {
            parse_groups_range(s, d + 2, to)
        };
        match (left, right) {
            (Some(a), Some(b)) => {
                proof {
                    if d > from {
                        lemma_parse_groups_range(t.take(d - from));
                    }
                    if d + 2 < to {
                        lemma_parse_groups_range(t.skip(d - from + 2));
                    }
                }
                if a.len() <= 7 && b.len() <= 7 - a.len() {
                    let mut full: Vec<u16> = Vec::new();
                    let mut k: usize = 0;
                    while k < a.len()
                        invariant
                            0 <= k <= a@.len(),
                            full@ == a@.take(k as int),
                        decreases a@.len() - k,
                    {
                        full.push(a[k]);
                        proof {
                            assert(full@ =~= a@.take(k + 1));
                        }
                        k = k + 1;
                    }
                    let zeros = 8 - a.len() - b.len();
                    let mut z: usize = 0;
                    while z < zeros
                        invariant
                            0 <= z <= zeros,
                            zeros == 8 - a@.len() - b@.len(),
                            a@.len() + b@.len() <= 7,
                            full@ == a@ + Seq::new(z as nat, |i: int| 0u16),
                        decreases zeros - z,
                    {
                        full.push(0);
                        proof {
                            assert(full@ =~= a@ + Seq::new((z + 1) as nat, |i: int| 0u16));
                        }
                        z = z + 1;
                    }
                    let mut k2: usize = 0;
                    while k2 < b.len()
                        invariant
                            0 <= k2 <= b@.len(),
                            zeros == 8 - a@.len() - b@.len(),
                            a@.len() + b@.len() <= 7,
                            full@ == a@ + Seq::new(zeros as nat, |i: int| 0u16) + b@.take(
                                k2 as int,
                            ),
                        decreases b@.len() - k2,
                    {
                        full.push(b[k2]);
                        proof {
                            assert(full@ =~= a@ + Seq::new(zeros as nat, |i: int| 0u16) + b@.take(
                                k2 + 1,
                            ));
                        }
                        k2 = k2 + 1;
                    }
                    proof {
                        assert(b@.take(b@.len() as int) =~= b@);
                        assert(a@.take(a@.len() as int) =~= a@);
                        let la = if d == from {
                            Seq::<int>::empty()
                        } else {
                            parse_groups(t.take(d - from))->Some_0
                        };
                        let lb = if d + 2 == to {
                            Seq::<int>::empty()
                        } else {
                            parse_groups(t.skip(d - from + 2))->Some_0
                        };
                        let padded = la + Seq::new((8 - la.len() - lb.len()) as nat, |i: int| 0)
                            + lb;
                        assert(full@.map_values(|g: u16| g as int) =~= padded);
                        assert(forall|k: int| 0 <= k < padded.len() ==> 0 <= #[trigger] padded[k]
                            < 0x10000);
                        lemma_groups_val_bound(padded);
                    }
                    Some(combine_groups(&full))
                } else {
                    None
                }
            },
            _ => None,
        }
    }
}

/// A 16-bit segment of a v6 address; segment 0 is the most significant.
pub open spec fn seg_div(k: int) -> int {
    if k == 7 {
        1
    } else if k == 6 {
        0x1_0000
    } else if k == 5 {
        0x1_0000_0000
    } else if k == 4 {
        0x1_0000_0000_0000
    } else if k == 3 {
        0x1_0000_0000_0000_0000
    } else if k == 2 {
        0x1_0000_0000_0000_0000_0000
    } else if k == 1 {
        0x1_0000_0000_0000_0000_0000_0000
    } else {
        0x1_0000_0000_0000_0000_0000_0000_0000
    }
}

/// The eight 16-bit segments of a v6 address, most significant first.
pub open spec fn segs(x: u128) -> Seq<int> {
    Seq::new(8, |k: int| (x as int / seg_div(k)) % 0x10000)
}

/// An address's segments rebuild it.
pub proof fn lemma_segs_rebuild(x: u128)
    ensures
        groups_val(segs(x)) == x as int,
        forall|k: int| 0 <= k < 8 ==> 0 <= #[trigger] segs(x)[k] < 0x10000,
{
    let v = x as int;
    let b = 0x10000;
    vstd::arithmetic::div_mod::lemma_div_denominator(v, b, b);
    vstd::arithmetic::div_mod::lemma_div_denominator(v, 0x1_0000_0000, b);
    vstd::arithmetic::div_mod::lemma_div_denominator(v, 0x1_0000_0000_0000, b);
    vstd::arithmetic::div_mod::lemma_div_denominator(v, 0x1_0000_0000_0000_0000, b);
    vstd::arithmetic::div_mod::lemma_div_denominator(v, 0x1_0000_0000_0000_0000_0000, b);
    vstd::arithmetic::div_mod::lemma_div_denominator(v, 0x1_0000_0000_0000_0000_0000_0000, b);
    assert(v == (v / b) * b + v % b);
    assert(v / b == (v / b / b) * b + (v / b) % b);
    assert(v / 0x1_0000_0000 == (v / 0x1_0000_0000 / b) * b + (v / 0x1_0000_0000) % b);
    assert(v / 0x1_0000_0000_0000 == (v / 0x1_0000_0000_0000 / b) * b + (v / 0x1_0000_0000_0000)
        % b);
    assert(v / 0x1_0000_0000_0000_0000 == (v / 0x1_0000_0000_0000_0000 / b) * b + (v
        / 0x1_0000_0000_0000_0000) % b);
    assert(v / 0x1_0000_0000_0000_0000_0000 == (v / 0x1_0000_0000_0000_0000_0000 / b) * b + (v
        / 0x1_0000_0000_0000_0000_0000) % b);
    assert(v / 0x1_0000_0000_0000_0000_0000_0000 == (v / 0x1_0000_0000_0000_0000_0000_0000 / b) * b
        + (v / 0x1_0000_0000_0000_0000_0000_0000) % b);
    assert(v / 0x1_0000_0000_0000_0000_0000_0000_0000 < 0x10000) by (nonlinear_arith)
        requires v < 0x1_0000_0000_0000_0000_0000_0000_0000_0000;
    assert(v / 0x1_0000_0000_0000_0000_0000_0000_0000 >= 0);
    let gs = segs(x);
    assert(gs.len() == 8);
    let g0 = gs[0];
    let g1 = gs[1];
    let g2 = gs[2];
    let g3 = gs[3];
    let g4 = gs[4];
    let g5 = gs[5];
    let g6 = gs[6];
    let g7 = gs[7];
    assert(seq![g0].drop_last() =~= Seq::<int>::empty());
    assert(seq![g0, g1].drop_last() =~= seq![g0]);
    assert(seq![g0, g1, g2].drop_last() =~= seq![g0, g1]);
    assert(seq![g0, g1, g2, g3].drop_last() =~= seq![g0, g1, g2]);
    assert(seq![g0, g1, g2, g3, g4].drop_last() =~= seq![g0, g1, g2, g3]);
    assert(seq![g0, g1, g2, g3, g4, g5].drop_last() =~= seq![g0, g1, g2, g3, g4]);
    assert(seq![g0, g1, g2, g3, g4, g5, g6].drop_last() =~= seq![g0, g1, g2, g3, g4, g5]);
    assert(gs =~= seq![g0, g1, g2, g3, g4, g5, g6, g7]);
    assert(gs.drop_last() =~= seq![g0, g1, g2, g3, g4, g5, g6]);
    assert(groups_val(Seq::<int>::empty()) == 0);
    assert(groups_val(seq![g0]) == g0);
    assert(groups_val(seq![g0, g1]) == g0 * 0x10000 + g1);
    assert(groups_val(seq![g0, g1]) == v / 0x1_0000_0000_0000_0000_0000_0000);
    assert(groups_val(seq![g0, g1, g2]) == v / 0x1_0000_0000_0000_0000_0000);
    assert(groups_val(seq![g0, g1, g2, g3]) == v / 0x1_0000_0000_0000_0000);
    assert(groups_val(seq![g0, g1, g2, g3, g4]) == v / 0x1_0000_0000_0000);
    assert(groups_val(seq![g0, g1, g2, g3, g4, g5]) == v / 0x1_0000_0000);
    assert(groups_val(seq![g0, g1, g2, g3, g4, g5, g6]) == v / 0x1_0000);
    assert(groups_val(gs) == v);
}

/// Extract the eight segments of a v6 address, most significant first.
pub fn ipv6_segments(x: u128) -> (r: Vec<u16>)
    ensures
        r@.map_values(|g: u16| g as int) == segs(x),
        r@.len() == 8,
{
    proof {
        lemma_segs_rebuild(x);
    }
    let mut v: Vec<u16> = Vec::new();
    v.push(((x / 0x1_0000_0000_0000_0000_0000_0000_0000) % 0x10000) as u16);
    v.push(((x / 0x1_0000_0000_0000_0000_0000_0000) % 0x10000) as u16);
    v.push(((x / 0x1_0000_0000_0000_0000_0000) % 0x10000) as u16);
    v.push(((x / 0x1_0000_0000_0000_0000) % 0x10000) as u16);
    v.push(((x / 0x1_0000_0000_0000) % 0x10000) as u16);
    v.push(((x / 0x1_0000_0000) % 0x10000) as u16);
    v.push(((x / 0x1_0000) % 0x10000) as u16);
    v.push((x % 0x10000) as u16);
    proof {
        assert(v@.map_values(|g: u16| g as int) =~= segs(x));
    }
    v
}

/// The colon-joined lowercase hex rendering of a group sequence.
pub open spec fn groups_str(gs: Seq<int>) -> Seq<char>
    decreases gs.len(),
{
    if gs.len() == 0 {
        Seq::empty()
    } else if gs.len() == 1 {
        hex_str(gs[0])
    } else {
        hex_str(gs[0]) + seq![':'] + groups_str(gs.skip(1))
    }
}

/// The uncompressed text rendering of a v6 address: eight lowercase hex
/// groups joined by single colons.
pub open spec fn ipv6_str(x: u128) -> Seq<char> {
    groups_str(segs(x))
}

/// Append the uncompressed rendering of `x` to `out`.
pub fn append_ipv6(out: &mut String, x: u128)
    ensures
        final(out)@ == old(out)@ + ipv6_str(x),
{
    let v = ipv6_segments(x);
    let ghost gs = segs(x);
    let mut i: usize = 0;
    proof {
        reveal_strlit(":");
        assert(gs.skip(0) =~= gs);
        assert(old(out)@ + (old(out)@ + groups_str(gs)).skip(old(out)@.len() as int) =~= old(out)@
            + groups_str(gs));
    }
    while i < 8
        invariant
            0 <= i <= 8,
            v@.len() == 8,
            v@.map_values(|g: u16| g as int) == gs,
            gs.len() == 8,
            ":"@ == seq![':'],
            i < 8 ==> old(out)@ + groups_str(gs) == out@ + groups_str(gs.skip(i as int)),
            i == 8 ==> old(out)@ + groups_str(gs) == out@,
        decreases 8 - i,
    {
        let ghost rest = gs.skip(i as int);
        let ghost out0 = out@;
        append_hex(out, v[i]);
        proof {
            assert(rest[0] == gs[i as int] && gs[i as int] == v@[i as int] as int);
        }
        if i + 1 < 8 {
            out.append(":");
            proof {
                assert(rest.len() >= 2);
                assert(rest.skip(1) =~= gs.skip(i + 1));
                assert(groups_str(rest) == hex_str(rest[0]) + seq![':'] + groups_str(rest.skip(1)));
                assert(out@ =~= out0 + hex_str(gs[i as int]) + seq![':']);
                assert(out0 + groups_str(rest) =~= out@ + groups_str(gs.skip(i + 1)));
            }
        } else {
            proof {
                assert(rest.len() == 1);
                assert(groups_str(rest) == hex_str(rest[0]));
                assert(out0 + groups_str(rest) =~= out@);
            }
        }
        i = i + 1;
    }
}

/// Rendering a group sequence and parsing it back round-trips; the
/// rendering holds only hex digits and single colons, and starts and ends
/// with a digit.
proof fn lemma_groups_str(gs: Seq<int>)
    requires
        gs.len() >= 1,
        forall|k: int| 0 <= k < gs.len() ==> 0 <= #[trigger] gs[k] < 0x10000,
    ensures
        parse_groups(groups_str(gs)) == Some(gs),
        groups_str(gs).len() >= 1,
        forall|i: int|
            0 <= i < groups_str(gs).len() ==> (is_hex_digit(#[trigger] groups_str(gs)[i])
                || groups_str(gs)[i] == ':'),
        is_hex_digit(groups_str(gs)[0]),
        is_hex_digit(groups_str(gs).last()),
        forall|i: int|
            0 <= i < groups_str(gs).len() - 1 ==> !(#[trigger] groups_str(gs)[i] == ':'
                && groups_str(gs)[i + 1] == ':'),
    decreases gs.len(),
{
    let s = groups_str(gs);
    let h = hex_str(gs[0]);
    lemma_hex_str_parses(gs[0]);
    if gs.len() == 1 {
        assert(s =~= h);
        lemma_find_char_none(s, ':');
        assert(parse_group(s) == Some(gs[0]));
        assert(seq![gs[0]] =~= gs);
    } else {
        let rest = gs.skip(1);
        assert(forall|k: int| 0 <= k < rest.len() ==> #[trigger] rest[k] == gs[k + 1]);
        lemma_groups_str(rest);
        let rs = groups_str(rest);
        assert(s == h + seq![':'] + rs);
        let nh = h.len() as int;
        assert(forall|j: int| 0 <= j < nh ==> #[trigger] s[j] == h[j]);
        assert(s[nh] == ':');
        assert(forall|j: int| 0 <= j < rs.len() ==> #[trigger] s[nh + 1 + j] == rs[j]);
        assert forall|i: int| 0 <= i < s.len() implies (is_hex_digit(#[trigger] s[i]) || s[i]
            == ':') by {
            if i < nh {
                assert(s[i] == h[i]);
            } else if i == nh {
            } else {
                assert(s[i] == rs[i - nh - 1]);
            }
        }
        assert forall|i: int| 0 <= i < s.len() - 1 implies !(#[trigger] s[i] == ':' && s[i + 1] == ':') by {
            if i < nh {
                assert(s[i] == h[i]);
            } else if i == nh {
                assert(s[i + 1] == rs[0]);
            } else {
                assert(s[i] == rs[i - nh - 1] && s[i + 1] == rs[i - nh]);
            }
        }
        lemma_find_char_is(s, ':', nh);
        assert(s.take(nh) =~= h);
        assert(s.skip(nh + 1) =~= rs);
        assert(parse_group(h) == Some(gs[0]));
        assert(seq![gs[0]] + rest =~= gs);
        assert(s.last() == rs.last());
    }
}

/// Rendering a v6 address uncompressed and parsing the rendering
/// round-trips; the rendering holds only hex digits and single colons.
pub proof fn lemma_ipv6_str(x: u128)
    ensures
        parse_ipv6(ipv6_str(x)) == Some(x),
        forall|i: int|
            0 <= i < ipv6_str(x).len() ==> (is_hex_digit(#[trigger] ipv6_str(x)[i]) || ipv6_str(
                x,
            )[i] == ':'),
{
    lemma_segs_rebuild(x);
    let gs = segs(x);
    let s = ipv6_str(x);
    lemma_groups_str(gs);
    lemma_find_dcolon_none(s);
    assert(parse_groups(s) == Some(gs));
    assert(gs.len() == 8);
    lemma_groups_val_bound(gs);
    assert(groups_val(gs) == x as int);
}

} // verus!
