//! The port grammar: comma-joined tokens, each a literal port, an
//! inclusive range `L-H`, or a named alias. Expansion yields the ports in
//! ascending order with duplicates removed.

use vstd::prelude::*;

use crate::error::ScanError;
use crate::text::{
    parse_dec, find_char, dec_str, is_dec_digit,
    lemma_parse_dec_digits, lemma_parse_dec_nonneg, lemma_dec_str_parses,
    lemma_find_char_is, lemma_find_char_none,
    scan_for, parse_dec_range, append_dec,
};

verus! {

/// Strictly ascending, hence duplicate-free.
pub open spec fn strict_sorted(q: Seq<u16>) -> bool {
    forall|i: int, j: int| 0 <= i < j < q.len() ==> q[i] < q[j]
}

/// Every expanded port is in 1..=65535.
pub open spec fn all_valid_ports(q: Seq<u16>) -> bool {
    forall|i: int| 0 <= i < q.len() ==> 1 <= #[trigger] q[i]
}

/// The curated set of well-known administrative ports.
pub open spec fn common_seq() -> Seq<u16> {
    seq![21u16, 22, 23, 25, 53, 80, 110, 135, 139, 143, 443, 445, 993, 995, 1433, 1521, 3306, 3389, 5432, 5900, 6379, 8080, 8443, 27017]
}

/// The first quarter of the most-open TCP ports.
pub open spec fn top100_seq_a() -> Seq<u16> {
    seq![7u16, 9, 13, 21, 22, 23, 25, 26, 37, 53, 79, 80, 81, 88, 106, 110, 111, 113, 119, 135, 139, 143, 144, 179, 199]
}

/// The second quarter of the most-open TCP ports.
pub open spec fn top100_seq_b() -> Seq<u16> {
    seq![389u16, 427, 443, 444, 445, 465, 513, 514, 515, 543, 544, 548, 554, 587, 631, 646, 873, 990, 993, 995, 1025, 1026, 1027, 1028, 1029]
}

/// The third quarter of the most-open TCP ports.
pub open spec fn top100_seq_c() -> Seq<u16> {
    seq![1110u16, 1433, 1720, 1723, 1755, 1900, 2000, 2001, 2049, 2121, 2717, 3000, 3128, 3306, 3389, 3986, 4899, 5000, 5009, 5051, 5060, 5101, 5190, 5357, 5432]
}

/// The last quarter of the most-open TCP ports.
pub open spec fn top100_seq_d() -> Seq<u16> {
    seq![5631u16, 5666, 5800, 5900, 6000, 6001, 6646, 7070, 8000, 8008, 8009, 8080, 8081, 8443, 8888, 9100, 9999, 10000, 32768, 49152, 49153, 49154, 49155, 49156, 49157]
}

/// The hundred statistically most-open TCP ports.
pub open spec fn top100_seq() -> Seq<u16> {
    top100_seq_a() + top100_seq_b() + top100_seq_c() + top100_seq_d()
}

/// The common web-service ports.
pub open spec fn web_seq() -> Seq<u16> {
    seq![80u16, 443, 8000, 8008, 8080, 8443, 8888, 9000, 3000, 5000]
}

/// The mail-service ports.
pub open spec fn mail_seq() -> Seq<u16> {
    seq![25u16, 110, 143, 465, 587, 993, 995]
}

/// The database-service ports.
pub open spec fn db_seq() -> Seq<u16> {
    seq![1433u16, 1521, 3306, 5432, 6379, 27017]
}

/// The ports a named alias stands for, or `None` when the name is not an
/// alias.
pub open spec fn alias_ports(t: Seq<char>) -> Option<Set<u16>> {
    if t == "common"@ {
        Some(common_seq().to_set())
    } else if t == "top100"@ {
        Some(top100_seq().to_set())
    } else if t == "web"@ {
        Some(web_seq().to_set())
    } else if t == "mail"@ {
        Some(mail_seq().to_set())
    } else if t == "db"@ {
        Some(db_seq().to_set())
    } else {
        None
    }
}

/// The ports one token stands for: an inclusive range when a dash is
/// present, else a literal port, else an alias. `None` on zero,
/// out-of-range, or malformed input.
pub open spec fn port_token_ports(t: Seq<char>) -> Option<Set<u16>> {
    let i = find_char(t, '-');
    if i >= 0 {
        let lo = parse_dec(t.take(i));
        let hi = parse_dec(t.skip(i + 1));
        if lo is Some && hi is Some && 1 <= lo->Some_0 && lo->Some_0 <= hi->Some_0 && hi->Some_0
            <= 65535 {
            Some(Set::new(|p: u16| { lo->Some_0 <= p as int && p as int <= hi->Some_0 }))
        } else {
            None
        }
    } else {
        match parse_dec(t) {
            Some(v) => if 1 <= v && v <= 65535 {
                Some(Set::empty().insert(v as u16))
            } else {
                None
            },
            None => alias_ports(t),
        }
    }
}

/// The ports a comma-joined specification stands for: the union over its
/// tokens, or `None` as soon as one token is malformed.
pub open spec fn ports_spec(s: Seq<char>) -> Option<Set<u16>>
    decreases s.len(),
{
    let i = find_char(s, ',');
    if i < 0 || i >= s.len() {
        port_token_ports(s)
    } else {
        match (port_token_ports(s.take(i)), ports_spec(s.skip(i + 1))) {
            (Some(a), Some(b)) => Some(a.union(b)),
            _ => None,
        }
    }
}

/// Insert a port into an ascending duplicate-free vector, keeping it so.
pub fn insert_port(v: &mut Vec<u16>, x: u16)
    requires
        strict_sorted(old(v)@),
    ensures
        strict_sorted(final(v)@),
        final(v)@.to_set() == old(v)@.to_set().insert(x),
        all_valid_ports(old(v)@) && x >= 1 ==> all_valid_ports(final(v)@),
{
    let mut i: usize = v.len();
    while i > 0 && *v.get(i - 1).unwrap() > x
        invariant
            0 <= i <= v.len(),
            strict_sorted(v@),
            v == old(v),
            forall|j: int| i <= j < v@.len() ==> v@[j] > x,
        decreases i,
    {
        i = i - 1;
    }
    if i > 0 && *v.get(i - 1).unwrap() == x {
        proof {
            assert(old(v)@.to_set().contains(x));
            assert(final(v)@.to_set() =~= old(v)@.to_set().insert(x));
        }
        return;
    }
    v.insert(i, x);
    proof {
        let nv = final(v)@;
        let ov = old(v)@;
        assert(forall|j: int| 0 <= j < i ==> nv[j] == ov[j]);
        assert(forall|j: int| i < j < nv.len() ==> nv[j] == ov[j - 1]);
        assert(forall|j: int| 0 <= j < i ==> nv[j] < x) by {
            assert(forall|j: int| 0 <= j < i - 1 ==> #[trigger] ov[j] < ov[i - 1]);
        }
        assert(strict_sorted(nv));
        assert(nv.to_set() =~= ov.to_set().insert(x)) by {
            assert(forall|e: u16| nv.contains(e) ==> e == x || ov.contains(e)) by {
                assert(forall|j: int| 0 <= j < nv.len() && j != i ==> #[trigger] nv[j] == ov[
                    if j < i { j } else { j - 1 }
                ]);
            }
            assert(forall|e: u16| ov.contains(e) ==> nv.contains(e)) by {
                assert(forall|j: int| 0 <= j < ov.len() ==> #[trigger] ov[j] == nv[
                    if j < i { j } else { j + 1 }
                ]);
            }
            assert(nv.contains(x)) by {
                assert(nv[i as int] == x);
            }
        }
    }
}

/// Insert every port of `src` into `v`.
fn insert_all(v: &mut Vec<u16>, src: &Vec<u16>)
    requires
        strict_sorted(old(v)@),
        forall|i: int| 0 <= i < src@.len() ==> 1 <= #[trigger] src@[i],
    ensures
        strict_sorted(final(v)@),
        final(v)@.to_set() == old(v)@.to_set().union(src@.to_set()),
        all_valid_ports(old(v)@) ==> all_valid_ports(final(v)@),
{
    let mut k: usize = 0;
    while k < src.len()
        invariant
            0 <= k <= src@.len(),
            strict_sorted(v@),
            v@.to_set() == old(v)@.to_set().union(src@.take(k as int).to_set()),
            forall|i: int| 0 <= i < src@.len() ==> 1 <= #[trigger] src@[i],
            all_valid_ports(old(v)@) ==> all_valid_ports(v@),
        decreases src@.len() - k,
    {
        insert_port(v, src[k]);
        proof {
            assert(src@.take(k + 1).drop_last() =~= src@.take(k as int));
            assert(src@.take(k + 1).last() == src@[k as int]);
            assert(src@.take(k + 1).to_set() =~= src@.take(k as int).to_set().insert(src@[k as int]))
                by {
                assert(forall|e: u16| src@.take(k + 1).contains(e) <==> src@.take(
                    k as int,
                ).contains(e) || e == src@[k as int]) by {
                    assert(forall|j: int|
                        0 <= j < k + 1 ==> #[trigger] src@.take(k + 1)[j] == if j < k {
                            src@.take(k as int)[j]
                        } else {
                            src@[k as int]
                        });
                }
            }
            assert(v@.to_set() =~= old(v)@.to_set().union(src@.take(k + 1).to_set()));
        }
        k = k + 1;
    }
    proof {
        assert(src@.take(src@.len() as int) =~= src@);
    }
}

/// Insert the inclusive range `lo..=hi` into `v`.
fn insert_range(v: &mut Vec<u16>, lo: u16, hi: u16)
    requires
        strict_sorted(old(v)@),
        1 <= lo && lo <= hi,
    ensures
        strict_sorted(final(v)@),
        final(v)@.to_set() == old(v)@.to_set().union(
            Set::new(|p: u16| { lo as int <= p as int && p as int <= hi as int }),
        ),
        all_valid_ports(old(v)@) ==> all_valid_ports(final(v)@),
{
    let mut p: u32 = lo as u32;
    while p <= hi as u32
        invariant
            1 <= lo && lo <= hi,
            lo as u32 <= p && p <= hi as u32 + 1,
            strict_sorted(v@),
            v@.to_set() == old(v)@.to_set().union(
                Set::new(|q: u16| { lo as int <= q as int && (q as int) < p as int }),
            ),
            all_valid_ports(old(v)@) ==> all_valid_ports(v@),
        decreases hi as u32 + 1 - p,
    {
        proof {
            assert(p >= 1 && p <= hi as u32);
            assert(p as u16 as u32 == p);
        }
        insert_port(v, p as u16);
        proof {
            assert(v@.to_set() =~= old(v)@.to_set().union(
                Set::new(|q: u16| { lo as int <= q as int && (q as int) < p as int + 1 }),
            ));
        }
        p = p + 1;
    }
    proof {
        assert(Set::new(|q: u16| { lo as int <= q as int && (q as int) < p as int }) =~= Set::new(
            |q: u16| { lo as int <= q as int && q as int <= hi as int },
        ));
    }
}

/// The curated common ports, ascending.
pub fn common_ports_vec() -> (v: Vec<u16>)
    ensures
        v@ == common_seq(),
{
    let mut v: Vec<u16> = Vec::new();
    v.push(21);
    v.push(22);
    v.push(23);
    v.push(25);
    v.push(53);
    v.push(80);
    v.push(110);
    v.push(135);
    v.push(139);
    v.push(143);
    v.push(443);
    v.push(445);
    v.push(993);
    v.push(995);
    v.push(1433);
    v.push(1521);
    v.push(3306);
    v.push(3389);
    v.push(5432);
    v.push(5900);
    v.push(6379);
    v.push(8080);
    v.push(8443);
    v.push(27017);
    proof {
        assert(v@ =~= common_seq());
    }
    v
}

fn top100_vec_a() -> (v: Vec<u16>)
    ensures
        v@ == top100_seq_a(),
{
    let mut v: Vec<u16> = Vec::new();
    v.push(7);
    v.push(9);
    v.push(13);
    v.push(21);
    v.push(22);
    v.push(23);
    v.push(25);
    v.push(26);
    v.push(37);
    v.push(53);
    v.push(79);
    v.push(80);
    v.push(81);
    v.push(88);
    v.push(106);
    v.push(110);
    v.push(111);
    v.push(113);
    v.push(119);
    v.push(135);
    v.push(139);
    v.push(143);
    v.push(144);
    v.push(179);
    v.push(199);
    proof {
        assert(v@ =~= top100_seq_a());
    }
    v
}

fn top100_vec_b() -> (v: Vec<u16>)
    ensures
        v@ == top100_seq_b(),
{
    let mut v: Vec<u16> = Vec::new();
    v.push(389);
    v.push(427);
    v.push(443);
    v.push(444);
    v.push(445);
    v.push(465);
    v.push(513);
    v.push(514);
    v.push(515);
    v.push(543);
    v.push(544);
    v.push(548);
    v.push(554);
    v.push(587);
    v.push(631);
    v.push(646);
    v.push(873);
    v.push(990);
    v.push(993);
    v.push(995);
    v.push(1025);
    v.push(1026);
    v.push(1027);
    v.push(1028);
    v.push(1029);
    proof {
        assert(v@ =~= top100_seq_b());
    }
    v
}

fn top100_vec_c() -> (v: Vec<u16>)
    ensures
        v@ == top100_seq_c(),
{
    let mut v: Vec<u16> = Vec::new();
    v.push(1110);
    v.push(1433);
    v.push(1720);
    v.push(1723);
    v.push(1755);
    v.push(1900);
    v.push(2000);
    v.push(2001);
    v.push(2049);
    v.push(2121);
    v.push(2717);
    v.push(3000);
    v.push(3128);
    v.push(3306);
    v.push(3389);
    v.push(3986);
    v.push(4899);
    v.push(5000);
    v.push(5009);
    v.push(5051);
    v.push(5060);
    v.push(5101);
    v.push(5190);
    v.push(5357);
    v.push(5432);
    proof {
        assert(v@ =~= top100_seq_c());
    }
    v
}

fn top100_vec_d() -> (v: Vec<u16>)
    ensures
        v@ == top100_seq_d(),
{
    let mut v: Vec<u16> = Vec::new();
    v.push(5631);
    v.push(5666);
    v.push(5800);
    v.push(5900);
    v.push(6000);
    v.push(6001);
    v.push(6646);
    v.push(7070);
    v.push(8000);
    v.push(8008);
    v.push(8009);
    v.push(8080);
    v.push(8081);
    v.push(8443);
    v.push(8888);
    v.push(9100);
    v.push(9999);
    v.push(10000);
    v.push(32768);
    v.push(49152);
    v.push(49153);
    v.push(49154);
    v.push(49155);
    v.push(49156);
    v.push(49157);
    proof {
        assert(v@ =~= top100_seq_d());
    }
    v
}

/// The hundred statistically most-open TCP ports, ascending.
pub fn top100_ports_vec() -> (v: Vec<u16>)
    ensures
        v@ == top100_seq(),
{
    let mut v = top100_vec_a();
    let mut b = top100_vec_b();
    v.append(&mut b);
    let mut c = top100_vec_c();
    v.append(&mut c);
    let mut d = top100_vec_d();
    v.append(&mut d);
    v
}

/// The web-service ports, in their declared order.
pub fn web_ports_vec() -> (v: Vec<u16>)
    ensures
        v@ == web_seq(),
{
    let mut v: Vec<u16> = Vec::new();
    v.push(80);
    v.push(443);
    v.push(8000);
    v.push(8008);
    v.push(8080);
    v.push(8443);
    v.push(8888);
    v.push(9000);
    v.push(3000);
    v.push(5000);
    proof {
        assert(v@ =~= web_seq());
    }
    v
}

/// The mail-service ports, ascending.
pub fn mail_ports_vec() -> (v: Vec<u16>)
    ensures
        v@ == mail_seq(),
{
    let mut v: Vec<u16> = Vec::new();
    v.push(25);
    v.push(110);
    v.push(143);
    v.push(465);
    v.push(587);
    v.push(993);
    v.push(995);
    proof {
        assert(v@ =~= mail_seq());
    }
    v
}

/// The database-service ports, ascending.
pub fn db_ports_vec() -> (v: Vec<u16>)
    ensures
        v@ == db_seq(),
{
    let mut v: Vec<u16> = Vec::new();
    v.push(1433);
    v.push(1521);
    v.push(3306);
    v.push(5432);
    v.push(6379);
    v.push(27017);
    proof {
        assert(v@ =~= db_seq());
    }
    v
}

/// Compare `s[from..to]` with a literal.
pub fn range_eq(s: &str, from: usize, to: usize, lit: &str) -> (r: bool)
    requires
        from <= to <= s@.len(),
    ensures
        r == (s@.subrange(from as int, to as int) == lit@),
{
    let n = lit.unicode_len();
    if to - from != n {
        proof {
            assert(s@.subrange(from as int, to as int).len() != lit@.len());
        }
        return false;
    }
    let mut i: usize = 0;
    while i < n
        invariant
            from <= to <= s@.len(),
            to - from == n == lit@.len(),
            0 <= i <= n,
            forall|j: int| 0 <= j < i ==> s@.subrange(from as int, to as int)[j] == lit@[j],
        decreases n - i,
    {
        if s.get_char(from + i) != lit.get_char(i) {
            proof {
                assert(s@.subrange(from as int, to as int)[i as int] != lit@[i as int]);
            }
            return false;
        }
        i = i + 1;
    }
    proof {
        assert(s@.subrange(from as int, to as int) =~= lit@);
    }
    true
}

/// Expand the alias token `s[from..to]` into `v`; false when the token is
/// not an alias.
fn expand_alias(v: &mut Vec<u16>, s: &str, from: usize, to: usize) -> (r: bool)
    requires
        from <= to <= s@.len(),
        strict_sorted(old(v)@),
        all_valid_ports(old(v)@),
    ensures
        strict_sorted(final(v)@),
        all_valid_ports(final(v)@),
        ({
            let t = s@.subrange(from as int, to as int);
            match alias_ports(t) {
                Some(ps) => r && final(v)@.to_set() == old(v)@.to_set().union(ps),
                None => !r && *final(v) == *old(v),
            }
        }),
{
    proof {
        // the alias sequences hold valid ports
        assert(forall|i: int| 0 <= i < common_seq().len() ==> 1 <= #[trigger] common_seq()[i]);
        assert(forall|i: int| 0 <= i < top100_seq().len() ==> 1 <= #[trigger] top100_seq()[i]);
        assert(forall|i: int| 0 <= i < web_seq().len() ==> 1 <= #[trigger] web_seq()[i]);
        assert(forall|i: int| 0 <= i < mail_seq().len() ==> 1 <= #[trigger] mail_seq()[i]);
        assert(forall|i: int| 0 <= i < db_seq().len() ==> 1 <= #[trigger] db_seq()[i]);
    }
    if range_eq(s, from, to, "common") {
        let src = common_ports_vec();
        insert_all(v, &src);
        true
    } else if range_eq(s, from, to, "top100") {
        let src = top100_ports_vec();
        insert_all(v, &src);
        true
    } else if range_eq(s, from, to, "web") {
        let src = web_ports_vec();
        insert_all(v, &src);
        true
    } else if range_eq(s, from, to, "mail") {
        let src = mail_ports_vec();
        insert_all(v, &src);
        true
    } else if range_eq(s, from, to, "db") {
        let src = db_ports_vec();
        insert_all(v, &src);
        true
    } else {
        false
    }
}

/// Expand the token `s[from..to]` into `v`; false when the token is
/// malformed.
fn expand_port_token(v: &mut Vec<u16>, s: &str, from: usize, to: usize) -> (r: bool)
    requires
        from <= to <= s@.len(),
        strict_sorted(old(v)@),
        all_valid_ports(old(v)@),
    ensures
        strict_sorted(final(v)@),
        all_valid_ports(final(v)@),
        ({
            let t = s@.subrange(from as int, to as int);
            match port_token_ports(t) {
                Some(ps) => r && final(v)@.to_set() == old(v)@.to_set().union(ps),
                None => !r,
            }
        }),
{
    let ghost t = s@.subrange(from as int, to as int);
    let dash = scan_for(s, from, to, '-');
    if dash < to {
        proof {
            assert(t[dash - from] == '-');
            assert(forall|j: int| 0 <= j < dash - from ==> t[j] != '-');
            lemma_find_char_is(t, '-', dash - from);
            assert(t.take(dash - from) =~= s@.subrange(from as int, dash as int));
            assert(t.skip(dash - from + 1) =~= s@.subrange(dash + 1 as int, to as int));
            lemma_parse_dec_nonneg(t.take(dash - from));
            lemma_parse_dec_nonneg(t.skip(dash - from + 1));
        }
        let lo = parse_dec_range(s, from, dash, 65535);
        let hi = parse_dec_range(s, dash + 1, to, 65535);
        match (lo, hi) {
            (Some(l), Some(h)) => {
                if 1 <= l && l <= h {
                    let ghost lov = parse_dec(t.take(dash - from))->Some_0;
                    let ghost hiv = parse_dec(t.skip(dash - from + 1))->Some_0;
                    proof {
                        assert(l as int == lov && h as int == hiv);
                    }
                    insert_range(v, l as u16, h as u16);
                    proof {
                        assert(Set::new(
                            |p: u16| {
                                (l as u16) as int <= p as int && p as int <= (h as u16) as int
                            },
                        ) =~= Set::new(|p: u16| { lov <= p as int && p as int <= hiv }));
                    }
                    true
                } else {
                    false
                }
            },
            _ => false,
        }
    } else {
        proof {
            lemma_find_char_none(t, '-');
            lemma_parse_dec_nonneg(t);
        }
        match parse_dec_range(s, from, to, 65535) {
            Some(x) => {
                if x >= 1 {
                    insert_port(v, x as u16);
                    proof {
                        assert(old(v)@.to_set().insert(x as u16) =~= old(v)@.to_set().union(
                            Set::empty().insert(x as u16),
                        ));
                    }
                    true
                } else {
                    false
                }
            },
            None => {
                if parse_dec_range(s, from, to, u32::MAX).is_some() {
                    // a digit run above 65535: out of range
                    false
                } else {
                    proof {
                        // a digit run longer than a word is no alias: alias
                        // names start with a letter
                        if parse_dec(t) is Some && alias_ports(t) is Some {
                            lemma_parse_dec_digits(t);
                            reveal_strlit("common");
                            reveal_strlit("top100");
                            reveal_strlit("web");
                            reveal_strlit("mail");
                            reveal_strlit("db");
                            assert(t.len() > 0 && is_dec_digit(t[0]));
                            assert(false);
                        }
                    }
                    expand_alias(v, s, from, to)
                }
            },
        }
    }
}

/// Parse a port specification: comma-joined literals, inclusive ranges
/// `L-H`, and the aliases `common`, `top100`, `web`, `mail`, `db`. The
/// result is ascending and duplicate-free; its ports are exactly those the
/// specification stands for. Fails on zero, out-of-range, or malformed
/// input.
pub fn parse_ports(s: &str) -> (r: Result<Vec<u16>, ScanError>)
    ensures
        match r {
            Ok(v) => {
                &&& ports_spec(s@) == Some(v@.to_set())
                &&& strict_sorted(v@)
                &&& all_valid_ports(v@)
                &&& v@.to_set().len() == v@.len()
            },
            Err(e) => ports_spec(s@) is None && e is Spec,
        },
{
    let n = s.unicode_len();
    let mut v: Vec<u16> = Vec::new();
    let mut p: usize = 0;
    proof {
        assert(s@.skip(0) =~= s@);
        if ports_spec(s@) is Some {
            let rest = ports_spec(s@)->Some_0;
            assert(Set::<u16>::empty().union(rest) =~= rest);
            assert(v@.to_set() =~= Set::<u16>::empty());
        }
    }
    loop
        invariant
            0 <= p <= n,
            n == s@.len(),
            strict_sorted(v@),
            all_valid_ports(v@),
            // what the suffix still owes: combined with what is collected,
            // it yields the whole specification's set
            match ports_spec(s@.skip(p as int)) {
                Some(rest) => ports_spec(s@) == Some(v@.to_set().union(rest)),
                None => ports_spec(s@) is None,
            },
        decreases n - p,
    {
        let q = scan_for(s, p, n, ',');
        let ghost suffix = s@.skip(p as int);
        let ghost tok = s@.subrange(p as int, q as int);
        proof {
            assert(forall|j: int| 0 <= j < suffix.len() ==> suffix[j] == #[trigger] s@[p + j]);
            if q < n {
                assert(suffix[q - p] == ',');
                lemma_find_char_is(suffix, ',', q - p);
                assert(suffix.take(q - p) =~= tok);
                assert(suffix.skip(q - p + 1) =~= s@.skip(q + 1 as int));
            } else {
                lemma_find_char_none(suffix, ',');
                assert(suffix =~= tok);
            }
        }
        let ghost before = v@.to_set();
        let ok = expand_port_token(&mut v, s, p, q);
        if !ok {
            proof {
                assert(port_token_ports(tok) is None);
                assert(ports_spec(suffix) is None);
            }
            return Err(ScanError::Spec(String::from_str("bad port specification")));
        }
        let ghost ts = port_token_ports(tok)->Some_0;
        proof {
            assert(v@.to_set() == before.union(ts));
        }
        if q == n {
            proof {
                assert(ports_spec(suffix) == Some(ts));
                assert(before.union(ts) =~= v@.to_set());
                assert(forall|i: int, j: int| 0 <= i < j < v@.len() ==> v@[i] != v@[j]);
                v@.unique_seq_to_set();
            }
            return Ok(v);
        }
        proof {
            let after = s@.skip(q + 1 as int);
            if ports_spec(after) is Some {
                let rest = ports_spec(after)->Some_0;
                assert(ports_spec(suffix) == Some(ts.union(rest)));
                assert(before.union(ts.union(rest)) =~= before.union(ts).union(rest));
            } else {
                assert(ports_spec(suffix) is None);
            }
        }
        p = q + 1;
    }
}

/// The comma-joined decimal rendering of a port sequence.
pub open spec fn ports_str(q: Seq<u16>) -> Seq<char>
    decreases q.len(),
{
    if q.len() == 0 {
        Seq::empty()
    } else if q.len() == 1 {
        dec_str(q[0] as int)
    } else {
        dec_str(q[0] as int) + seq![','] + ports_str(q.skip(1))
    }
}

/// Render an expanded port list, comma-joined.
pub fn render_ports(v: &Vec<u16>) -> (r: String)
    ensures
        r@ == ports_str(v@),
{
    let mut out = String::new();
    if v.len() == 0 {
        return out;
    }
    let mut i: usize = 0;
    proof {
        reveal_strlit(",");
        assert(v@.skip(0) =~= v@);
        assert(out@ + ports_str(v@) =~= ports_str(v@));
    }
    while i < v.len()
        invariant
            0 <= i <= v@.len(),
            1 <= v@.len(),
            ","@ == seq![','],
            // the rendering of the whole equals what is emitted so far plus
            // the rendering of the rest
            i < v@.len() ==> ports_str(v@) == out@ + ports_str(v@.skip(i as int)),
            i == v@.len() ==> ports_str(v@) == out@,
        decreases v@.len() - i,
    {
        let ghost rest = v@.skip(i as int);
        let ghost out0 = out@;
        append_dec(&mut out, v[i] as u32);
        if i + 1 < v.len() {
            out.append(",");
            proof {
                assert(rest.len() >= 2);
                assert(rest[0] == v@[i as int]);
                assert(rest.skip(1) =~= v@.skip(i + 1));
                assert(ports_str(rest) == dec_str(rest[0] as int) + seq![','] + ports_str(
                    rest.skip(1),
                ));
                assert(out@ =~= out0 + dec_str(v@[i as int] as int) + seq![',']);
                assert(out0 + ports_str(rest) =~= out@ + ports_str(v@.skip(i + 1)));
            }
        } else {
            proof {
                assert(rest.len() == 1);
                assert(rest[0] == v@[i as int]);
                assert(ports_str(rest) == dec_str(rest[0] as int));
                assert(out0 + ports_str(rest) =~= out@);
            }
        }
        i = i + 1;
    }
    out
}

/// Expansion is idempotent: rendering an expanded, ascending,
/// duplicate-free port list and expanding the rendering yields the same
/// set of ports. (An empty list renders as the empty specification, which
/// is rejected, so one port at least is required.)
pub proof fn lemma_port_expansion_idempotent(q: Seq<u16>)
    requires
        strict_sorted(q),
        all_valid_ports(q),
        q.len() >= 1,
    ensures
        ports_spec(ports_str(q)) == Some(q.to_set()),
    decreases q.len(),
{
    let s = ports_str(q);
    let d = dec_str(q[0] as int);
    lemma_dec_str_parses(q[0] as int);
    if q.len() == 1 {
        assert(s =~= d);
        lemma_find_char_none(s, ',');
        lemma_find_char_none(s, '-');
        assert(port_token_ports(s) == Some(Set::<u16>::empty().insert(q[0])));
        assert(Set::<u16>::empty().insert(q[0]) =~= q.to_set()) by {
            assert(q.contains(q[0]));
            assert(forall|e: u16| q.contains(e) ==> e == q[0]);
        }
    } else {
        let rest = q.skip(1);
        assert(strict_sorted(rest) && all_valid_ports(rest)) by {
            assert(forall|j: int| 0 <= j < rest.len() ==> #[trigger] rest[j] == q[j + 1]);
        }
        lemma_port_expansion_idempotent(rest);
        assert(s == d + seq![','] + ports_str(rest));
        assert(s.len() == d.len() + 1 + ports_str(rest).len());
        assert(forall|j: int| 0 <= j < d.len() ==> #[trigger] s[j] == d[j]);
        assert(s[d.len() as int] == ',');
        lemma_find_char_is(s, ',', d.len() as int);
        assert(s.take(d.len() as int) =~= d);
        assert(s.skip(d.len() as int + 1) =~= ports_str(rest));
        lemma_find_char_none(d, '-');
        assert(port_token_ports(d) == Some(Set::<u16>::empty().insert(q[0])));
        assert(ports_spec(s) == Some(
            Set::<u16>::empty().insert(q[0]).union(rest.to_set()),
        ));
        assert(Set::<u16>::empty().insert(q[0]).union(rest.to_set()) =~= q.to_set()) by {
            assert(q.contains(q[0]));
            assert(forall|e: u16| rest.contains(e) ==> q.contains(e)) by {
                assert(forall|j: int| 0 <= j < rest.len() ==> #[trigger] rest[j] == q[j + 1]);
            }
            assert(forall|e: u16| q.contains(e) && e != q[0] ==> rest.contains(e)) by {
                assert(forall|j: int| 1 <= j < q.len() ==> #[trigger] q[j] == rest[j - 1]);
            }
        }
    }
}

} // verus!
