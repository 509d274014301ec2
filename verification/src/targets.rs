//! The target grammar: comma-joined tokens, each a literal v4 or v6
//! address, a v4 dash range within one /24, or a CIDR block. Expansion
//! yields the addresses in first-seen order with duplicates removed.
//! Hostname tokens are not address-shaped; the caller resolves them to
//! literals before expansion.

use vstd::prelude::*;

use crate::error::ScanError;
use crate::net::Address;
use crate::addr4::{parse_ipv4, parse_ipv4_range, ipv4_str, append_ipv4, lemma_ipv4_str};
use crate::addr6::{parse_ipv6, parse_ipv6_range, ipv6_str, append_ipv6, lemma_ipv6_str};
use crate::text::{
    parse_dec, find_char, lemma_parse_dec_nonneg,
    lemma_find_char_is, lemma_find_char_none,
    scan_for, parse_dec_range,
};
use vstd::arithmetic::power2::{pow2, lemma_pow2_adds, lemma_pow2_pos, lemma2_to64};

verus! {

/// The size of a CIDR block with the given prefix length.
pub open spec fn cidr_block(p: int) -> int {
    pow2((32 - p) as nat) as int
}

/// The network base of `a` under the given prefix length.
pub open spec fn cidr_base(a: u32, p: int) -> int {
    a as int - (a as int % cidr_block(p))
}

/// The host addresses a CIDR block enumerates: network and broadcast are
/// excluded for prefixes up to 30; a /31 takes both addresses and a /32
/// the one written.
pub open spec fn cidr_hosts(a: u32, p: int) -> Seq<u32>
    recommends
        0 <= p <= 32,
{
    if p == 32 {
        seq![a]
    } else if p == 31 {
        seq![cidr_base(a, 31) as u32, (cidr_base(a, 31) + 1) as u32]
    } else {
        Seq::new((cidr_block(p) - 2) as nat, |i: int| (cidr_base(a, p) + 1 + i) as u32)
    }
}

/// The addresses of an inclusive v4 range.
pub open spec fn range_hosts(a: u32, b: u32) -> Seq<u32>
    recommends
        a <= b,
{
    Seq::new((b - a + 1) as nat, |i: int| (a + i) as u32)
}

/// Compute 2^(32-p) and the block base, with the base aligned and the
/// whole block still inside the address space.
fn cidr_arith(a: u32, p: u8) -> (r: (u64, u64))
    requires
        p <= 31,
    ensures
        r.0 as int == cidr_block(p as int),
        r.1 as int == cidr_base(a, p as int),
        r.1 + r.0 <= 0x1_0000_0000,
        2 <= r.0,
{
    let mut block: u64 = 1;
    let mut k: u8 = 0;
    proof {
        lemma2_to64();
    }
    while k < 32 - p
        invariant
            k <= 32 - p <= 32,
            block as int == pow2(k as nat),
            block <= 0x1_0000_0000,
        decreases 32 - p - k,
    {
        proof {
            lemma2_to64();
            lemma_pow2_adds(k as nat, 1);
            lemma_pow2_adds((k + 1) as nat, (31 - p - k) as nat);
            lemma_pow2_pos((31 - p - k) as nat);
            assert(pow2((k + 1) as nat) <= pow2((k + 1) as nat) * pow2((31 - p - k) as nat))
                by (nonlinear_arith)
                requires pow2((31 - p - k) as nat) >= 1, pow2((k + 1) as nat) >= 0;
        }
        block = block * 2;
        k = k + 1;
    }
    let quot: u64 = (a as u64) / block;
    proof {
        lemma_pow2_pos((32 - p) as nat);
        assert(block as int >= 1);
        vstd::arithmetic::div_mod::lemma_fundamental_div_mod(a as int, block as int);
        vstd::arithmetic::div_mod::lemma_mod_bound(a as int, block as int);
        assert(quot as int == a as int / block as int);
        assert(quot as int * block as int <= a as int) by (nonlinear_arith)
            requires
                quot as int == a as int / block as int,
                a as int == block as int * (a as int / block as int) + a as int % block as int,
                a as int % block as int >= 0,
        ;
    }
    let base: u64 = quot * block;
    proof {
        let ai = a as int;
        let bl = block as int;
        vstd::arithmetic::div_mod::lemma_fundamental_div_mod(ai, bl);
        assert(ai == (ai / bl) * bl + ai % bl) by (nonlinear_arith)
            requires ai == bl * (ai / bl) + ai % bl;
        assert(base as int == ai - ai % bl);
        // the next block boundary is still within the address space
        lemma2_to64();
        lemma_pow2_adds((32 - p) as nat, p as nat);
        lemma_pow2_pos(p as nat);
        assert(ai / bl < pow2(p as nat)) by (nonlinear_arith)
            requires
                0 <= ai < pow2((32 - p) as nat) * pow2(p as nat),
                bl == pow2((32 - p) as nat),
                bl >= 1,
        ;
        assert((ai / bl) * bl + bl <= pow2(p as nat) * bl) by (nonlinear_arith)
            requires ai / bl < pow2(p as nat), bl >= 1;
        assert(pow2(p as nat) * bl == 0x1_0000_0000) by {
            lemma_pow2_adds(p as nat, (32 - p) as nat);
        }
        assert(pow2((32 - p) as nat) >= 2) by {
            lemma_pow2_adds(1, (31 - p) as nat);
            lemma_pow2_pos((31 - p) as nat);
            assert(2 * pow2((31 - p) as nat) >= 2) by (nonlinear_arith)
                requires pow2((31 - p) as nat) >= 1;
        }
    }
    (block, base)
}

/// Enumerate the host addresses of `a/p`.
pub fn expand_cidr(a: u32, p: u8) -> (r: Vec<u32>)
    requires
        p <= 32,
    ensures
        r@ == cidr_hosts(a, p as int),
{
    let mut out: Vec<u32> = Vec::new();
    if p == 32 {
        out.push(a);
        proof {
            assert(out@ =~= cidr_hosts(a, 32));
        }
        return out;
    }
    let (block, base) = cidr_arith(a, p);
    if p == 31 {
        out.push(base as u32);
        out.push((base + 1) as u32);
        proof {
            assert(out@ =~= cidr_hosts(a, 31));
        }
        return out;
    }
    let count = block - 2;
    let mut i: u64 = 0;
    while i < count
        invariant
            0 <= i <= count,
            count == block - 2,
            block as int == cidr_block(p as int),
            base as int == cidr_base(a, p as int),
            base + block <= 0x1_0000_0000,
            p < 31,
            out@ =~= Seq::new(i as nat, |j: int| (cidr_base(a, p as int) + 1 + j) as u32),
        decreases count - i,
    {
        out.push((base + 1 + i) as u32);
        proof {
            assert(out@ =~= Seq::new((i + 1) as nat, |j: int| (cidr_base(a, p as int) + 1 + j) as u32));
        }
        i = i + 1;
    }
    proof {
        assert(out@ =~= cidr_hosts(a, p as int));
    }
    out
}

/// Enumerate the addresses of the inclusive range `a..=b`.
pub fn expand_range(a: u32, b: u32) -> (r: Vec<u32>)
    requires
        a <= b,
    ensures
        r@ == range_hosts(a, b),
{
    let mut out: Vec<u32> = Vec::new();
    let mut i: u64 = 0;
    let count: u64 = (b - a) as u64 + 1;
    while i < count
        invariant
            0 <= i <= count,
            count == b - a + 1,
            a <= b,
            out@ =~= Seq::new(i as nat, |j: int| (a + j) as u32),
        decreases count - i,
    {
        out.push((a as u64 + i) as u32);
        proof {
            assert(out@ =~= Seq::new((i + 1) as nat, |j: int| (a + j) as u32));
        }
        i = i + 1;
    }
    proof {
        assert(out@ =~= range_hosts(a, b));
    }
    out
}

/// The address a literal token stands for.
pub open spec fn addr_literal(t: Seq<char>) -> Option<Address> {
    match parse_ipv4(t) {
        Some(a) => Some(Address::V4(a)),
        None => match parse_ipv6(t) {
            Some(x) => Some(Address::V6(x)),
            None => None,
        },
    }
}

/// The addresses one token stands for: a CIDR block when a slash is
/// present, else a dash range when both sides parse as v4 addresses, else
/// a literal. `None` when the token is malformed or hostname-shaped.
pub open spec fn token_targets(t: Seq<char>) -> Option<Seq<Address>> {
    let sl = find_char(t, '/');
    if 0 <= sl && sl < t.len() {
        let pfx = parse_dec(t.skip(sl + 1));
        match parse_ipv4(t.take(sl)) {
            Some(a) => if pfx is Some && pfx->Some_0 <= 32 {
                Some(cidr_hosts(a, pfx->Some_0).map_values(|h: u32| Address::V4(h)))
            } else {
                None
            },
            None => match parse_ipv6(t.take(sl)) {
                Some(x) => if pfx == Some(128int) {
                    Some(seq![Address::V6(x)])
                } else {
                    None
                },
                None => None,
            },
        }
    } else {
        let dash = find_char(t, '-');
        if 0 <= dash && dash < t.len() {
            match (parse_ipv4(t.take(dash)), parse_ipv4(t.skip(dash + 1))) {
                (Some(a), Some(b)) => if a as int / 256 == b as int / 256 && a <= b {
                    Some(range_hosts(a, b).map_values(|h: u32| Address::V4(h)))
                } else {
                    None
                },
                _ => match addr_literal(t) {
                    Some(a) => Some(seq![a]),
                    None => None,
                },
            }
        } else {
            match addr_literal(t) {
                Some(a) => Some(seq![a]),
                None => None,
            }
        }
    }
}

/// The addresses a comma-joined specification stands for, concatenated in
/// token order, before deduplication; `None` as soon as one token is
/// malformed.
pub open spec fn targets_spec(s: Seq<char>) -> Option<Seq<Address>>
    decreases s.len(),
{
    let i = find_char(s, ',');
    if !(0 <= i && i < s.len()) {
        token_targets(s)
    } else {
        match (token_targets(s.take(i)), targets_spec(s.skip(i + 1))) {
            (Some(a), Some(b)) => Some(a + b),
            _ => None,
        }
    }
}

/// Keep the first occurrence of each address, in order.
pub open spec fn dedup_first(q: Seq<Address>) -> Seq<Address>
    decreases q.len(),
{
    if q.len() == 0 {
        q
    } else {
        let rest = dedup_first(q.drop_last());
        if rest.contains(q.last()) {
            rest
        } else {
            rest.push(q.last())
        }
    }
}

/// Deduplication keeps exactly the members.
pub proof fn lemma_dedup_contains(q: Seq<Address>)
    ensures
        forall|e: Address| dedup_first(q).contains(e) <==> q.contains(e),
    decreases q.len(),
{
    if q.len() > 0 {
        lemma_dedup_contains(q.drop_last());
        let rest = dedup_first(q.drop_last());
        if !rest.contains(q.last()) {
            assert(forall|e: Address|
                #[trigger] rest.push(q.last()).contains(e) <==> rest.contains(e) || e
                    == q.last()) by {
                broadcast use vstd::seq_lib::lemma_seq_contains_after_push;
            }
        }
        assert forall|e: Address| dedup_first(q).contains(e) <==> q.contains(e) by {
            if q.contains(e) {
                let i = choose|i: int| 0 <= i < q.len() && q[i] == e;
                if i < q.len() - 1 {
                    assert(q.drop_last()[i] == e);
                    assert(q.drop_last().contains(e));
                } else {
                    assert(e == q.last());
                }
            }
            if q.drop_last().contains(e) {
                let i = choose|i: int| 0 <= i < q.drop_last().len() && q.drop_last()[i] == e;
                assert(q[i] == e);
                assert(q.contains(e));
            }
            if e == q.last() {
                assert(q[q.len() - 1] == e);
                assert(q.contains(e));
            }
        }
    }
}

/// Deduplication leaves no duplicates.
pub proof fn lemma_dedup_distinct(q: Seq<Address>)
    ensures
        forall|i: int, j: int|
            0 <= i < j < dedup_first(q).len() ==> dedup_first(q)[i] != dedup_first(q)[j],
    decreases q.len(),
{
    if q.len() > 0 {
        lemma_dedup_distinct(q.drop_last());
        let rest = dedup_first(q.drop_last());
        if !rest.contains(q.last()) {
            assert(forall|i: int|
                0 <= i < rest.len() ==> #[trigger] rest.push(q.last())[i] == rest[i]);
            assert(forall|i: int| 0 <= i < rest.len() ==> rest[i] != q.last());
        }
    }
}

/// A duplicate-free sequence deduplicates to itself.
pub proof fn lemma_dedup_of_distinct(q: Seq<Address>)
    requires
        forall|i: int, j: int| 0 <= i < j < q.len() ==> q[i] != q[j],
    ensures
        dedup_first(q) == q,
    decreases q.len(),
{
    if q.len() > 0 {
        assert(forall|i: int| 0 <= i < q.len() - 1 ==> #[trigger] q.drop_last()[i] == q[i]);
        lemma_dedup_of_distinct(q.drop_last());
        assert(!q.drop_last().contains(q.last()));
        assert(q.drop_last().push(q.last()) =~= q);
    }
}

/// Whether `v` already holds `x`.
fn contains_addr(v: &Vec<Address>, x: Address) -> (r: bool)
    ensures
        r == v@.contains(x),
{
    let mut i: usize = 0;
    while i < v.len()
        invariant
            0 <= i <= v@.len(),
            forall|j: int| 0 <= j < i ==> v@[j] != x,
        decreases v@.len() - i,
    {
        if *v.get(i).unwrap() == x {
            proof {
                assert(v@[i as int] == x);
            }
            return true;
        }
        i = i + 1;
    }
    false
}

/// Turn enumerated v4 host values into addresses.
fn to_v4_addresses(hosts: &Vec<u32>) -> (r: Vec<Address>)
    ensures
        r@ == hosts@.map_values(|h: u32| Address::V4(h)),
{
    let mut out: Vec<Address> = Vec::new();
    let mut i: usize = 0;
    while i < hosts.len()
        invariant
            0 <= i <= hosts@.len(),
            out@ =~= hosts@.take(i as int).map_values(|h: u32| Address::V4(h)),
        decreases hosts@.len() - i,
    {
        out.push(Address::V4(hosts[i]));
        proof {
            assert(out@ =~= hosts@.take(i + 1).map_values(|h: u32| Address::V4(h)));
        }
        i = i + 1;
    }
    proof {
        assert(hosts@.take(hosts@.len() as int) =~= hosts@);
    }
    out
}

/// Expand the token `s[from..to]` into its addresses, in order and before
/// deduplication; `None` when the token is not address-shaped (a hostname,
/// which the caller resolves, or plain garbage).
#[verifier::rlimit(100)]
pub fn expand_target_token(s: &str, from: usize, to: usize) -> (r: Option<Vec<Address>>)
    requires
        from <= to <= s@.len(),
    ensures
        match token_targets(s@.subrange(from as int, to as int)) {
            Some(q) => r is Some && r->Some_0@ == q,
            None => r is None,
        },
{
    let ghost t = s@.subrange(from as int, to as int);
    let sl = scan_for(s, from, to, '/');
    if sl < to {
        proof {
            assert(t[sl - from] == '/');
            assert(forall|j: int| 0 <= j < sl - from ==> t[j] != '/');
            lemma_find_char_is(t, '/', sl - from);
            assert(t.take(sl - from) =~= s@.subrange(from as int, sl as int));
            assert(t.skip(sl - from + 1) =~= s@.subrange(sl + 1 as int, to as int));
            lemma_parse_dec_nonneg(t.skip(sl - from + 1));
        }
        let pfx = parse_dec_range(s, sl + 1, to, 128);
        match parse_ipv4_range(s, from, sl) {
            Some(a) => {
                match pfx {
                    Some(p) => {
                        if p <= 32 {
                            let hosts = expand_cidr(a, p as u8);
                            Some(to_v4_addresses(&hosts))
                        } else {
                            None
                        }
                    },
                    None => None,
                }
            },
            None => {
                match parse_ipv6_range(s, from, sl) {
                    Some(x) => {
                        if pfx == Some(128) {
                            let mut out: Vec<Address> = Vec::new();
                            out.push(Address::V6(x));
                            proof {
                                assert(out@ =~= seq![Address::V6(x)]);
                            }
                            Some(out)
                        } else {
                            None
                        }
                    },
                    None => None,
                }
            },
        }
    } else {
        proof {
            lemma_find_char_none(t, '/');
        }
        let dash = scan_for(s, from, to, '-');
        if dash < to {
            proof {
                assert(t[dash - from] == '-');
                assert(forall|j: int| 0 <= j < dash - from ==> t[j] != '-');
                lemma_find_char_is(t, '-', dash - from);
                assert(t.take(dash - from) =~= s@.subrange(from as int, dash as int));
                assert(t.skip(dash - from + 1) =~= s@.subrange(dash + 1 as int, to as int));
            }
            let lo = parse_ipv4_range(s, from, dash);
            let hi = parse_ipv4_range(s, dash + 1, to);
            match (lo, hi) {
                (Some(a), Some(b)) => {
                    if a / 256 == b / 256 && a <= b {
                        let hosts = expand_range(a, b);
                        Some(to_v4_addresses(&hosts))
                    } else {
                        None
                    }
                },
                _ => expand_literal(s, from, to),
            }
        } else {
            proof {
                lemma_find_char_none(t, '-');
            }
            expand_literal(s, from, to)
        }
    }
}

/// Expand a literal token into its one address.
fn expand_literal(s: &str, from: usize, to: usize) -> (r: Option<Vec<Address>>)
    requires
        from <= to <= s@.len(),
    ensures
        match addr_literal(s@.subrange(from as int, to as int)) {
            Some(a) => r is Some && r->Some_0@ == seq![a],
            None => r is None,
        },
{
    match parse_ipv4_range(s, from, to) {
        Some(a) => {
            let mut out: Vec<Address> = Vec::new();
            out.push(Address::V4(a));
            proof {
                assert(out@ =~= seq![Address::V4(a)]);
            }
            Some(out)
        },
        None => {
            match parse_ipv6_range(s, from, to) {
                Some(x) => {
                    let mut out: Vec<Address> = Vec::new();
                    out.push(Address::V6(x));
                    proof {
                        assert(out@ =~= seq![Address::V6(x)]);
                    }
                    Some(out)
                },
                None => None,
            }
        },
    }
}

/// Fold a token's addresses into the collected list, keeping first
/// occurrences only.
fn fold_addresses(v: &mut Vec<Address>, w: &Vec<Address>, Ghost(done): Ghost<Seq<Address>>)
    requires
        old(v)@ == dedup_first(done),
    ensures
        final(v)@ == dedup_first(done + w@),
{
    let mut k: usize = 0;
    proof {
        assert(done + w@.take(0) =~= done);
    }
    while k < w.len()
        invariant
            0 <= k <= w@.len(),
            v@ == dedup_first(done + w@.take(k as int)),
        decreases w@.len() - k,
    {
        let ghost cur = done + w@.take(k as int);
        proof {
            assert((done + w@.take(k + 1)).drop_last() =~= cur);
            assert((done + w@.take(k + 1)).last() == w@[k as int]);
        }
        if !contains_addr(&v, w[k]) {
            v.push(w[k]);
        }
        proof {
            assert(v@ =~= dedup_first(done + w@.take(k + 1)));
        }
        k = k + 1;
    }
    proof {
        assert(done + w@.take(w@.len() as int) =~= done + w@);
    }
}

/// Parse a target specification: comma-joined literals, v4 dash ranges
/// within one /24, and CIDR blocks. The result keeps first-seen order
/// across tokens with duplicates removed. Hostname-shaped tokens are
/// rejected here: the caller resolves them to literals first.
#[verifier::rlimit(100)]
#[verifier::spinoff_prover]
pub fn parse_targets(s: &str) -> (r: Result<Vec<Address>, ScanError>)
    ensures
        match r {
            Ok(v) => targets_spec(s@) is Some && v@ == dedup_first(targets_spec(s@)->Some_0),
            Err(e) => targets_spec(s@) is None && e is Spec,
        },
{
    let n = s.unicode_len();
    let mut v: Vec<Address> = Vec::new();
    let ghost mut done: Seq<Address> = Seq::empty();
    let mut p: usize = 0;
    proof {
        assert(s@.skip(0) =~= s@);
        if targets_spec(s@) is Some {
            let rest = targets_spec(s@)->Some_0;
            assert(Seq::<Address>::empty() + rest =~= rest);
        }
        assert(v@ =~= dedup_first(done));
    }
    loop
        invariant
            0 <= p <= n,
            n == s@.len(),
            v@ == dedup_first(done),
            // what the suffix still owes
            match targets_spec(s@.skip(p as int)) {
                Some(rest) => targets_spec(s@) == Some(done + rest),
                None => targets_spec(s@) is None,
            },
        decreases n - p,
    {
        let q = scan_for(s, p, n, ',');
        let ghost suffix = s@.skip(p as int);
        let ghost tok = s@.subrange(p as int, q as int);
        proof {
            assert(forall|j: int| 0 <= j < suffix.len() ==> suffix[j] == #[trigger] s@[p + j]);
            if q < n {
                assert(suffix[q - p] == ',');
                lemma_find_char_is(suffix, ',', q - p);
                assert(suffix.take(q - p) =~= tok);
                assert(suffix.skip(q - p + 1) =~= s@.skip(q + 1 as int));
            } else {
                lemma_find_char_none(suffix, ',');
                assert(suffix =~= tok);
            }
        }
        let w = match expand_target_token(s, p, q) {
            Some(w) => w,
            None => {
                proof {
                    assert(token_targets(tok) is None);
                    assert(targets_spec(suffix) is None);
                }
                return Err(ScanError::Spec(String::from_str("bad target specification")));
            },
        };
        let ghost ts = token_targets(tok)->Some_0;
        let ghost done0 = done;
        fold_addresses(&mut v, &w, Ghost(done0));
        proof {
            done = done0 + ts;
        }
        if q == n {
            proof {
                assert(targets_spec(suffix) == Some(ts));
            }
            return Ok(v);
        }
        proof {
            let after = s@.skip(q + 1 as int);
            if targets_spec(after) is Some {
                let rest = targets_spec(after)->Some_0;
                assert(targets_spec(suffix) == Some(ts + rest));
                assert(done0 + (ts + rest) =~= done + rest);
            } else {
                assert(targets_spec(suffix) is None);
            }
        }
        p = q + 1;
    }
}


/// The text rendering of one address: a dotted quad, or uncompressed
/// colon-joined hex groups.
pub open spec fn address_str(a: Address) -> Seq<char> {
    match a {
        Address::V4(x) => ipv4_str(x),
        Address::V6(x) => ipv6_str(x),
    }
}

/// Render one address.
pub fn render_address(a: Address) -> (r: String)
    ensures
        r@ == address_str(a),
{
    let mut out = String::new();
    match a {
        Address::V4(x) => append_ipv4(&mut out, x),
        Address::V6(x) => append_ipv6(&mut out, x),
    }
    out
}

/// A rendered address is one whole token standing for that address alone.
pub proof fn lemma_address_str(a: Address)
    ensures
        token_targets(address_str(a)) == Some(seq![a]),
        forall|i: int| 0 <= i < address_str(a).len() ==> #[trigger] address_str(a)[i] != ',',
{
    let s = address_str(a);
    match a {
        Address::V4(x) => {
            lemma_ipv4_str(x);
            assert(forall|i: int| 0 <= i < s.len() ==> #[trigger] s[i] != '/');
            assert(forall|i: int| 0 <= i < s.len() ==> #[trigger] s[i] != '-');
            assert(forall|i: int| 0 <= i < s.len() ==> #[trigger] s[i] != ',');
            lemma_find_char_none(s, '/');
            lemma_find_char_none(s, '-');
            assert(addr_literal(s) == Some(a));
        },
        Address::V6(x) => {
            lemma_ipv6_str(x);
            assert(forall|i: int| 0 <= i < s.len() ==> #[trigger] s[i] != '/');
            assert(forall|i: int| 0 <= i < s.len() ==> #[trigger] s[i] != '-');
            assert(forall|i: int| 0 <= i < s.len() ==> #[trigger] s[i] != ',');
            assert(forall|i: int| 0 <= i < s.len() ==> #[trigger] s[i] != '.');
            lemma_find_char_none(s, '/');
            lemma_find_char_none(s, '-');
            lemma_find_char_none(s, '.');
            assert(parse_ipv4(s) is None);
            assert(addr_literal(s) == Some(a));
        },
    }
}

/// The comma-joined rendering of an address list.
pub open spec fn targets_str(q: Seq<Address>) -> Seq<char>
    decreases q.len(),
{
    if q.len() == 0 {
        Seq::empty()
    } else if q.len() == 1 {
        address_str(q[0])
    } else {
        address_str(q[0]) + seq![','] + targets_str(q.skip(1))
    }
}

/// Render an expanded target list, comma-joined.
pub fn render_targets(v: &Vec<Address>) -> (r: String)
    ensures
        r@ == targets_str(v@),
{
    let mut out = String::new();
    if v.len() == 0 {
        return out;
    }
    let mut i: usize = 0;
    proof {
        reveal_strlit(",");
        assert(v@.skip(0) =~= v@);
        assert(out@ + targets_str(v@) =~= targets_str(v@));
    }
    while i < v.len()
        invariant
            0 <= i <= v@.len(),
            1 <= v@.len(),
            ","@ == seq![','],
            i < v@.len() ==> targets_str(v@) == out@ + targets_str(v@.skip(i as int)),
            i == v@.len() ==> targets_str(v@) == out@,
        decreases v@.len() - i,
    {
        let ghost rest = v@.skip(i as int);
        let ghost out0 = out@;
        let rendered = render_address(*v.get(i).unwrap());
        out.append(rendered.as_str());
        if i + 1 < v.len() {
            out.append(",");
            proof {
                assert(rest.len() >= 2);
                assert(rest[0] == v@[i as int]);
                assert(rest.skip(1) =~= v@.skip(i + 1));
                assert(targets_str(rest) == address_str(rest[0]) + seq![','] + targets_str(
                    rest.skip(1),
                ));
                assert(out@ =~= out0 + address_str(v@[i as int]) + seq![',']);
                assert(out0 + targets_str(rest) =~= out@ + targets_str(v@.skip(i + 1)));
            }
        } else {
            proof {
                assert(rest.len() == 1);
                assert(rest[0] == v@[i as int]);
                assert(targets_str(rest) == address_str(rest[0]));
                assert(out0 + targets_str(rest) =~= out@);
            }
        }
        i = i + 1;
    }
    out
}

/// Rendering a duplicate-free expanded list and parsing the rendering
/// yields the list back: one literal token per address, concatenated, and
/// deduplication leaves it unchanged.
#[verifier::rlimit(100)]
#[verifier::spinoff_prover]
proof fn lemma_targets_str_parses(q: Seq<Address>)
    requires
        q.len() >= 1,
    ensures
        targets_spec(targets_str(q)) == Some(q),
    decreases q.len(),
{
    let s = targets_str(q);
    let h = address_str(q[0]);
    lemma_address_str(q[0]);
    if q.len() == 1 {
        assert(s =~= h);
        lemma_find_char_none(s, ',');
        assert(token_targets(s) == Some(seq![q[0]]));
        assert(seq![q[0]] =~= q);
    } else {
        let rest = q.skip(1);
        lemma_targets_str_parses(rest);
        let rs = targets_str(rest);
        assert(s == h + seq![','] + rs);
        let nh = h.len() as int;
        assert(forall|j: int| 0 <= j < nh ==> #[trigger] s[j] == h[j]);
        assert(s[nh] == ',');
        lemma_find_char_is(s, ',', nh);
        assert(s.take(nh) =~= h);
        assert(s.skip(nh + 1) =~= rs);
        assert(token_targets(h) == Some(seq![q[0]]));
        assert(seq![q[0]] + rest =~= q);
    }
}

/// Expansion is idempotent: rendering an expanded, deduplicated target
/// list and expanding the rendering yields the same list. (An empty list
/// renders as the empty specification, which is rejected, so one address
/// at least is required.)
pub proof fn lemma_target_expansion_idempotent(q: Seq<Address>)
    requires
        q.len() >= 1,
        forall|i: int, j: int| 0 <= i < j < q.len() ==> q[i] != q[j],
    ensures
        targets_spec(targets_str(q)) is Some,
        dedup_first(targets_spec(targets_str(q))->Some_0) == q,
{
    lemma_targets_str_parses(q);
    lemma_dedup_of_distinct(q);
}

} // verus!
