//! Service identification: the rules engine that maps the bytes read
//! from an open port to a service record, the probe payload builders, and
//! the candidate-probe plan per port. Everything here is pure byte work;
//! the sockets live with the caller.

use vstd::prelude::*;

use crate::results::ServiceInfo;
use crate::text::{dec_str, append_dec};
use vstd::slice::slice_index_get;

verus! {

/// Lowercase one ASCII byte.
pub open spec fn lower_byte(b: u8) -> u8 {
    if 65 <= b && b <= 90 {
        (b + 32) as u8
    } else {
        b
    }
}

/// Lowercase a byte sequence, ASCII-wise.
pub open spec fn lower_seq(s: Seq<u8>) -> Seq<u8> {
    s.map_values(|b: u8| lower_byte(b))
}

/// Whether `p` is a prefix of `s`.
pub open spec fn is_prefix(p: Seq<u8>, s: Seq<u8>) -> bool {
    p.len() <= s.len() && forall|i: int| 0 <= i < p.len() ==> s[i] == #[trigger] p[i]
}

/// Whether `p` occurs in `s`.
pub open spec fn contains_sub(s: Seq<u8>, p: Seq<u8>) -> bool {
    exists|k: int| 0 <= k <= s.len() - p.len() && is_prefix(p, s.skip(k))
}

/// The displayable form of one response byte.
pub open spec fn banner_char(b: u8) -> char {
    if 32 <= b && b <= 126 {
        b as char
    } else {
        '?'
    }
}

/// How many bytes the first line runs before CR or LF.
pub open spec fn line_len(s: Seq<u8>) -> int
    decreases s.len(),
{
    if s.len() == 0 {
        0
    } else if s[0] == 13 || s[0] == 10 {
        0
    } else {
        1 + line_len(s.skip(1))
    }
}

/// The first line of a response, shown with printable ASCII kept and
/// other bytes replaced.
pub open spec fn banner_of(s: Seq<u8>) -> Seq<char> {
    s.take(line_len(s)).map_values(|b: u8| banner_char(b))
}

/// How many bytes the first whitespace-free word runs.
pub open spec fn word_len(s: Seq<u8>) -> int
    decreases s.len(),
{
    if s.len() == 0 {
        0
    } else if s[0] == 32 || s[0] == 9 || s[0] == 13 || s[0] == 10 {
        0
    } else {
        1 + word_len(s.skip(1))
    }
}

/// The first line runs no further than the sequence.
pub proof fn lemma_line_len(s: Seq<u8>)
    ensures
        0 <= line_len(s) <= s.len(),
        forall|i: int| 0 <= i < line_len(s) ==> !(#[trigger] s[i] == 13 || s[i] == 10),
        line_len(s) < s.len() ==> (s[line_len(s)] == 13 || s[line_len(s)] == 10),
    decreases s.len(),
{
    if s.len() > 0 && !(s[0] == 13 || s[0] == 10) {
        lemma_line_len(s.skip(1));
        assert(forall|i: int| 1 <= i < s.len() ==> #[trigger] s[i] == s.skip(1)[i - 1]);
    }
}

/// The first word runs no further than the sequence.
pub proof fn lemma_word_len(s: Seq<u8>)
    ensures
        0 <= word_len(s) <= s.len(),
        forall|i: int|
            0 <= i < word_len(s) ==> !(#[trigger] s[i] == 32 || s[i] == 9 || s[i] == 13 || s[i]
                == 10),
        word_len(s) < s.len() ==> (s[word_len(s)] == 32 || s[word_len(s)] == 9 || s[word_len(s)]
            == 13 || s[word_len(s)] == 10),
    decreases s.len(),
{
    if s.len() > 0 && !(s[0] == 32 || s[0] == 9 || s[0] == 13 || s[0] == 10) {
        lemma_word_len(s.skip(1));
        assert(forall|i: int| 1 <= i < s.len() ==> #[trigger] s[i] == s.skip(1)[i - 1]);
    }
}

/// Append the displayable form of one response byte: printable ASCII as
/// itself, anything else as a question mark.
#[verifier::rlimit(100)]
pub fn append_byte_char(out: &mut String, b: u8)
    ensures
        final(out)@ == old(out)@ + seq![banner_char(b)],
{
    proof {
        reveal_strlit("?");
        reveal_strlit(" ");
        reveal_strlit("!");
        reveal_strlit("\"");
        reveal_strlit("#");
        reveal_strlit("$");
        reveal_strlit("%");
        reveal_strlit("&");
        reveal_strlit("'");
        reveal_strlit("(");
        reveal_strlit(")");
        reveal_strlit("*");
        reveal_strlit("+");
        reveal_strlit(",");
        reveal_strlit("-");
        reveal_strlit(".");
        reveal_strlit("/");
        reveal_strlit("0");
        reveal_strlit("1");
        reveal_strlit("2");
        reveal_strlit("3");
        reveal_strlit("4");
        reveal_strlit("5");
        reveal_strlit("6");
        reveal_strlit("7");
        reveal_strlit("8");
        reveal_strlit("9");
        reveal_strlit(":");
        reveal_strlit(";");
        reveal_strlit("<");
        reveal_strlit("=");
        reveal_strlit(">");
        reveal_strlit("?");
        reveal_strlit("@");
        reveal_strlit("A");
        reveal_strlit("B");
        reveal_strlit("C");
        reveal_strlit("D");
        reveal_strlit("E");
        reveal_strlit("F");
        reveal_strlit("G");
        reveal_strlit("H");
        reveal_strlit("I");
        reveal_strlit("J");
        reveal_strlit("K");
        reveal_strlit("L");
        reveal_strlit("M");
        reveal_strlit("N");
        reveal_strlit("O");
        reveal_strlit("P");
        reveal_strlit("Q");
        reveal_strlit("R");
        reveal_strlit("S");
        reveal_strlit("T");
        reveal_strlit("U");
        reveal_strlit("V");
        reveal_strlit("W");
        reveal_strlit("X");
        reveal_strlit("Y");
        reveal_strlit("Z");
        reveal_strlit("[");
        reveal_strlit("\\");
        reveal_strlit("]");
        reveal_strlit("^");
        reveal_strlit("_");
        reveal_strlit("`");
        reveal_strlit("a");
        reveal_strlit("b");
        reveal_strlit("c");
        reveal_strlit("d");
        reveal_strlit("e");
        reveal_strlit("f");
        reveal_strlit("g");
        reveal_strlit("h");
        reveal_strlit("i");
        reveal_strlit("j");
        reveal_strlit("k");
        reveal_strlit("l");
        reveal_strlit("m");
        reveal_strlit("n");
        reveal_strlit("o");
        reveal_strlit("p");
        reveal_strlit("q");
        reveal_strlit("r");
        reveal_strlit("s");
        reveal_strlit("t");
        reveal_strlit("u");
        reveal_strlit("v");
        reveal_strlit("w");
        reveal_strlit("x");
        reveal_strlit("y");
        reveal_strlit("z");
        reveal_strlit("{");
        reveal_strlit("|");
        reveal_strlit("}");
        reveal_strlit("~");
    }
    match b {
        32 => out.append(" "),
        33 => out.append("!"),
        34 => out.append("\""),
        35 => out.append("#"),
        36 => out.append("$"),
        37 => out.append("%"),
        38 => out.append("&"),
        39 => out.append("'"),
        40 => out.append("("),
        41 => out.append(")"),
        42 => out.append("*"),
        43 => out.append("+"),
        44 => out.append(","),
        45 => out.append("-"),
        46 => out.append("."),
        47 => out.append("/"),
        48 => out.append("0"),
        49 => out.append("1"),
        50 => out.append("2"),
        51 => out.append("3"),
        52 => out.append("4"),
        53 => out.append("5"),
        54 => out.append("6"),
        55 => out.append("7"),
        56 => out.append("8"),
        57 => out.append("9"),
        58 => out.append(":"),
        59 => out.append(";"),
        60 => out.append("<"),
        61 => out.append("="),
        62 => out.append(">"),
        63 => out.append("?"),
        64 => out.append("@"),
        65 => out.append("A"),
        66 => out.append("B"),
        67 => out.append("C"),
        68 => out.append("D"),
        69 => out.append("E"),
        70 => out.append("F"),
        71 => out.append("G"),
        72 => out.append("H"),
        73 => out.append("I"),
        74 => out.append("J"),
        75 => out.append("K"),
        76 => out.append("L"),
        77 => out.append("M"),
        78 => out.append("N"),
        79 => out.append("O"),
        80 => out.append("P"),
        81 => out.append("Q"),
        82 => out.append("R"),
        83 => out.append("S"),
        84 => out.append("T"),
        85 => out.append("U"),
        86 => out.append("V"),
        87 => out.append("W"),
        88 => out.append("X"),
        89 => out.append("Y"),
        90 => out.append("Z"),
        91 => out.append("["),
        92 => out.append("\\"),
        93 => out.append("]"),
        94 => out.append("^"),
        95 => out.append("_"),
        96 => out.append("`"),
        97 => out.append("a"),
        98 => out.append("b"),
        99 => out.append("c"),
        100 => out.append("d"),
        101 => out.append("e"),
        102 => out.append("f"),
        103 => out.append("g"),
        104 => out.append("h"),
        105 => out.append("i"),
        106 => out.append("j"),
        107 => out.append("k"),
        108 => out.append("l"),
        109 => out.append("m"),
        110 => out.append("n"),
        111 => out.append("o"),
        112 => out.append("p"),
        113 => out.append("q"),
        114 => out.append("r"),
        115 => out.append("s"),
        116 => out.append("t"),
        117 => out.append("u"),
        118 => out.append("v"),
        119 => out.append("w"),
        120 => out.append("x"),
        121 => out.append("y"),
        122 => out.append("z"),
        123 => out.append("{"),
        124 => out.append("|"),
        125 => out.append("}"),
        126 => out.append("~"),
        _ => out.append("?"),
    }
    assert(final(out)@ =~= old(out)@ + seq![banner_char(b)]);
}

/// Build the displayable string of `s[from..to]`.
pub fn bytes_to_display(s: &[u8], from: usize, to: usize) -> (r: String)
    requires
        from <= to <= s@.len(),
    ensures
        r@ == s@.subrange(from as int, to as int).map_values(|b: u8| banner_char(b)),
{
    let ghost t = s@.subrange(from as int, to as int);
    let mut out = String::new();
    let mut i: usize = from;
    proof {
        assert(out@ =~= t.take(0).map_values(|b: u8| banner_char(b)));
    }
    while i < to
        invariant
            from <= i <= to <= s@.len(),
            t == s@.subrange(from as int, to as int),
            out@ == t.take(i - from).map_values(|b: u8| banner_char(b)),
        decreases to - i,
    {
        let b = *slice_index_get(s, i);
        append_byte_char(&mut out, b);
        proof {
            assert(t.take(i + 1 - from) =~= t.take(i - from).push(t[i - from]));
            assert(t[i - from] == s@[i as int]);
            assert(t.take(i + 1 - from).map_values(|x: u8| banner_char(x)) =~= t.take(
                i - from,
            ).map_values(|x: u8| banner_char(x)) + seq![banner_char(s@[i as int])]);
        }
        i = i + 1;
    }
    proof {
        assert(t.take(to - from) =~= t);
    }
    out
}

/// Where the first line of `s` ends.
pub fn find_line_end(s: &[u8]) -> (r: usize)
    ensures
        r as int == line_len(s@),
{
    let mut i: usize = 0;
    while i < s.len()
        invariant
            0 <= i <= s@.len(),
            forall|j: int| 0 <= j < i ==> !(#[trigger] s@[j] == 13 || s@[j] == 10),
        decreases s@.len() - i,
    {
        let b = *slice_index_get(s, i);
        if b == 13 || b == 10 {
            proof {
                lemma_line_len_pin(s@, i as int);
            }
            return i;
        }
        i = i + 1;
    }
    proof {
        lemma_line_len_pin(s@, s@.len() as int);
    }
    i
}

/// A position where the line provably ends pins `line_len`.
proof fn lemma_line_len_pin(s: Seq<u8>, i: int)
    requires
        0 <= i <= s.len(),
        forall|j: int| 0 <= j < i ==> !(#[trigger] s[j] == 13 || s[j] == 10),
        i < s.len() ==> (s[i] == 13 || s[i] == 10),
    ensures
        line_len(s) == i,
    decreases s.len(),
{
    if i > 0 {
        assert(forall|j: int| 1 <= j < s.len() ==> #[trigger] s[j] == s.skip(1)[j - 1]);
        lemma_line_len_pin(s.skip(1), i - 1);
    }
}

/// Where the first word of `s` ends.
pub fn find_word_end(s: &[u8]) -> (r: usize)
    ensures
        r as int == word_len(s@),
{
    let mut i: usize = 0;
    while i < s.len()
        invariant
            0 <= i <= s@.len(),
            forall|j: int|
                0 <= j < i ==> !(#[trigger] s@[j] == 32 || s@[j] == 9 || s@[j] == 13 || s@[j]
                    == 10),
        decreases s@.len() - i,
    {
        let b = *slice_index_get(s, i);
        if b == 32 || b == 9 || b == 13 || b == 10 {
            proof {
                lemma_word_len_pin(s@, i as int);
            }
            return i;
        }
        i = i + 1;
    }
    proof {
        lemma_word_len_pin(s@, s@.len() as int);
    }
    i
}

/// A position where the word provably ends pins `word_len`.
proof fn lemma_word_len_pin(s: Seq<u8>, i: int)
    requires
        0 <= i <= s.len(),
        forall|j: int|
            0 <= j < i ==> !(#[trigger] s[j] == 32 || s[j] == 9 || s[j] == 13 || s[j] == 10),
        i < s.len() ==> (s[i] == 32 || s[i] == 9 || s[i] == 13 || s[i] == 10),
    ensures
        word_len(s) == i,
    decreases s.len(),
{
    if i > 0 {
        assert(forall|j: int| 1 <= j < s.len() ==> #[trigger] s[j] == s.skip(1)[j - 1]);
        lemma_word_len_pin(s.skip(1), i - 1);
    }
}

/// Whether `s` starts with the pattern.
pub fn bytes_start_with(s: &[u8], p: &Vec<u8>) -> (r: bool)
    ensures
        r == is_prefix(p@, s@),
{
    if p.len() > s.len() {
        return false;
    }
    let mut i: usize = 0;
    while i < p.len()
        invariant
            0 <= i <= p@.len() <= s@.len(),
            forall|j: int| 0 <= j < i ==> s@[j] == #[trigger] p@[j],
        decreases p@.len() - i,
    {
        if *slice_index_get(s, i) != *p.get(i).unwrap() {
            proof {
                assert(s@[i as int] != p@[i as int]);
            }
            return false;
        }
        i = i + 1;
    }
    true
}

/// Whether `s` starts with the pattern at position `k`.
fn bytes_match_at(s: &[u8], p: &Vec<u8>, k: usize) -> (r: bool)
    requires
        k <= s@.len(),
    ensures
        r == is_prefix(p@, s@.skip(k as int)),
{
    let ghost t = s@.skip(k as int);
    proof {
        assert(forall|j: int| 0 <= j < t.len() ==> #[trigger] t[j] == s@[k + j]);
    }
    if p.len() > s.len() - k {
        return false;
    }
    let mut i: usize = 0;
    while i < p.len()
        invariant
            0 <= i <= p@.len() <= s@.len() - k,
            k <= s@.len() <= usize::MAX,
            k + p@.len() <= s@.len(),
            t == s@.skip(k as int),
            forall|j: int| 0 <= j < t.len() ==> #[trigger] t[j] == s@[k + j],
            forall|j: int| 0 <= j < i ==> t[j] == #[trigger] p@[j],
        decreases p@.len() - i,
    {
        if *slice_index_get(s, k + i) != *p.get(i).unwrap() {
            proof {
                assert(t[i as int] != p@[i as int]);
            }
            return false;
        }
        i = i + 1;
    }
    true
}

/// Whether the pattern occurs anywhere in `s`.
pub fn bytes_contain(s: &[u8], p: &Vec<u8>) -> (r: bool)
    ensures
        r == contains_sub(s@, p@),
{
    if p.len() > s.len() {
        proof {
            assert(forall|k: int|
                0 <= k <= s@.len() - p@.len() ==> !is_prefix(p@, #[trigger] s@.skip(k)));
        }
        return false;
    }
    let mut k: usize = 0;
    while k <= s.len() - p.len()
        invariant
            0 <= k <= s@.len() - p@.len() + 1,
            p@.len() <= s@.len(),
            forall|j: int| 0 <= j < k ==> !is_prefix(p@, #[trigger] s@.skip(j)),
        decreases s@.len() - p@.len() + 1 - k,
    {
        if bytes_match_at(s, p, k) {
            proof {
                assert(0 <= k as int <= s@.len() - p@.len() && is_prefix(p@, s@.skip(k as int)));
            }
            return true;
        }
        k = k + 1;
    }
    false
}

/// Lowercase a response, ASCII-wise.
pub fn lower_vec(s: &[u8]) -> (r: Vec<u8>)
    ensures
        r@ == lower_seq(s@),
{
    let mut out: Vec<u8> = Vec::new();
    let mut i: usize = 0;
    proof {
        assert(out@ =~= s@.take(0).map_values(|b: u8| lower_byte(b)));
    }
    while i < s.len()
        invariant
            0 <= i <= s@.len(),
            out@ == s@.take(i as int).map_values(|b: u8| lower_byte(b)),
        decreases s@.len() - i,
    {
        let b = *slice_index_get(s, i);
        if b >= 65 && b <= 90 {
            out.push(b + 32);
        } else {
            out.push(b);
        }
        proof {
            assert(s@.take(i + 1) =~= s@.take(i as int).push(s@[i as int]));
            assert(s@.take(i + 1).map_values(|x: u8| lower_byte(x)) =~= s@.take(
                i as int,
            ).map_values(|x: u8| lower_byte(x)).push(lower_byte(s@[i as int])));
        }
        i = i + 1;
    }
    proof {
        assert(s@.take(s@.len() as int) =~= s@);
    }
    out
}

/// The bytes of `http/`.
pub open spec fn spec_pat_http_lower() -> Seq<u8> {
    seq![104u8, 116, 116, 112, 47]
}

/// The bytes of `http/`, executable form.
pub fn pat_http_lower() -> (v: Vec<u8>)
    ensures
        v@ == spec_pat_http_lower(),
{
    let mut v: Vec<u8> = Vec::new();
    v.push(104);
    v.push(116);
    v.push(116);
    v.push(112);
    v.push(47);
    proof {
        assert(v@ =~= spec_pat_http_lower());
    }
    v
}

/// The bytes of `content-type`.
pub open spec fn spec_pat_content_type() -> Seq<u8> {
    seq![99u8, 111, 110, 116, 101, 110, 116, 45, 116, 121, 112, 101]
}

/// The bytes of `content-type`, executable form.
pub fn pat_content_type() -> (v: Vec<u8>)
    ensures
        v@ == spec_pat_content_type(),
{
    let mut v: Vec<u8> = Vec::new();
    v.push(99);
    v.push(111);
    v.push(110);
    v.push(116);
    v.push(101);
    v.push(110);
    v.push(116);
    v.push(45);
    v.push(116);
    v.push(121);
    v.push(112);
    v.push(101);
    proof {
        assert(v@ =~= spec_pat_content_type());
    }
    v
}

/// The bytes of `server:`.
pub open spec fn spec_pat_server_colon() -> Seq<u8> {
    seq![115u8, 101, 114, 118, 101, 114, 58]
}

/// The bytes of `server:`, executable form.
pub fn pat_server_colon() -> (v: Vec<u8>)
    ensures
        v@ == spec_pat_server_colon(),
{
    let mut v: Vec<u8> = Vec::new();
    v.push(115);
    v.push(101);
    v.push(114);
    v.push(118);
    v.push(101);
    v.push(114);
    v.push(58);
    proof {
        assert(v@ =~= spec_pat_server_colon());
    }
    v
}

/// The bytes of `apache`.
pub open spec fn spec_pat_apache() -> Seq<u8> {
    seq![97u8, 112, 97, 99, 104, 101]
}

/// The bytes of `apache`, executable form.
pub fn pat_apache() -> (v: Vec<u8>)
    ensures
        v@ == spec_pat_apache(),
{
    let mut v: Vec<u8> = Vec::new();
    v.push(97);
    v.push(112);
    v.push(97);
    v.push(99);
    v.push(104);
    v.push(101);
    proof {
        assert(v@ =~= spec_pat_apache());
    }
    v
}

/// The bytes of `nginx`.
pub open spec fn spec_pat_nginx() -> Seq<u8> {
    seq![110u8, 103, 105, 110, 120]
}

/// The bytes of `nginx`, executable form.
pub fn pat_nginx() -> (v: Vec<u8>)
    ensures
        v@ == spec_pat_nginx(),
{
    let mut v: Vec<u8> = Vec::new();
    v.push(110);
    v.push(103);
    v.push(105);
    v.push(110);
    v.push(120);
    proof {
        assert(v@ =~= spec_pat_nginx());
    }
    v
}

/// The bytes of `iis`.
pub open spec fn spec_pat_iis() -> Seq<u8> {
    seq![105u8, 105, 115]
}

/// The bytes of `iis`, executable form.
pub fn pat_iis() -> (v: Vec<u8>)
    ensures
        v@ == spec_pat_iis(),
{
    let mut v: Vec<u8> = Vec::new();
    v.push(105);
    v.push(105);
    v.push(115);
    proof {
        assert(v@ =~= spec_pat_iis());
    }
    v
}

/// The bytes of `ssh-`.
pub open spec fn spec_pat_ssh_lower() -> Seq<u8> {
    seq![115u8, 115, 104, 45]
}

/// The bytes of `ssh-`, executable form.
pub fn pat_ssh_lower() -> (v: Vec<u8>)
    ensures
        v@ == spec_pat_ssh_lower(),
{
    let mut v: Vec<u8> = Vec::new();
    v.push(115);
    v.push(115);
    v.push(104);
    v.push(45);
    proof {
        assert(v@ =~= spec_pat_ssh_lower());
    }
    v
}

/// The bytes of `220`.
pub open spec fn spec_pat_b220() -> Seq<u8> {
    seq![50u8, 50, 48]
}

/// The bytes of `220`, executable form.
pub fn pat_b220() -> (v: Vec<u8>)
    ensures
        v@ == spec_pat_b220(),
{
    let mut v: Vec<u8> = Vec::new();
    v.push(50);
    v.push(50);
    v.push(48);
    proof {
        assert(v@ =~= spec_pat_b220());
    }
    v
}

/// The bytes of `ftp`.
pub open spec fn spec_pat_ftp() -> Seq<u8> {
    seq![102u8, 116, 112]
}

/// The bytes of `ftp`, executable form.
pub fn pat_ftp() -> (v: Vec<u8>)
    ensures
        v@ == spec_pat_ftp(),
{
    let mut v: Vec<u8> = Vec::new();
    v.push(102);
    v.push(116);
    v.push(112);
    proof {
        assert(v@ =~= spec_pat_ftp());
    }
    v
}

/// The bytes of `file transfer`.
pub open spec fn spec_pat_file_transfer() -> Seq<u8> {
    seq![102u8, 105, 108, 101, 32, 116, 114, 97, 110, 115, 102, 101, 114]
}

/// The bytes of `file transfer`, executable form.
pub fn pat_file_transfer() -> (v: Vec<u8>)
    ensures
        v@ == spec_pat_file_transfer(),
{
    let mut v: Vec<u8> = Vec::new();
    v.push(102);
    v.push(105);
    v.push(108);
    v.push(101);
    v.push(32);
    v.push(116);
    v.push(114);
    v.push(97);
    v.push(110);
    v.push(115);
    v.push(102);
    v.push(101);
    v.push(114);
    proof {
        assert(v@ =~= spec_pat_file_transfer());
    }
    v
}

/// The bytes of `smtp`.
pub open spec fn spec_pat_smtp() -> Seq<u8> {
    seq![115u8, 109, 116, 112]
}

/// The bytes of `smtp`, executable form.
pub fn pat_smtp() -> (v: Vec<u8>)
    ensures
        v@ == spec_pat_smtp(),
{
    let mut v: Vec<u8> = Vec::new();
    v.push(115);
    v.push(109);
    v.push(116);
    v.push(112);
    proof {
        assert(v@ =~= spec_pat_smtp());
    }
    v
}

/// The bytes of `unauthorized`.
pub open spec fn spec_pat_unauthorized() -> Seq<u8> {
    seq![117u8, 110, 97, 117, 116, 104, 111, 114, 105, 122, 101, 100]
}

/// The bytes of `unauthorized`, executable form.
pub fn pat_unauthorized() -> (v: Vec<u8>)
    ensures
        v@ == spec_pat_unauthorized(),
{
    let mut v: Vec<u8> = Vec::new();
    v.push(117);
    v.push(110);
    v.push(97);
    v.push(117);
    v.push(116);
    v.push(104);
    v.push(111);
    v.push(114);
    v.push(105);
    v.push(122);
    v.push(101);
    v.push(100);
    proof {
        assert(v@ =~= spec_pat_unauthorized());
    }
    v
}

/// The bytes of `www-authenticate`.
pub open spec fn spec_pat_www_authenticate() -> Seq<u8> {
    seq![119u8, 119, 119, 45, 97, 117, 116, 104, 101, 110, 116, 105, 99, 97, 116, 101]
}

/// The bytes of `www-authenticate`, executable form.
pub fn pat_www_authenticate() -> (v: Vec<u8>)
    ensures
        v@ == spec_pat_www_authenticate(),
{
    let mut v: Vec<u8> = Vec::new();
    v.push(119);
    v.push(119);
    v.push(119);
    v.push(45);
    v.push(97);
    v.push(117);
    v.push(116);
    v.push(104);
    v.push(101);
    v.push(110);
    v.push(116);
    v.push(105);
    v.push(99);
    v.push(97);
    v.push(116);
    v.push(101);
    proof {
        assert(v@ =~= spec_pat_www_authenticate());
    }
    v
}

/// The bytes of `HTTP/`.
pub open spec fn spec_pat_http_upper() -> Seq<u8> {
    seq![72u8, 84, 84, 80, 47]
}

/// The bytes of `HTTP/`, executable form.
pub fn pat_http_upper() -> (v: Vec<u8>)
    ensures
        v@ == spec_pat_http_upper(),
{
    let mut v: Vec<u8> = Vec::new();
    v.push(72);
    v.push(84);
    v.push(84);
    v.push(80);
    v.push(47);
    proof {
        assert(v@ =~= spec_pat_http_upper());
    }
    v
}

/// The bytes of `SSH-`.
pub open spec fn spec_pat_ssh_upper() -> Seq<u8> {
    seq![83u8, 83, 72, 45]
}

/// The bytes of `SSH-`, executable form.
pub fn pat_ssh_upper() -> (v: Vec<u8>)
    ensures
        v@ == spec_pat_ssh_upper(),
{
    let mut v: Vec<u8> = Vec::new();
    v.push(83);
    v.push(83);
    v.push(72);
    v.push(45);
    proof {
        assert(v@ =~= spec_pat_ssh_upper());
    }
    v
}

/// The bytes of `220 followed by a space`.
pub open spec fn spec_pat_b220_space() -> Seq<u8> {
    seq![50u8, 50, 48, 32]
}

/// The bytes of `220 followed by a space`, executable form.
pub fn pat_b220_space() -> (v: Vec<u8>)
    ensures
        v@ == spec_pat_b220_space(),
{
    let mut v: Vec<u8> = Vec::new();
    v.push(50);
    v.push(50);
    v.push(48);
    v.push(32);
    proof {
        assert(v@ =~= spec_pat_b220_space());
    }
    v
}


/// Drop leading spaces and tabs.
pub open spec fn trim_left(s: Seq<u8>) -> Seq<u8>
    decreases s.len(),
{
    if s.len() > 0 && (s[0] == 32 || s[0] == 9) {
        trim_left(s.skip(1))
    } else {
        s
    }
}

/// Drop trailing spaces and tabs.
pub open spec fn trim_right(s: Seq<u8>) -> Seq<u8>
    decreases s.len(),
{
    if s.len() > 0 && (s.last() == 32 || s.last() == 9) {
        trim_right(s.drop_last())
    } else {
        s
    }
}

/// Drop surrounding spaces and tabs.
pub open spec fn trim(s: Seq<u8>) -> Seq<u8> {
    trim_right(trim_left(s))
}

/// Step over one line ending: CRLF, or a lone CR or LF.
pub open spec fn skip_eol(s: Seq<u8>) -> Seq<u8> {
    if s.len() >= 2 && s[0] == 13 && s[1] == 10 {
        s.skip(2)
    } else if s.len() >= 1 && (s[0] == 13 || s[0] == 10) {
        s.skip(1)
    } else {
        s
    }
}

/// The value of the first `Server:` header line, surrounding blanks
/// dropped; `None` when no line carries one.
pub open spec fn server_value(s: Seq<u8>) -> Option<Seq<u8>>
    decreases s.len(),
    via server_value_decreases
{
    if s.len() == 0 {
        None
    } else {
        let ll = line_len(s);
        let line = s.take(ll);
        if is_prefix(spec_pat_server_colon(), lower_seq(line)) {
            Some(trim(line.skip(7)))
        } else {
            server_value(skip_eol(s.skip(ll)))
        }
    }
}

#[via_fn]
proof fn server_value_decreases(s: Seq<u8>) {
    if s.len() > 0 {
        lemma_line_len(s);
        let ll = line_len(s);
        let rest = s.skip(ll);
        if ll == 0 {
            assert(s[0] == 13 || s[0] == 10);
            assert(rest =~= s);
        }
    }
}

/// Leading blanks with a non-blank after them pin `trim_left`.
proof fn lemma_trim_left_pin(s: Seq<u8>, k: int)
    requires
        0 <= k <= s.len(),
        forall|j: int| 0 <= j < k ==> (#[trigger] s[j] == 32 || s[j] == 9),
        k < s.len() ==> !(s[k] == 32 || s[k] == 9),
    ensures
        trim_left(s) =~= s.skip(k),
    decreases s.len(),
{
    if k > 0 {
        assert(forall|j: int| 1 <= j < s.len() ==> #[trigger] s[j] == s.skip(1)[j - 1]);
        lemma_trim_left_pin(s.skip(1), k - 1);
        assert(s.skip(1).skip(k - 1) =~= s.skip(k));
    } else {
        if s.len() > 0 && (s[0] == 32 || s[0] == 9) {
            assert(false);
        }
        assert(s.skip(0) =~= s);
    }
}

/// Trailing blanks with a non-blank before them pin `trim_right`.
proof fn lemma_trim_right_pin(s: Seq<u8>, k: int)
    requires
        0 <= k <= s.len(),
        forall|j: int| k <= j < s.len() ==> (#[trigger] s[j] == 32 || s[j] == 9),
        k > 0 ==> !(s[k - 1] == 32 || s[k - 1] == 9),
    ensures
        trim_right(s) =~= s.take(k),
    decreases s.len(),
{
    if k < s.len() {
        assert(forall|j: int| 0 <= j < s.len() - 1 ==> #[trigger] s[j] == s.drop_last()[j]);
        lemma_trim_right_pin(s.drop_last(), k);
        assert(s.drop_last().take(k) =~= s.take(k));
    } else {
        if s.len() > 0 {
            assert(!(s.last() == 32 || s.last() == 9));
        }
        assert(s.take(s.len() as int) =~= s);
    }
}

/// Scan for the end of the line starting at `from`.
fn scan_line_end(s: &[u8], from: usize) -> (r: usize)
    requires
        from <= s@.len(),
    ensures
        from <= r <= s@.len(),
        r < s@.len() ==> (s@[r as int] == 13 || s@[r as int] == 10),
        forall|j: int| from <= j < r ==> !(#[trigger] s@[j] == 13 || s@[j] == 10),
{
    let mut e: usize = from;
    while e < s.len()
        invariant
            from <= e <= s@.len(),
            forall|j: int| from <= j < e ==> !(#[trigger] s@[j] == 13 || s@[j] == 10),
        decreases s@.len() - e,
    {
        let b = *slice_index_get(s, e);
        if b == 13 || b == 10 {
            return e;
        }
        e = e + 1;
    }
    e
}

/// Scan forward for the first byte in `[from, to)` that is not a blank.
fn scan_nonblank(s: &[u8], from: usize, to: usize) -> (r: usize)
    requires
        from <= to <= s@.len(),
    ensures
        from <= r <= to,
        r < to ==> !(s@[r as int] == 32 || s@[r as int] == 9),
        forall|j: int| from <= j < r ==> (#[trigger] s@[j] == 32 || s@[j] == 9),
{
    let mut i: usize = from;
    while i < to
        invariant
            from <= i <= to <= s@.len(),
            forall|j: int| from <= j < i ==> (#[trigger] s@[j] == 32 || s@[j] == 9),
        decreases to - i,
    {
        let b = *slice_index_get(s, i);
        if !(b == 32 || b == 9) {
            return i;
        }
        i = i + 1;
    }
    i
}

/// Scan backward past trailing blanks in `[from, to)`.
fn scan_back_blank(s: &[u8], from: usize, to: usize) -> (r: usize)
    requires
        from <= to <= s@.len(),
    ensures
        from <= r <= to,
        r > from ==> !(s@[r - 1] == 32 || s@[r - 1] == 9),
        forall|j: int| r <= j < to ==> (#[trigger] s@[j] == 32 || s@[j] == 9),
{
    let mut i: usize = to;
    while i > from
        invariant
            from <= i <= to <= s@.len(),
            forall|j: int| i <= j < to ==> (#[trigger] s@[j] == 32 || s@[j] == 9),
        decreases i,
    {
        let b = *slice_index_get(s, i - 1);
        if !(b == 32 || b == 9) {
            return i;
        }
        i = i - 1;
    }
    i
}

/// Find the first `Server:` header and render its trimmed value.
#[verifier::rlimit(100)]
#[verifier::spinoff_prover]
pub fn find_server_value(s: &[u8]) -> (r: Option<String>)
    ensures
        match server_value(s@) {
            Some(v) => r is Some && r->0@ == v.map_values(|b: u8| banner_char(b)),
            None => r is None,
        },
{
    let n = s.len();
    let pat = pat_server_colon();
    let mut p: usize = 0;
    proof {
        assert(s@.skip(0) =~= s@);
    }
    loop
        invariant
            0 <= p <= n,
            n == s@.len(),
            pat@ == spec_pat_server_colon(),
            server_value(s@) == server_value(s@.skip(p as int)),
        decreases n - p,
    {
        let ghost suffix = s@.skip(p as int);
        proof {
            assert(forall|j: int| 0 <= j < suffix.len() ==> #[trigger] suffix[j] == s@[p + j]);
        }
        if p == n {
            proof {
                assert(suffix =~= Seq::<u8>::empty());
            }
            return None;
        }
        let e = scan_line_end(s, p);
        let ghost ll = line_len(suffix);
        proof {
            lemma_line_len_pin(suffix, e - p);
            assert(ll == e - p);
            assert(suffix.take(ll) =~= s@.subrange(p as int, e as int));
        }
        let ghost line = suffix.take(ll);
        // does the lowercased line start with the header name?
        let lowered = lower_vec_range(s, p, e);
        if bytes_start_with(lowered.as_slice(), &pat) {
            proof {
                assert(lowered@ =~= lower_seq(line));
                assert(is_prefix(spec_pat_server_colon(), lower_seq(line)));
                assert(line.len() >= 7);
                assert(server_value(suffix) == Some(trim(line.skip(7))));
            }
            // trim the value after the colon
            let vfrom = scan_nonblank(s, p + 7, e);
            let vto = if vfrom == e { vfrom } else { scan_back_blank(s, vfrom, e) };
            proof {
                let rest = line.skip(7);
                assert(forall|j: int| 0 <= j < rest.len() ==> #[trigger] rest[j] == s@[p + 7 + j]);
                lemma_trim_left_pin(rest, vfrom - (p + 7));
                let lt = rest.skip(vfrom - (p + 7));
                assert(lt =~= s@.subrange(vfrom as int, e as int));
                assert(forall|j: int| 0 <= j < lt.len() ==> #[trigger] lt[j] == s@[vfrom + j]);
                if vfrom == e {
                    lemma_trim_right_pin(lt, 0);
                } else {
                    lemma_trim_right_pin(lt, vto - vfrom);
                }
                assert(trim(rest) =~= s@.subrange(vfrom as int, vto as int));
            }
            let value = bytes_to_display(s, vfrom, vto);
            return Some(value);
        }
        proof {
            assert(lowered@ =~= lower_seq(line));
            assert(!is_prefix(spec_pat_server_colon(), lower_seq(line)));
        }
        // step past the line ending
        let next: usize = if e == n {
            n
        } else if *slice_index_get(s, e) == 13 && e + 1 < n && *slice_index_get(s, e + 1) == 10 {
            e + 2
        } else {
            e + 1
        };
        proof {
            assert(suffix.skip(ll) =~= s@.skip(e as int));
            assert(skip_eol(s@.skip(e as int)) =~= s@.skip(next as int)) by {
                let after = s@.skip(e as int);
                assert(forall|j: int| 0 <= j < after.len() ==> #[trigger] after[j] == s@[e + j]);
                if e == n {
                } else if s@[e as int] == 13 && e + 1 < n && s@[e + 1] == 10 {
                    assert(after.skip(2) =~= s@.skip(e + 2));
                } else {
                    assert(after.skip(1) =~= s@.skip(e + 1));
                }
            }
            assert(server_value(suffix) == server_value(s@.skip(next as int)));
        }
        p = next;
    }
}

/// Lowercase the bytes of `s[from..to]`, ASCII-wise.
fn lower_vec_range(s: &[u8], from: usize, to: usize) -> (r: Vec<u8>)
    requires
        from <= to <= s@.len(),
    ensures
        r@ == lower_seq(s@.subrange(from as int, to as int)),
{
    let ghost t = s@.subrange(from as int, to as int);
    let mut out: Vec<u8> = Vec::new();
    let mut i: usize = from;
    proof {
        assert(out@ =~= t.take(0).map_values(|b: u8| lower_byte(b)));
    }
    while i < to
        invariant
            from <= i <= to <= s@.len(),
            t == s@.subrange(from as int, to as int),
            out@ == t.take(i - from).map_values(|b: u8| lower_byte(b)),
        decreases to - i,
    {
        let b = *slice_index_get(s, i);
        if b >= 65 && b <= 90 {
            out.push(b + 32);
        } else {
            out.push(b);
        }
        proof {
            assert(t.take(i + 1 - from) =~= t.take(i - from).push(t[i - from]));
            assert(t[i - from] == s@[i as int]);
            assert(t.take(i + 1 - from).map_values(|x: u8| lower_byte(x)) =~= t.take(
                i - from,
            ).map_values(|x: u8| lower_byte(x)).push(lower_byte(s@[i as int])));
        }
        i = i + 1;
    }
    proof {
        assert(t.take(to - from) =~= t);
    }
    out
}

/// A minimal TLS ClientHello: record and handshake headers, a zero random, one cipher suite, no compression.
pub open spec fn spec_create_tls_client_hello() -> Seq<u8> {
    seq![0x16u8, 0x03, 0x01, 0x00, 0x2c, 0x01, 0x00, 0x00, 0x28, 0x03, 0x03, 0x00, 0x00, 0x00, 0x00, 0x00, 0x00, 0x00, 0x00, 0x00, 0x00, 0x00, 0x00, 0x00, 0x00, 0x00, 0x00, 0x00, 0x00, 0x00, 0x00, 0x00, 0x00, 0x00, 0x00, 0x00, 0x00, 0x00, 0x00, 0x00, 0x00, 0x00, 0x00, 0x00, 0x00, 0x02, 0x00, 0x35, 0x01, 0x00]
}

/// A minimal TLS ClientHello: record and handshake headers, a zero random, one cipher suite, no compression.
pub fn create_tls_client_hello() -> (v: Vec<u8>)
    ensures
        v@ == spec_create_tls_client_hello(),
{
    let mut v: Vec<u8> = Vec::new();
    v.push(0x16);
    v.push(0x03);
    v.push(0x01);
    v.push(0x00);
    v.push(0x2c);
    v.push(0x01);
    v.push(0x00);
    v.push(0x00);
    v.push(0x28);
    v.push(0x03);
    v.push(0x03);
    v.push(0x00);
    v.push(0x00);
    v.push(0x00);
    v.push(0x00);
    v.push(0x00);
    v.push(0x00);
    v.push(0x00);
    v.push(0x00);
    v.push(0x00);
    v.push(0x00);
    v.push(0x00);
    v.push(0x00);
    v.push(0x00);
    v.push(0x00);
    v.push(0x00);
    v.push(0x00);
    v.push(0x00);
    v.push(0x00);
    v.push(0x00);
    v.push(0x00);
    v.push(0x00);
    v.push(0x00);
    v.push(0x00);
    v.push(0x00);
    v.push(0x00);
    v.push(0x00);
    v.push(0x00);
    v.push(0x00);
    v.push(0x00);
    v.push(0x00);
    v.push(0x00);
    v.push(0x00);
    v.push(0x00);
    v.push(0x00);
    v.push(0x02);
    v.push(0x00);
    v.push(0x35);
    v.push(0x01);
    v.push(0x00);
    proof {
        assert(v@ =~= spec_create_tls_client_hello());
    }
    v
}

/// A standard DNS query for one A record, with a fixed transaction id whose two bytes mark replies as DNS.
pub open spec fn spec_create_dns_query() -> Seq<u8> {
    seq![0x12u8, 0x34, 0x01, 0x00, 0x00, 0x01, 0x00, 0x00, 0x00, 0x00, 0x00, 0x00, 0x06, 0x67, 0x6f, 0x6f, 0x67, 0x6c, 0x65, 0x03, 0x63, 0x6f, 0x6d, 0x00, 0x00, 0x01, 0x00, 0x01]
}

/// A standard DNS query for one A record, with a fixed transaction id whose two bytes mark replies as DNS.
pub fn create_dns_query() -> (v: Vec<u8>)
    ensures
        v@ == spec_create_dns_query(),
{
    let mut v: Vec<u8> = Vec::new();
    v.push(0x12);
    v.push(0x34);
    v.push(0x01);
    v.push(0x00);
    v.push(0x00);
    v.push(0x01);
    v.push(0x00);
    v.push(0x00);
    v.push(0x00);
    v.push(0x00);
    v.push(0x00);
    v.push(0x00);
    v.push(0x06);
    v.push(0x67);
    v.push(0x6f);
    v.push(0x6f);
    v.push(0x67);
    v.push(0x6c);
    v.push(0x65);
    v.push(0x03);
    v.push(0x63);
    v.push(0x6f);
    v.push(0x6d);
    v.push(0x00);
    v.push(0x00);
    v.push(0x01);
    v.push(0x00);
    v.push(0x01);
    proof {
        assert(v@ =~= spec_create_dns_query());
    }
    v
}

/// The probe families tried against an open port, in declared order.
#[derive(Clone, Copy, Debug, PartialEq, Eq, Structural)]
pub enum ProbeKind {
    Http,
    Ssh,
    Tls,
    Smtp,
    BannerGrab,
}

/// The candidate probes for a port: protocol-specific probes on their
/// well-known ports, a plain banner grab when none applies.
pub open spec fn spec_candidate_probes(port: u16) -> Seq<ProbeKind> {
    let http = port == 80 || port == 8080 || port == 8000 || port == 8443 || port == 9000 || port
        == 3000;
    let ssh = port == 22 || port == 2222;
    let tls = port == 443 || port == 8443;
    let smtp = port == 25 || port == 587;
    (if http {
        seq![ProbeKind::Http]
    } else {
        Seq::empty()
    }) + (if ssh {
        seq![ProbeKind::Ssh]
    } else {
        Seq::empty()
    }) + (if tls {
        seq![ProbeKind::Tls]
    } else {
        Seq::empty()
    }) + (if smtp {
        seq![ProbeKind::Smtp]
    } else {
        Seq::empty()
    }) + (if !http && !ssh && !tls && !smtp {
        seq![ProbeKind::BannerGrab]
    } else {
        Seq::empty()
    })
}

/// Select the candidate probes for a port, in declared order.
pub fn candidate_probes(port: u16) -> (r: Vec<ProbeKind>)
    ensures
        r@ == spec_candidate_probes(port),
{
    let http = port == 80 || port == 8080 || port == 8000 || port == 8443 || port == 9000 || port
        == 3000;
    let ssh = port == 22 || port == 2222;
    let tls = port == 443 || port == 8443;
    let smtp = port == 25 || port == 587;
    let mut v: Vec<ProbeKind> = Vec::new();
    if http {
        v.push(ProbeKind::Http);
    }
    if ssh {
        v.push(ProbeKind::Ssh);
    }
    if tls {
        v.push(ProbeKind::Tls);
    }
    if smtp {
        v.push(ProbeKind::Smtp);
    }
    if !http && !ssh && !tls && !smtp {
        v.push(ProbeKind::BannerGrab);
    }
    proof {
        assert(v@ =~= spec_candidate_probes(port));
    }
    v
}

/// The label of a rules-engine hit: the product name a response of
/// this shape announces.
pub open spec fn spec_identify_service(resp: Seq<u8>) -> Seq<char> {
    let text = lower_seq(resp);
    if is_prefix(spec_pat_http_lower(), text) || contains_sub(text, spec_pat_content_type())
        || contains_sub(text, spec_pat_server_colon()) {
        if contains_sub(text, spec_pat_apache()) {
            "Apache HTTP Server"@
        } else if contains_sub(text, spec_pat_nginx()) {
            "nginx"@
        } else if contains_sub(text, spec_pat_iis()) {
            "Microsoft IIS"@
        } else {
            "HTTP Server"@
        }
    } else if is_prefix(spec_pat_ssh_lower(), text) {
        "SSH Server"@
    } else if is_prefix(spec_pat_b220(), text) && (contains_sub(text, spec_pat_ftp())
        || contains_sub(text, spec_pat_file_transfer())) {
        "FTP Server"@
    } else if is_prefix(spec_pat_b220(), text) && contains_sub(text, spec_pat_smtp()) {
        "SMTP Server"@
    } else if resp.len() > 5 && resp[0] == 0x16 && resp[1] == 0x03 {
        "TLS/SSL Server"@
    } else if resp.len() >= 12 && resp[0] == 0x12 && resp[1] == 0x34 {
        "DNS Server"@
    } else if contains_sub(text, spec_pat_unauthorized()) && contains_sub(
        text,
        spec_pat_www_authenticate(),
    ) {
        "HTTP Web Admin Interface"@
    } else {
        Seq::empty()
    }
}

/// Identify the service behind a raw response, as a label; empty when
/// nothing matches.
pub fn identify_service(response: &[u8]) -> (r: String)
    ensures
        r@ == spec_identify_service(response@),
{
    let text = lower_vec(response);
    let ts = text.as_slice();
    proof {
        assert(ts@ == lower_seq(response@));
    }
    if bytes_start_with(ts, &pat_http_lower()) || bytes_contain(ts, &pat_content_type())
        || bytes_contain(ts, &pat_server_colon()) {
        if bytes_contain(ts, &pat_apache()) {
            String::from_str("Apache HTTP Server")
        } else if bytes_contain(ts, &pat_nginx()) {
            String::from_str("nginx")
        } else if bytes_contain(ts, &pat_iis()) {
            String::from_str("Microsoft IIS")
        } else {
            String::from_str("HTTP Server")
        }
    } else if bytes_start_with(ts, &pat_ssh_lower()) {
        String::from_str("SSH Server")
    } else if bytes_start_with(ts, &pat_b220()) && (bytes_contain(ts, &pat_ftp()) || bytes_contain(
        ts,
        &pat_file_transfer(),
    )) {
        String::from_str("FTP Server")
    } else if bytes_start_with(ts, &pat_b220()) && bytes_contain(ts, &pat_smtp()) {
        String::from_str("SMTP Server")
    } else if response.len() > 5 && *slice_index_get(response, 0) == 0x16 && *slice_index_get(
        response,
        1,
    ) == 0x03 {
        String::from_str("TLS/SSL Server")
    } else if response.len() >= 12 && *slice_index_get(response, 0) == 0x12 && *slice_index_get(
        response,
        1,
    ) == 0x34 {
        String::from_str("DNS Server")
    } else if bytes_contain(ts, &pat_unauthorized()) && bytes_contain(
        ts,
        &pat_www_authenticate(),
    ) {
        String::from_str("HTTP Web Admin Interface")
    } else {
        String::new()
    }
}

/// Map an HTTP response to its service record: the first line as banner,
/// confidence 90 percent, and the `Server:` header value when present.
pub fn parse_http_response(resp: &[u8]) -> (r: Option<ServiceInfo>)
    ensures
        !is_prefix(spec_pat_http_upper(), resp@) ==> r is None,
        is_prefix(spec_pat_http_upper(), resp@) ==> {
            &&& r is Some
            &&& r->0.wf()
            &&& r->0.name@ == "HTTP"@
            &&& r->0.version is None
            &&& r->0.banner is Some
            &&& r->0.banner->0@ == banner_of(resp@)
            &&& r->0.confidence_percent == 90
            &&& match server_value(resp@) {
                Some(v) => r->0.additional_info@.len() == 1 && r->0.additional_info@[0].0@
                    == "server"@ && r->0.additional_info@[0].1@ == v.map_values(
                    |b: u8| banner_char(b),
                ),
                None => r->0.additional_info@.len() == 0,
            }
        },
{
    if !bytes_start_with(resp, &pat_http_upper()) {
        return None;
    }
    proof {
        lemma_line_len(resp@);
    }
    let line_end = find_line_end(resp);
    let banner = bytes_to_display(resp, 0, line_end);
    proof {
        assert(resp@.subrange(0, line_len(resp@)) =~= resp@.take(line_len(resp@)));
    }
    let mut extra: Vec<(String, String)> = Vec::new();
    match find_server_value(resp) {
        Some(v) => {
            extra.push((String::from_str("server"), v));
        },
        None => {},
    }
    Some(
        ServiceInfo {
            name: String::from_str("HTTP"),
            version: None,
            banner: Some(banner),
            confidence_percent: 90,
            additional_info: extra,
        },
    )
}

/// Map an SSH banner to its service record: the first word as version,
/// the first line as banner, confidence 95 percent.
pub fn parse_ssh_banner(resp: &[u8]) -> (r: Option<ServiceInfo>)
    ensures
        !is_prefix(spec_pat_ssh_upper(), resp@) ==> r is None,
        is_prefix(spec_pat_ssh_upper(), resp@) ==> {
            &&& r is Some
            &&& r->0.wf()
            &&& r->0.name@ == "SSH"@
            &&& r->0.version is Some
            &&& r->0.version->0@ == resp@.take(word_len(resp@)).map_values(|b: u8| banner_char(b))
            &&& r->0.banner is Some
            &&& r->0.banner->0@ == banner_of(resp@)
            &&& r->0.confidence_percent == 95
            &&& r->0.additional_info@.len() == 0
        },
{
    if !bytes_start_with(resp, &pat_ssh_upper()) {
        return None;
    }
    proof {
        lemma_line_len(resp@);
        lemma_word_len(resp@);
    }
    let line_end = find_line_end(resp);
    let banner = bytes_to_display(resp, 0, line_end);
    let word_end = find_word_end(resp);
    let version = bytes_to_display(resp, 0, word_end);
    proof {
        assert(resp@.subrange(0, line_len(resp@)) =~= resp@.take(line_len(resp@)));
        assert(resp@.subrange(0, word_len(resp@)) =~= resp@.take(word_len(resp@)));
    }
    Some(
        ServiceInfo {
            name: String::from_str("SSH"),
            version: Some(version),
            banner: Some(banner),
            confidence_percent: 95,
            additional_info: Vec::new(),
        },
    )
}

/// Run the rules engine over one response: HTTP and SSH records with
/// their banners; a 220 greeting resolved to FTP or SMTP; the TLS and
/// DNS wire markers; nothing otherwise.
pub fn identify_response(resp: &[u8]) -> (r: Option<ServiceInfo>)
    ensures
        ({
            let text = lower_seq(resp@);
            let http = is_prefix(spec_pat_http_upper(), resp@);
            let ssh = !http && is_prefix(spec_pat_ssh_upper(), resp@);
            let greet = !http && !ssh && is_prefix(spec_pat_b220_space(), resp@);
            let ftp = greet && contains_sub(text, spec_pat_ftp());
            let smtp = greet && !ftp && contains_sub(text, spec_pat_smtp());
            let tls = !http && !ssh && !ftp && !smtp && resp@.len() >= 2 && resp@[0] == 0x16
                && resp@[1] == 0x03;
            let dns = !http && !ssh && !ftp && !smtp && !tls && resp@.len() >= 12 && resp@[0]
                == 0x12 && resp@[1] == 0x34;
            &&& (http ==> r is Some && r->0.name@ == "HTTP"@ && r->0.confidence_percent == 90)
            &&& (ssh ==> r is Some && r->0.name@ == "SSH"@ && r->0.confidence_percent == 95
                && r->0.version is Some)
            &&& (ftp ==> r is Some && r->0.name@ == "FTP"@ && r->0.confidence_percent == 90)
            &&& (smtp ==> r is Some && r->0.name@ == "SMTP"@ && r->0.confidence_percent == 90)
            &&& (tls ==> r is Some && r->0.name@ == "TLS"@ && r->0.confidence_percent == 85
                && r->0.banner is None && r->0.version is None)
            &&& (dns ==> r is Some && r->0.name@ == "DNS"@ && r->0.confidence_percent == 85
                && r->0.banner is None && r->0.version is None)
            &&& (ftp || smtp || tls || dns ==> r is Some && r->0.version is None
                && r->0.additional_info@.len() == 0)
            &&& (!http && !ssh && !ftp && !smtp && !tls && !dns ==> r is None)
            &&& (r is Some ==> r->0.wf())
            &&& (http || ssh || ftp || smtp ==> r is Some && r->0.banner is Some
                && r->0.banner->0@ == banner_of(resp@))
        }),
{
    if bytes_start_with(resp, &pat_http_upper()) {
        return parse_http_response(resp);
    }
    if bytes_start_with(resp, &pat_ssh_upper()) {
        return parse_ssh_banner(resp);
    }
    let text = lower_vec(resp);
    let ts = text.as_slice();
    proof {
        assert(ts@ == lower_seq(resp@));
    }
    if bytes_start_with(resp, &pat_b220_space()) {
        proof {
            lemma_line_len(resp@);
        }
        let line_end = find_line_end(resp);
        let banner = bytes_to_display(resp, 0, line_end);
        proof {
            assert(resp@.subrange(0, line_len(resp@)) =~= resp@.take(line_len(resp@)));
        }
        if bytes_contain(ts, &pat_ftp()) {
            return Some(
                ServiceInfo {
                    name: String::from_str("FTP"),
                    version: None,
                    banner: Some(banner),
                    confidence_percent: 90,
                    additional_info: Vec::new(),
                },
            );
        }
        if bytes_contain(ts, &pat_smtp()) {
            return Some(
                ServiceInfo {
                    name: String::from_str("SMTP"),
                    version: None,
                    banner: Some(banner),
                    confidence_percent: 90,
                    additional_info: Vec::new(),
                },
            );
        }
    }
    if resp.len() >= 2 && *slice_index_get(resp, 0) == 0x16 && *slice_index_get(resp, 1) == 0x03 {
        return Some(
            ServiceInfo {
                name: String::from_str("TLS"),
                version: None,
                banner: None,
                confidence_percent: 85,
                additional_info: Vec::new(),
            },
        );
    }
    if resp.len() >= 12 && *slice_index_get(resp, 0) == 0x12 && *slice_index_get(resp, 1) == 0x34 {
        return Some(
            ServiceInfo {
                name: String::from_str("DNS"),
                version: None,
                banner: None,
                confidence_percent: 85,
                additional_info: Vec::new(),
            },
        );
    }
    None
}

/// The well-known service label of a port.
pub open spec fn spec_service_name(port: u16) -> Seq<char> {
    if port == 21 { "FTP"@ }
    else if port == 22 { "SSH"@ }
    else if port == 23 { "TELNET"@ }
    else if port == 25 { "SMTP"@ }
    else if port == 53 { "DNS"@ }
    else if port == 80 { "HTTP"@ }
    else if port == 110 { "POP3"@ }
    else if port == 135 { "RPC"@ }
    else if port == 139 { "NETBIOS"@ }
    else if port == 143 { "IMAP"@ }
    else if port == 443 { "HTTPS"@ }
    else if port == 445 { "SMB"@ }
    else if port == 993 { "IMAPS"@ }
    else if port == 995 { "POP3S"@ }
    else if port == 1433 { "MSSQL"@ }
    else if port == 1521 { "ORACLE"@ }
    else if port == 3306 { "MYSQL"@ }
    else if port == 3389 { "RDP"@ }
    else if port == 5000 { "UPNP"@ }
    else if port == 5432 { "POSTGRESQL"@ }
    else if port == 5900 { "VNC"@ }
    else if port == 6379 { "REDIS"@ }
    else if port == 8080 { "HTTP-ALT"@ }
    else if port == 8443 { "HTTPS-ALT"@ }
    else if port == 27017 { "MONGODB"@ }
    else { "UNKNOWN"@ }
}

/// The well-known service label of a port.
pub fn get_service_name(port: u16) -> (r: &'static str)
    ensures
        r@ == spec_service_name(port),
{
    match port {
        21 => "FTP",
        22 => "SSH",
        23 => "TELNET",
        25 => "SMTP",
        53 => "DNS",
        80 => "HTTP",
        110 => "POP3",
        135 => "RPC",
        139 => "NETBIOS",
        143 => "IMAP",
        443 => "HTTPS",
        445 => "SMB",
        993 => "IMAPS",
        995 => "POP3S",
        1433 => "MSSQL",
        1521 => "ORACLE",
        3306 => "MYSQL",
        3389 => "RDP",
        5000 => "UPNP",
        5432 => "POSTGRESQL",
        5900 => "VNC",
        6379 => "REDIS",
        8080 => "HTTP-ALT",
        8443 => "HTTPS-ALT",
        27017 => "MONGODB",
        _ => "UNKNOWN",
    }
}


/// The SMTP greeting probe payload.
pub open spec fn spec_smtp_probe_payload() -> Seq<char> {
    "EHLO probe.local\r\n"@
}

/// The SMTP greeting probe payload.
pub fn smtp_probe_payload() -> (r: String)
    ensures
        r@ == spec_smtp_probe_payload(),
{
    String::from_str("EHLO probe.local\r\n")
}

/// The HTTP probe payload: a minimal GET with the target as host.
pub open spec fn spec_http_probe_payload(host: Seq<char>, port: u16) -> Seq<char> {
    "GET / HTTP/1.1\r\nHost: "@ + host + ":"@ + dec_str(port as int)
        + "\r\nConnection: close\r\n\r\n"@
}

/// Build the HTTP probe payload for one target.
pub fn http_probe_payload(host: &str, port: u16) -> (r: String)
    ensures
        r@ == spec_http_probe_payload(host@, port),
{
    let mut out = String::from_str("GET / HTTP/1.1\r\nHost: ");
    out.append(host);
    out.append(":");
    append_dec(&mut out, port as u32);
    out.append("\r\nConnection: close\r\n\r\n");
    proof {
        assert(out@ =~= spec_http_probe_payload(host@, port));
    }
    out
}

} // verus!
