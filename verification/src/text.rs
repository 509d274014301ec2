//! Character-level ground work for the target and port grammars: decimal
//! runs, separator search, and the rendering that is the parse's inverse.

use vstd::prelude::*;

verus! {

/// Whether `c` is a decimal digit.
pub open spec fn is_dec_digit(c: char) -> bool {
    48 <= c as int && c as int <= 57
}

/// The value of a decimal digit.
pub open spec fn d_val(c: char) -> int {
    c as int - 48
}

/// The digit character for a value in 0..10.
pub open spec fn digit_char(v: int) -> char {
    if v == 0 {
        '0'
    } else if v == 1 {
        '1'
    } else if v == 2 {
        '2'
    } else if v == 3 {
        '3'
    } else if v == 4 {
        '4'
    } else if v == 5 {
        '5'
    } else if v == 6 {
        '6'
    } else if v == 7 {
        '7'
    } else if v == 8 {
        '8'
    } else {
        '9'
    }
}

/// The value of a non-empty, all-digit run; `None` on an empty run or a
/// stray character. The grammar puts no bound here; callers bound the value.
pub open spec fn parse_dec(s: Seq<char>) -> Option<int>
    decreases s.len(),
{
    if s.len() == 0 {
        None
    } else if !is_dec_digit(s.last()) {
        None
    } else if s.len() == 1 {
        Some(d_val(s.last()))
    } else {
        match parse_dec(s.drop_last()) {
            Some(v) => Some(v * 10 + d_val(s.last())),
            None => None,
        }
    }
}

/// The decimal rendering of `v >= 0`, without leading zeros.
pub open spec fn dec_str(v: int) -> Seq<char>
    decreases v,
{
    if v < 0 {
        Seq::empty()
    } else if v < 10 {
        seq![digit_char(v)]
    } else {
        dec_str(v / 10).push(digit_char(v % 10))
    }
}

/// The least index of `c` in `s`, or -1 when `c` does not occur.
pub open spec fn find_char(s: Seq<char>, c: char) -> int
    decreases s.len(),
{
    if s.len() == 0 {
        -1
    } else if s[0] == c {
        0
    } else {
        let r = find_char(s.skip(1), c);
        if r < 0 {
            -1
        } else {
            r + 1
        }
    }
}

/// A successful decimal parse sees digits only.
pub proof fn lemma_parse_dec_digits(s: Seq<char>)
    requires
        parse_dec(s) is Some,
    ensures
        forall|i: int| 0 <= i < s.len() ==> is_dec_digit(#[trigger] s[i]),
    decreases s.len(),
{
    if s.len() > 1 {
        lemma_parse_dec_digits(s.drop_last());
        assert(forall|i: int| 0 <= i < s.len() - 1 ==> #[trigger] s[i] == s.drop_last()[i]);
    }
}

/// The value of a digit run never goes down as digits are appended.
pub proof fn lemma_parse_dec_nonneg(s: Seq<char>)
    ensures
        parse_dec(s) is Some ==> parse_dec(s)->Some_0 >= 0,
    decreases s.len(),
{
    if s.len() > 1 {
        lemma_parse_dec_nonneg(s.drop_last());
    }
}

/// Rendering a value and parsing the rendering round-trips, and the
/// rendering is a non-empty run of digits.
pub proof fn lemma_dec_str_parses(v: int)
    requires
        v >= 0,
    ensures
        parse_dec(dec_str(v)) == Some(v),
        dec_str(v).len() >= 1,
        forall|i: int| 0 <= i < dec_str(v).len() ==> is_dec_digit(#[trigger] dec_str(v)[i]),
    decreases v,
{
    if v < 10 {
        assert(dec_str(v) =~= seq![digit_char(v)]);
        assert(parse_dec(seq![digit_char(v)]) == Some(v));
    } else {
        lemma_dec_str_parses(v / 10);
        let s = dec_str(v);
        assert(s =~= dec_str(v / 10).push(digit_char(v % 10)));
        assert(s.drop_last() =~= dec_str(v / 10));
        assert(s.last() == digit_char(v % 10));
        assert(v == (v / 10) * 10 + v % 10);
        assert(forall|i: int| 0 <= i < s.len() - 1 ==> s[i] == #[trigger] s.drop_last()[i]);
    }
}

/// `find_char` returned -1: there is no occurrence.
pub proof fn lemma_find_char_absent(s: Seq<char>, c: char)
    requires
        find_char(s, c) < 0,
    ensures
        forall|i: int| 0 <= i < s.len() ==> s[i] != c,
    decreases s.len(),
{
    if s.len() > 0 {
        lemma_find_char_absent(s.skip(1), c);
        assert(forall|j: int| 1 <= j < s.len() ==> #[trigger] s[j] == s.skip(1)[j - 1]);
    }
}

/// The converse: an occurrence with nothing before it pins `find_char`.
pub proof fn lemma_find_char_is(s: Seq<char>, c: char, i: int)
    requires
        0 <= i < s.len(),
        s[i] == c,
        forall|j: int| 0 <= j < i ==> s[j] != c,
    ensures
        find_char(s, c) == i,
    decreases s.len(),
{
    if i > 0 {
        assert(forall|j: int| 1 <= j < s.len() ==> #[trigger] s[j] == s.skip(1)[j - 1]);
        lemma_find_char_is(s.skip(1), c, i - 1);
    }
}

/// No occurrence at all pins `find_char` at -1.
pub proof fn lemma_find_char_none(s: Seq<char>, c: char)
    requires
        forall|i: int| 0 <= i < s.len() ==> s[i] != c,
    ensures
        find_char(s, c) == -1,
    decreases s.len(),
{
    if s.len() > 0 {
        assert(forall|j: int| 1 <= j < s.len() ==> #[trigger] s[j] == s.skip(1)[j - 1]);
        lemma_find_char_none(s.skip(1), c);
    }
}

/// Whether `c` is a hexadecimal digit.
pub open spec fn is_hex_digit(c: char) -> bool {
    is_dec_digit(c) || (97 <= c as int && c as int <= 102) || (65 <= c as int && c as int <= 70)
}

/// The value of a hexadecimal digit.
pub open spec fn h_val(c: char) -> int {
    if is_dec_digit(c) {
        c as int - 48
    } else if 97 <= c as int && c as int <= 102 {
        c as int - 87
    } else {
        c as int - 55
    }
}

/// The lowercase digit character for a value in 0..16.
pub open spec fn hex_char(v: int) -> char {
    if v < 10 {
        digit_char(v)
    } else if v == 10 {
        'a'
    } else if v == 11 {
        'b'
    } else if v == 12 {
        'c'
    } else if v == 13 {
        'd'
    } else if v == 14 {
        'e'
    } else {
        'f'
    }
}

/// The value of a non-empty, all-hex run; `None` otherwise.
pub open spec fn parse_hex(s: Seq<char>) -> Option<int>
    decreases s.len(),
{
    if s.len() == 0 {
        None
    } else if !is_hex_digit(s.last()) {
        None
    } else if s.len() == 1 {
        Some(h_val(s.last()))
    } else {
        match parse_hex(s.drop_last()) {
            Some(v) => Some(v * 16 + h_val(s.last())),
            None => None,
        }
    }
}

/// The lowercase hexadecimal rendering of `v >= 0`, without leading zeros.
pub open spec fn hex_str(v: int) -> Seq<char>
    decreases v,
{
    if v < 0 {
        Seq::empty()
    } else if v < 16 {
        seq![hex_char(v)]
    } else {
        hex_str(v / 16).push(hex_char(v % 16))
    }
}

/// A successful hex parse sees hex digits only.
pub proof fn lemma_parse_hex_digits(s: Seq<char>)
    requires
        parse_hex(s) is Some,
    ensures
        forall|i: int| 0 <= i < s.len() ==> is_hex_digit(#[trigger] s[i]),
    decreases s.len(),
{
    if s.len() > 1 {
        lemma_parse_hex_digits(s.drop_last());
        assert(forall|i: int| 0 <= i < s.len() - 1 ==> #[trigger] s[i] == s.drop_last()[i]);
    }
}

/// A hex run's value is non-negative, and bounded by its length.
pub proof fn lemma_parse_hex_bound(s: Seq<char>)
    requires
        parse_hex(s) is Some,
    ensures
        0 <= parse_hex(s)->Some_0,
        s.len() <= 4 ==> parse_hex(s)->Some_0 < 0x10000,
    decreases s.len(),
{
    if s.len() > 1 {
        lemma_parse_hex_bound(s.drop_last());
        if s.len() <= 4 {
            assert(s.drop_last().len() <= 3);
            lemma_parse_hex_small(s.drop_last());
        }
    }
}

/// A hex run of at most three digits is below 0x1000, and shorter runs
/// correspondingly lower.
proof fn lemma_parse_hex_small(s: Seq<char>)
    requires
        parse_hex(s) is Some,
        s.len() <= 3,
    ensures
        0 <= parse_hex(s)->Some_0 < 0x1000,
        s.len() <= 2 ==> parse_hex(s)->Some_0 < 0x100,
        s.len() <= 1 ==> parse_hex(s)->Some_0 < 0x10,
    decreases s.len(),
{
    if s.len() > 1 {
        lemma_parse_hex_small(s.drop_last());
    }
}

/// Rendering a value in hex and parsing it back round-trips; the rendering
/// is a non-empty run of hex digits, and short for small values.
pub proof fn lemma_hex_str_parses(v: int)
    requires
        v >= 0,
    ensures
        parse_hex(hex_str(v)) == Some(v),
        hex_str(v).len() >= 1,
        v < 0x10000 ==> hex_str(v).len() <= 4,
        forall|i: int| 0 <= i < hex_str(v).len() ==> is_hex_digit(#[trigger] hex_str(v)[i]),
    decreases v,
{
    if v < 16 {
        assert(hex_str(v) =~= seq![hex_char(v)]);
        assert(parse_hex(seq![hex_char(v)]) == Some(v));
    } else {
        lemma_hex_str_parses(v / 16);
        let s = hex_str(v);
        assert(s.drop_last() =~= hex_str(v / 16));
        assert(s.last() == hex_char(v % 16));
        assert(v == (v / 16) * 16 + v % 16);
        assert(forall|i: int| 0 <= i < s.len() - 1 ==> #[trigger] s[i] == s.drop_last()[i]);
        if v < 0x10000 {
            assert(v / 16 < 0x1000);
            assert(hex_str(v / 16).len() <= 3) by {
                if v / 16 >= 16 {
                    assert(hex_str(v / 16).drop_last() =~= hex_str(v / 16 / 16));
                    if v / 16 / 16 >= 16 {
                        assert(hex_str(v / 16 / 16).drop_last() =~= hex_str(v / 16 / 16 / 16));
                        assert(v / 16 / 16 / 16 < 16);
                    }
                }
            }
        }
    }
}

/// Parse the hexadecimal run `s[from..to]`, rejecting runs longer than
/// four digits. Mirrors `parse_hex` on that range.
pub fn parse_hex_group(s: &str, from: usize, to: usize) -> (r: Option<u16>)
    requires
        from <= to <= s@.len(),
    ensures
        r == (match parse_hex(s@.subrange(from as int, to as int)) {
            Some(w) => if to - from <= 4 { Some(w as u16) } else { None::<u16> },
            None => None::<u16>,
        }),
{
    if from == to {
        assert(s@.subrange(from as int, to as int) =~= Seq::<char>::empty());
        return None;
    }
    if to - from > 4 {
        return None;
    }
    let ghost whole = s@.subrange(from as int, to as int);
    let mut i: usize = from;
    let mut acc: u32 = 0;
    while i < to
        invariant
            from <= i <= to <= s@.len(),
            from < to,
            to - from <= 4,
            i > from ==> {
                let sofar = parse_hex(s@.subrange(from as int, i as int));
                &&& sofar is Some
                &&& acc == sofar->Some_0
                &&& acc < 0x10000
            },
            i == from ==> acc == 0,
        decreases to - i,
    {
        let c = s.get_char(i);
        let d: u32 = if c >= '0' && c <= '9' {
            (c as u32) - 48
        } else if c >= 'a' && c <= 'f' {
            (c as u32) - 87
        } else if c >= 'A' && c <= 'F' {
            (c as u32) - 55
        } else {
            proof {
                let sub = s@.subrange(from as int, to as int);
                assert(sub[i - from] == s@[i as int]);
                assert(!is_hex_digit(sub[i - from]));
                if parse_hex(sub) is Some {
                    lemma_parse_hex_digits(sub);
                }
            }
            return None;
        };
        proof {
            let prev = s@.subrange(from as int, i as int);
            let cur = s@.subrange(from as int, i + 1 as int);
            assert(cur.last() == s@[i as int]);
            assert(cur.drop_last() =~= prev);
            if i as int + 1 - from as int <= 3 {
                lemma_parse_hex_small(cur);
            } else {
                lemma_parse_hex_bound(cur);
            }
        }
        acc = acc * 16 + d;
        i = i + 1;
    }
    Some(acc as u16)
}

/// Append one lowercase hex digit to `out`.
pub fn append_hex_digit(out: &mut String, d: u8)
    requires
        d < 16,
    ensures
        final(out)@ == old(out)@ + seq![hex_char(d as int)],
{
    if d < 10 {
        append_digit(out, d);
    } else {
        proof {
            reveal_strlit("a");
            reveal_strlit("b");
            reveal_strlit("c");
            reveal_strlit("d");
            reveal_strlit("e");
            reveal_strlit("f");
        }
        match d {
            10 => out.append("a"),
            11 => out.append("b"),
            12 => out.append("c"),
            13 => out.append("d"),
            14 => out.append("e"),
            _ => out.append("f"),
        }
        assert(final(out)@ =~= old(out)@ + seq![hex_char(d as int)]);
    }
}

/// Append the lowercase hexadecimal rendering of `v` to `out`.
pub fn append_hex(out: &mut String, v: u16)
    ensures
        final(out)@ == old(out)@ + hex_str(v as int),
    decreases v,
{
    if v < 16 {
        append_hex_digit(out, v as u8);
    } else {
        append_hex(out, v / 16);
        append_hex_digit(out, (v % 16) as u8);
        assert(final(out)@ =~= old(out)@ + hex_str(v as int));
    }
}

/// Scan `s` in `[from, to)` for the first occurrence of `c`; `to` when absent.
pub fn scan_for(s: &str, from: usize, to: usize, c: char) -> (r: usize)
    requires
        from <= to <= s@.len(),
    ensures
        from <= r <= to,
        r < to ==> s@[r as int] == c,
        forall|j: int| from <= j < r ==> s@[j] != c,
{
    let mut i: usize = from;
    while i < to
        invariant
            from <= i <= to <= s@.len(),
            forall|j: int| from <= j < i ==> s@[j] != c,
        decreases to - i,
    {
        if s.get_char(i) == c {
            return i;
        }
        i = i + 1;
    }
    i
}

/// Parse the decimal run `s[from..to]`, rejecting values above `max`.
/// Mirrors `parse_dec` on that range exactly.
pub fn parse_dec_range(s: &str, from: usize, to: usize, max: u32) -> (r: Option<u32>)
    requires
        from <= to <= s@.len(),
    ensures
        r == (match parse_dec(s@.subrange(from as int, to as int)) {
            Some(w) => if w <= max { Some(w as u32) } else { None::<u32> },
            None => None::<u32>,
        }),
{
    if from == to {
        assert(s@.subrange(from as int, to as int) =~= Seq::<char>::empty());
        return None;
    }
    let ghost whole = s@.subrange(from as int, to as int);
    let mut i: usize = from;
    let mut acc: u64 = 0;
    while i < to
        invariant
            from <= i <= to <= s@.len(),
            from < to,
            i > from ==> {
                let sofar = parse_dec(s@.subrange(from as int, i as int));
                &&& sofar is Some
                &&& (sofar->Some_0 <= u32::MAX ==> acc == sofar->Some_0)
                &&& (sofar->Some_0 > u32::MAX ==> acc > u32::MAX)
            },
            i == from ==> acc == 0,
        decreases to - i,
    {
        let c = s.get_char(i);
        if c < '0' || c > '9' {
            proof {
                let sub = s@.subrange(from as int, to as int);
                assert(sub[i - from] == s@[i as int]);
                assert(!is_dec_digit(sub[i - from]));
                if parse_dec(sub) is Some {
                    lemma_parse_dec_digits(sub);
                }
            }
            return None;
        }
        let d: u64 = (c as u32 as u64) - 48;
        proof {
            let prev = s@.subrange(from as int, i as int);
            let cur = s@.subrange(from as int, i + 1 as int);
            assert(cur.last() == s@[i as int]);
            assert(cur.drop_last() =~= prev);
            if i > from {
                lemma_parse_dec_nonneg(prev);
            }
        }
        if acc > u32::MAX as u64 {
            // keep acc above the bound; the true value only grows
            acc = u32::MAX as u64 + 1;
        } else {
            acc = acc * 10 + d;
        }
        i = i + 1;
    }
    proof {
        lemma_parse_dec_nonneg(whole);
    }
    if acc <= max as u64 {
        Some(acc as u32)
    } else {
        None
    }
}

/// Append one digit to `out`.
pub fn append_digit(out: &mut String, d: u8)
    requires
        d < 10,
    ensures
        final(out)@ == old(out)@ + seq![digit_char(d as int)],
{
    proof {
        reveal_strlit("0");
        reveal_strlit("1");
        reveal_strlit("2");
        reveal_strlit("3");
        reveal_strlit("4");
        reveal_strlit("5");
        reveal_strlit("6");
        reveal_strlit("7");
        reveal_strlit("8");
        reveal_strlit("9");
    }
    match d {
        0 => out.append("0"),
        1 => out.append("1"),
        2 => out.append("2"),
        3 => out.append("3"),
        4 => out.append("4"),
        5 => out.append("5"),
        6 => out.append("6"),
        7 => out.append("7"),
        8 => out.append("8"),
        _ => out.append("9"),
    }
    assert(final(out)@ =~= old(out)@ + seq![digit_char(d as int)]);
}

/// Append the decimal rendering of `v` to `out`.
pub fn append_dec(out: &mut String, v: u32)
    ensures
        final(out)@ == old(out)@ + dec_str(v as int),
    decreases v,
{
    if v < 10 {
        append_digit(out, v as u8);
    } else {
        append_dec(out, v / 10);
        append_digit(out, (v % 10) as u8);
        assert(final(out)@ =~= old(out)@ + dec_str(v as int));
    }
}

} // verus!
