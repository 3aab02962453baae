//! Primitives of the JSON wire text: string escaping and unescaping and
//! unsigned numbers, with the exact grammar each parser accepts and proofs
//! that parsing inverts printing. The envelope module builds the frame
//! formats on top of these.

use vstd::prelude::*;
use crate::crypto::hex_digit;
use crate::text::{seq_starts_with, starts_with, str_to_chars};

verus! {

/// The escape sequence for one character inside a JSON string: quotes,
/// backslashes and the common control characters get two-character
/// escapes, other control characters a `\u00XX` escape, everything else
/// stands for itself.
pub open spec fn esc_char(c: char) -> Seq<char> {
    if c == '"' {
        seq!['\\', '"']
    } else if c == '\\' {
        seq!['\\', '\\']
    } else if c == '\n' {
        seq!['\\', 'n']
    } else if c == '\r' {
        seq!['\\', 'r']
    } else if c == '\t' {
        seq!['\\', 't']
    } else if (c as u32) < 0x20 {
        seq!['\\', 'u', '0', '0', hex_digit((c as u32) as int / 16), hex_digit((c as u32) as int % 16)]
    } else {
        seq![c]
    }
}

/// The escaped body of a JSON string.
pub open spec fn spec_escape(s: Seq<char>) -> Seq<char>
    decreases s.len(),
{
    if s.len() == 0 {
        Seq::<char>::empty()
    } else {
        esc_char(s.first()) + spec_escape(s.skip(1))
    }
}

/// A complete JSON string token: quote, escaped body, quote.
pub open spec fn spec_json_string(s: Seq<char>) -> Seq<char> {
    seq!['"'] + spec_escape(s) + seq!['"']
}

fn emit_esc_char(out: &mut Vec<char>, c: char)
    ensures
        final(out)@ == old(out)@ + esc_char(c),
{
    if c == '"' {
        out.push('\\');
        out.push('"');
    } else if c == '\\' {
        out.push('\\');
        out.push('\\');
    } else if c == '\n' {
        out.push('\\');
        out.push('n');
    } else if c == '\r' {
        out.push('\\');
        out.push('r');
    } else if c == '\t' {
        out.push('\\');
        out.push('t');
    } else if (c as u32) < 0x20 {
        out.push('\\');
        out.push('u');
        out.push('0');
        out.push('0');
        let n = c as u32;
        out.push(hex_digit_char(n / 16));
        out.push(hex_digit_char(n % 16));
    } else {
        out.push(c);
    }
    proof {
        assert(out@ =~= old(out)@ + esc_char(c));
    }
}

fn hex_digit_char(n: u32) -> (c: char)
    requires
        n < 16,
    ensures
        c == hex_digit(n as int),
{
    match n {
        0 => '0',
        1 => '1',
        2 => '2',
        3 => '3',
        4 => '4',
        5 => '5',
        6 => '6',
        7 => '7',
        8 => '8',
        9 => '9',
        10 => 'a',
        11 => 'b',
        12 => 'c',
        13 => 'd',
        14 => 'e',
        _ => 'f',
    }
}

/// Appends the complete JSON string token for `s` to `out`.
pub fn emit_json_string(out: &mut Vec<char>, s: &Vec<char>)
    ensures
        final(out)@ == old(out)@ + spec_json_string(s@),
{
    out.push('"');
    let mut i: usize = 0;
    while i < s.len()
        invariant
            i <= s@.len(),
            out@ == old(out)@ + seq!['"'] + spec_escape(s@.subrange(0, i as int)),
        decreases s@.len() - i,
    {
        let ghost pre = s@.subrange(0, i as int);
        emit_esc_char(out, s[i]);
        proof {
            lemma_escape_snoc(s@.subrange(0, i + 1));
            assert(s@.subrange(0, i + 1).drop_last() =~= pre);
            assert(s@.subrange(0, i + 1).last() == s@[i as int]);
            assert(out@ =~= old(out)@ + seq!['"'] + spec_escape(s@.subrange(0, i + 1)));
        }
        i = i + 1;
    }
    out.push('"');
    proof {
        assert(s@.subrange(0, s@.len() as int) =~= s@);
        assert(out@ =~= old(out)@ + spec_json_string(s@));
    }
}

/// Escaping a sequence escapes its last character last.
proof fn lemma_escape_snoc(s: Seq<char>)
    requires
        s.len() > 0,
    ensures
        spec_escape(s) == spec_escape(s.drop_last()) + esc_char(s.last()),
    decreases s.len(),
{
    if s.len() == 1 {
        assert(s.drop_last() =~= Seq::<char>::empty());
        assert(s.skip(1) =~= Seq::<char>::empty());
        assert(spec_escape(s) =~= esc_char(s.first()) + spec_escape(s.skip(1)));
        assert(spec_escape(s) =~= spec_escape(s.drop_last()) + esc_char(s.last()));
    } else {
        lemma_escape_snoc(s.skip(1));
        assert(s.skip(1).drop_last() =~= s.drop_last().skip(1));
        assert(s.skip(1).last() == s.last());
        assert(s.drop_last().first() == s.first());
        assert(s.drop_last().len() > 0);
        assert(spec_escape(s.drop_last()) == esc_char(s.first()) + spec_escape(s.drop_last().skip(1)));
        assert(spec_escape(s) =~= spec_escape(s.drop_last()) + esc_char(s.last()));
    }
}

/// What parsing a JSON string body from position `j` yields: the
/// unescaped characters and the position after the closing quote.
pub open spec fn spec_parse_string_body(s: Seq<char>, j: int, acc: Seq<char>) -> Option<
    (Seq<char>, int),
>
    decreases s.len() - j,
{
    if j < 0 || j >= s.len() {
        None
    } else if s[j] == '"' {
        Some((acc, j + 1))
    } else if s[j] == '\\' {
        if j + 1 >= s.len() {
            None
        } else {
            let e = s[j + 1];
            if e == '"' || e == '\\' || e == '/' {
                spec_parse_string_body(s, j + 2, acc.push(e))
            } else if e == 'n' {
                spec_parse_string_body(s, j + 2, acc.push('\n'))
            } else if e == 'r' {
                spec_parse_string_body(s, j + 2, acc.push('\r'))
            } else if e == 't' {
                spec_parse_string_body(s, j + 2, acc.push('\t'))
            } else if e == 'b' {
                spec_parse_string_body(s, j + 2, acc.push(8u8 as char))
            } else if e == 'f' {
                spec_parse_string_body(s, j + 2, acc.push(12u8 as char))
            } else if e == 'u' {
                if j + 6 <= s.len() && s[j + 2] == '0' && s[j + 3] == '0' && is_hex_digit(s[j + 4])
                    && is_hex_digit(s[j + 5]) {
                    spec_parse_string_body(
                        s,
                        j + 6,
                        acc.push(((hex_val(s[j + 4]) * 16 + hex_val(s[j + 5])) as u8) as char),
                    )
                } else {
                    None
                }
            } else {
                None
            }
        }
    } else {
        spec_parse_string_body(s, j + 1, acc.push(s[j]))
    }
}

/// What parsing a JSON string token at position `i` yields.
pub open spec fn spec_parse_string(s: Seq<char>, i: int) -> Option<(Seq<char>, int)> {
    if 0 <= i < s.len() && s[i] == '"' {
        spec_parse_string_body(s, i + 1, Seq::<char>::empty())
    } else {
        None
    }
}

/// Is `c` a lowercase hex digit?
pub open spec fn is_hex_digit(c: char) -> bool {
    ('0' <= c && c <= '9') || ('a' <= c && c <= 'f')
}

/// The value of a lowercase hex digit.
pub open spec fn hex_val(c: char) -> int {
    if '0' <= c && c <= '9' {
        c as int - '0' as int
    } else {
        c as int - 'a' as int + 10
    }
}

fn hex_val_char(c: char) -> (n: u32)
    requires
        is_hex_digit(c),
    ensures
        n == hex_val(c),
        n < 16,
{
    if '0' <= c && c <= '9' {
        (c as u32) - ('0' as u32)
    } else {
        (c as u32) - ('a' as u32) + 10
    }
}

fn is_hex_digit_char(c: char) -> (r: bool)
    ensures
        r == is_hex_digit(c),
{
    ('0' <= c && c <= '9') || ('a' <= c && c <= 'f')
}

/// Hex digits emitted by `hex_digit` read back as their value.
proof fn lemma_hex_digit_roundtrip(n: int)
    requires
        0 <= n < 16,
    ensures
        is_hex_digit(hex_digit(n)),
        hex_val(hex_digit(n)) == n,
{
}

/// Parsing a string body that starts with the escaped form of `s`
/// followed by a closing quote yields exactly `s`.
proof fn lemma_parse_body_of_escape(w: Seq<char>, j: int, s: Seq<char>, acc: Seq<char>)
    requires
        0 <= j,
        j + spec_escape(s).len() + 1 <= w.len(),
        w.subrange(j, j + spec_escape(s).len()) == spec_escape(s),
        w[j + spec_escape(s).len()] == '"',
    ensures
        spec_parse_string_body(w, j, acc) == Some::<(Seq<char>, int)>(
            (acc + s, j + spec_escape(s).len() + 1),
        ),
    decreases s.len(),
{
    if s.len() == 0 {
        assert(spec_escape(s).len() == 0);
        assert(w[j] == '"');
        assert(acc + s =~= acc);
    } else {
        let c = s.first();
        let e = esc_char(c);
        let tail = spec_escape(s.skip(1));
        assert(spec_escape(s) == e + tail);
        let k = e.len() as int;
        assert forall|m: int| 0 <= m < e.len() implies w[j + m] == e[m] by {
            assert(w.subrange(j, j + spec_escape(s).len())[m] == w[j + m]);
            assert((e + tail)[m] == e[m]);
        }
        assert(w.subrange(j + k, j + k + tail.len()) =~= tail) by {
            assert forall|m: int| 0 <= m < tail.len() implies w.subrange(
                j + k,
                j + k + tail.len(),
            )[m] == tail[m] by {
                assert(w.subrange(j, j + spec_escape(s).len())[k + m] == w[j + k + m]);
                assert((e + tail)[k + m] == tail[m]);
            }
        }
        assert(w[j + k + tail.len()] == '"');
        let c_int = (c as u32) as int;
        if c == '"' || c == '\\' {
            assert(w[j] == '\\' && w[j + 1] == c);
            lemma_parse_body_of_escape(w, j + 2, s.skip(1), acc.push(c));
        } else if c == '\n' {
            assert(w[j] == '\\' && w[j + 1] == 'n');
            lemma_parse_body_of_escape(w, j + 2, s.skip(1), acc.push(c));
        } else if c == '\r' {
            assert(w[j] == '\\' && w[j + 1] == 'r');
            lemma_parse_body_of_escape(w, j + 2, s.skip(1), acc.push(c));
        } else if c == '\t' {
            assert(w[j] == '\\' && w[j + 1] == 't');
            lemma_parse_body_of_escape(w, j + 2, s.skip(1), acc.push(c));
        } else if c_int < 0x20 {
            assert(c_int >= 0);
            assert(w[j] == '\\' && w[j + 1] == 'u' && w[j + 2] == '0' && w[j + 3] == '0');
            assert(w[j + 4] == hex_digit(c_int / 16) && w[j + 5] == hex_digit(c_int % 16));
            lemma_hex_digit_roundtrip(c_int / 16);
            lemma_hex_digit_roundtrip(c_int % 16);
            assert(hex_val(w[j + 4]) * 16 + hex_val(w[j + 5]) == c_int);
            vstd::utf8::char_u32_cast(c, c as u32);
            assert(((c as u32) as char) == c);
            assert((c_int as u8) as int == c_int);
            assert((((hex_val(w[j + 4]) * 16 + hex_val(w[j + 5])) as u8) as char) == c);
            lemma_parse_body_of_escape(w, j + 6, s.skip(1), acc.push(c));
        } else {
            assert(e =~= seq![c]);
            assert(w[j + 0] == e[0]);
            assert(w[j] == c);
            assert(w[j] != '"' && w[j] != '\\');
            lemma_parse_body_of_escape(w, j + 1, s.skip(1), acc.push(c));
        }
        assert(acc.push(c) + s.skip(1) =~= acc + s);
    }
}

/// Parsing a JSON string token inverts printing one: if the input at `i`
/// reads as the printed form of `s`, parsing returns `s` and stops right
/// after the closing quote.
pub proof fn lemma_parse_string_inverts(w: Seq<char>, i: int, s: Seq<char>)
    requires
        0 <= i,
        i + spec_json_string(s).len() <= w.len(),
        w.subrange(i, i + spec_json_string(s).len()) == spec_json_string(s),
    ensures
        spec_parse_string(w, i) == Some::<(Seq<char>, int)>(
            (s, i + spec_json_string(s).len()),
        ),
{
    let n = spec_escape(s).len() as int;
    assert(w[i] == '"') by {
        assert(w.subrange(i, i + spec_json_string(s).len())[0] == w[i]);
    }
    assert(w.subrange(i + 1, i + 1 + n) =~= spec_escape(s)) by {
        assert forall|m: int| 0 <= m < n implies w.subrange(i + 1, i + 1 + n)[m] == spec_escape(
            s,
        )[m] by {
            assert(w.subrange(i, i + spec_json_string(s).len())[m + 1] == w[i + 1 + m]);
            assert(spec_json_string(s)[m + 1] == spec_escape(s)[m]);
        }
    }
    assert(w[i + 1 + n] == '"') by {
        assert(w.subrange(i, i + spec_json_string(s).len())[n + 1] == w[i + 1 + n]);
        assert(spec_json_string(s)[n + 1] == '"');
    }
    lemma_parse_body_of_escape(w, i + 1, s, Seq::<char>::empty());
    assert(Seq::<char>::empty() + s =~= s);
}

/// Is `c` a decimal digit?
pub open spec fn is_digit(c: char) -> bool {
    '0' <= c && c <= '9'
}

/// The value of a decimal digit.
pub open spec fn digit_val(c: char) -> int {
    c as int - '0' as int
}

/// What reading decimal digits from `j` yields: the accumulated value and
/// the position of the first non-digit.
pub open spec fn spec_parse_digits(s: Seq<char>, j: int, acc: int) -> (int, int)
    decreases s.len() - j,
{
    if 0 <= j < s.len() && is_digit(s[j]) {
        spec_parse_digits(s, j + 1, acc * 10 + digit_val(s[j]))
    } else {
        (acc, j)
    }
}

/// What parsing an unsigned decimal number at `i` yields.
pub open spec fn spec_parse_u64(s: Seq<char>, i: int) -> Option<(int, int)> {
    if 0 <= i < s.len() && is_digit(s[i]) {
        Some(spec_parse_digits(s, i, 0))
    } else {
        None
    }
}

/// Reading digits never shrinks a non-negative accumulator.
proof fn lemma_parse_digits_lower(s: Seq<char>, j: int, acc: int)
    requires
        acc >= 0,
    ensures
        spec_parse_digits(s, j, acc).0 >= acc,
        spec_parse_digits(s, j, acc).1 >= j,
    decreases s.len() - j,
{
    if 0 <= j < s.len() && is_digit(s[j]) {
        lemma_parse_digits_lower(s, j + 1, acc * 10 + digit_val(s[j]));
    }
}

/// Parses an unsigned decimal number at position `i`.
pub fn parse_u64(s: &Vec<char>, i: usize) -> (r: Option<(u64, usize)>)
    ensures
        match r {
            Some((n, j)) => spec_parse_u64(s@, i as int) == Some(((n as int, j as int))) && i < j
                <= s@.len(),
            None => spec_parse_u64(s@, i as int) is None || (spec_parse_u64(s@, i as int) matches
                Some(p) && p.0 > u64::MAX),
        },
{
    if i >= s.len() || !('0' <= s[i] && s[i] <= '9') {
        return None;
    }
    let mut acc: u64 = 0;
    let mut j: usize = i;
    while j < s.len() && '0' <= s[j] && s[j] <= '9'
        invariant
            i <= j <= s@.len(),
            i < s@.len() && is_digit(s@[i as int]),
            spec_parse_digits(s@, j as int, acc as int) == spec_parse_digits(s@, i as int, 0),
        decreases s@.len() - j,
    {
        let d = (s[j] as u32) - ('0' as u32);
        let d64 = d as u64;
        if acc > (u64::MAX - d64) / 10 {
            proof {
                lemma_parse_digits_lower(s@, j + 1, acc as int * 10 + digit_val(s@[j as int]));
                assert(spec_parse_digits(s@, i as int, 0).0 > u64::MAX);
            }
            return None;
        }
        acc = acc * 10 + d64;
        j = j + 1;
    }
    proof {
        assert(spec_parse_digits(s@, j as int, acc as int) == ((acc as int, j as int)));
    }
    Some((acc, j))
}

/// The value a digit block folds to, reading left to right from `acc`.
pub open spec fn fold_val(ds: Seq<char>, acc: int) -> int
    decreases ds.len(),
{
    if ds.len() == 0 {
        acc
    } else {
        fold_val(ds.skip(1), acc * 10 + digit_val(ds.first()))
    }
}

proof fn lemma_fold_val_snoc(ds: Seq<char>, d: char, acc: int)
    ensures
        fold_val(ds.push(d), acc) == fold_val(ds, acc) * 10 + digit_val(d),
    decreases ds.len(),
{
    if ds.len() == 0 {
        reveal_with_fuel(fold_val, 3);
        assert(ds.push(d).skip(1) =~= Seq::<char>::empty());
        assert(ds.push(d).first() == d);
    } else {
        assert(ds.push(d).first() == ds.first());
        assert(ds.push(d).skip(1) =~= ds.skip(1).push(d));
        lemma_fold_val_snoc(ds.skip(1), d, acc * 10 + digit_val(ds.first()));
    }
}

/// Every character of a decimal rendering is a digit.
proof fn lemma_decimal_all_digits(n: int)
    requires
        n >= 0,
    ensures
        crate::text::spec_decimal(n).len() >= 1,
        forall|k: int|
            0 <= k < crate::text::spec_decimal(n).len() ==> is_digit(
                #[trigger] crate::text::spec_decimal(n)[k],
            ),
    decreases n,
{
    if n >= 10 {
        lemma_decimal_all_digits(n / 10);
    }
}

/// A decimal rendering folds back to its value.
proof fn lemma_fold_val_decimal(n: int)
    requires
        n >= 0,
    ensures
        fold_val(crate::text::spec_decimal(n), 0) == n,
    decreases n,
{
    lemma_fold_val_decimal_general(n);
}

proof fn lemma_fold_val_decimal_general(n: int)
    requires
        n >= 0,
    ensures
        forall|acc: int| #![trigger fold_val(crate::text::spec_decimal(n), acc)]
            fold_val(crate::text::spec_decimal(n), acc) == acc * vstd::arithmetic::power::pow(
                10,
                crate::text::spec_decimal(n).len(),
            ) + n,
    decreases n,
{
    let dec = crate::text::spec_decimal(n);
    if n < 10 {
        assert forall|acc: int| #![trigger fold_val(dec, acc)] fold_val(dec, acc) == acc
            * vstd::arithmetic::power::pow(10, dec.len()) + n by {
            reveal_with_fuel(fold_val, 3);
            assert(dec =~= seq![crate::text::decimal_digit(n)]);
            assert(dec.skip(1) =~= Seq::<char>::empty());
            assert(fold_val(dec, acc) == acc * 10 + digit_val(dec.first()));
            assert(digit_val(crate::text::decimal_digit(n)) == n);
            assert(vstd::arithmetic::power::pow(10, 1) == 10) by {
                vstd::arithmetic::power::lemma_pow1(10);
            }
        }
    } else {
        lemma_fold_val_decimal_general(n / 10);
        let pre = crate::text::spec_decimal(n / 10);
        let d = crate::text::decimal_digit(n % 10);
        assert(dec == pre.push(d));
        assert forall|acc: int| #![trigger fold_val(dec, acc)] fold_val(dec, acc) == acc
            * vstd::arithmetic::power::pow(10, dec.len()) + n by {
            lemma_fold_val_snoc(pre, d, acc);
            assert(fold_val(pre, acc) == acc * vstd::arithmetic::power::pow(10, pre.len()) + n
                / 10);
            assert(digit_val(d) == n % 10);
            assert(vstd::arithmetic::power::pow(10, pre.len() + 1)
                == vstd::arithmetic::power::pow(10, pre.len()) * 10) by {
                vstd::arithmetic::power::lemma_pow_adds(10, pre.len(), 1);
                vstd::arithmetic::power::lemma_pow1(10);
            }
            assert((acc * vstd::arithmetic::power::pow(10, pre.len()) + n / 10) * 10 == acc * (
            vstd::arithmetic::power::pow(10, pre.len()) * 10) + (n / 10) * 10) by (nonlinear_arith);
        }
    }
}

/// Reading a digit block placed in `w` folds it onto the accumulator and
/// stops at its end.
proof fn lemma_parse_digit_block(w: Seq<char>, j: int, ds: Seq<char>, acc: int)
    requires
        0 <= j,
        j + ds.len() <= w.len(),
        w.subrange(j, j + ds.len()) == ds,
        forall|k: int| 0 <= k < ds.len() ==> is_digit(#[trigger] ds[k]),
        j + ds.len() == w.len() || !is_digit(w[j + ds.len()]),
    ensures
        spec_parse_digits(w, j, acc) == ((fold_val(ds, acc), j + ds.len())),
    decreases ds.len(),
{
    if ds.len() == 0 {
        if j < w.len() {
            assert(!is_digit(w[j]));
        }
    } else {
        assert(w[j] == ds[0]) by {
            assert(w.subrange(j, j + ds.len())[0] == w[j]);
        }
        assert(is_digit(ds[0]));
        assert(w.subrange(j + 1, j + 1 + ds.skip(1).len()) =~= ds.skip(1)) by {
            assert forall|m: int| 0 <= m < ds.skip(1).len() implies w.subrange(
                j + 1,
                j + 1 + ds.skip(1).len(),
            )[m] == ds.skip(1)[m] by {
                assert(w.subrange(j, j + ds.len())[m + 1] == w[j + 1 + m]);
            }
        }
        lemma_parse_digit_block(w, j + 1, ds.skip(1), acc * 10 + digit_val(ds[0]));
        assert(ds.first() == ds[0]);
    }
}

/// Parsing an unsigned decimal inverts printing one: if the input at `i`
/// reads as the decimal rendering of `n` followed by a non-digit (or the
/// end), parsing returns `n` and stops right after it.
pub proof fn lemma_parse_u64_inverts(w: Seq<char>, i: int, n: u64)
    requires
        0 <= i,
        i + crate::text::spec_decimal(n as int).len() <= w.len(),
        w.subrange(i, i + crate::text::spec_decimal(n as int).len()) == crate::text::spec_decimal(
            n as int,
        ),
        i + crate::text::spec_decimal(n as int).len() == w.len() || !is_digit(
            w[i + crate::text::spec_decimal(n as int).len()],
        ),
    ensures
        spec_parse_u64(w, i) == Some(
            ((n as int, i + crate::text::spec_decimal(n as int).len())),
        ),
{
    let dec = crate::text::spec_decimal(n as int);
    lemma_decimal_all_digits(n as int);
    assert(w[i] == dec[0]) by {
        assert(w.subrange(i, i + dec.len())[0] == w[i]);
    }
    assert(is_digit(w[i]));
    lemma_parse_digit_block(w, i, dec, 0);
    lemma_fold_val_decimal(n as int);
}

/// Advances past `lit` when the input at `i` spells it out; `None`
/// exactly otherwise.
pub fn expect_lit(v: &Vec<char>, i: usize, lit: &str) -> (r: Option<usize>)
    requires
        i <= v@.len(),
    ensures
        match r {
            Some(j) => j == i + lit@.len() && j <= v@.len() && v@.subrange(i as int, j as int)
                == lit@,
            None => !(i + lit@.len() <= v@.len() && v@.subrange(i as int, i + lit@.len()) == lit@),
        },
{
    let chars = str_to_chars(lit);
    if v.len() - i < chars.len() {
        return None;
    }
    let j = i + chars.len();
    let window = crate::text::subvec(v, i, j);
    if crate::text::chars_eq(&window, &chars) {
        Some(j)
    } else {
        None
    }
}

/// Parses a JSON string token at position `i`: the unescaped contents and
/// the position after the closing quote.
pub fn parse_json_string(s: &Vec<char>, i: usize) -> (r: Option<(Vec<char>, usize)>)
    ensures
        match r {
            Some((out, j)) => spec_parse_string(s@, i as int) == Some((out@, j as int)) && i < j
                <= s@.len(),
            None => spec_parse_string(s@, i as int) is None,
        },
{
    if i >= s.len() || s[i] != '"' {
        return None;
    }
    let mut acc: Vec<char> = Vec::new();
    let mut j: usize = i + 1;
    loop
        invariant
            i < j <= s@.len(),
            s@[i as int] == '"',
            spec_parse_string_body(s@, j as int, acc@) == spec_parse_string(s@, i as int),
        decreases s@.len() - j,
    {
        if j >= s.len() {
            return None;
        }
        let c = s[j];
        if c == '"' {
            return Some((acc, j + 1));
        } else if c == '\\' {
            if j + 1 >= s.len() {
                return None;
            }
            let e = s[j + 1];
            if e == '"' || e == '\\' || e == '/' {
                acc.push(e);
                j = j + 2;
            } else if e == 'n' {
                acc.push('\n');
                j = j + 2;
            } else if e == 'r' {
                acc.push('\r');
                j = j + 2;
            } else if e == 't' {
                acc.push('\t');
                j = j + 2;
            } else if e == 'b' {
                acc.push(8u8 as char);
                j = j + 2;
            } else if e == 'f' {
                acc.push(12u8 as char);
                j = j + 2;
            } else if e == 'u' {
                if s.len() - j >= 6 && s[j + 2] == '0' && s[j + 3] == '0' && is_hex_digit_char(
                    s[j + 4],
                ) && is_hex_digit_char(s[j + 5]) {
                    let hi = hex_val_char(s[j + 4]);
                    let lo = hex_val_char(s[j + 5]);
                    acc.push(((hi * 16 + lo) as u8) as char);
                    j = j + 6;
                } else {
                    return None;
                }
            } else {
                return None;
            }
        } else {
            acc.push(c);
            j = j + 1;
        }
    }
}

} // verus!
