//! A character-level JSON reader and writer for the wire frames.
//!
//! The envelope protocol is JSON text; this module holds the grammar-level
//! pieces: whitespace, numbers, strings with escapes, and a skipper for
//! whole values (used to pass over fields the protocol does not interpret).
//! Every executable function is proved against a specification function of
//! the same shape, and the specification functions are what the codec's
//! round-trip statements speak about.

use vstd::prelude::*;

verus! {

use crate::strutil::char_from_u32;

// ---------------------------------------------------------------------------
// character classes
// ---------------------------------------------------------------------------

/// JSON insignificant whitespace.
pub open spec fn is_ws_char(c: char) -> bool {
    c == ' ' || c == '\t' || c == '\n' || c == '\r'
}

pub open spec fn is_digit_char(c: char) -> bool {
    '0' <= c && c <= '9'
}

pub open spec fn digit_val(c: char) -> nat
    recommends
        is_digit_char(c),
{
    (c as u32 - '0' as u32) as nat
}

pub open spec fn is_hex_char(c: char) -> bool {
    is_digit_char(c) || ('a' <= c && c <= 'f') || ('A' <= c && c <= 'F')
}

pub open spec fn hex_val(c: char) -> nat
    recommends
        is_hex_char(c),
{
    if is_digit_char(c) {
        (c as u32 - '0' as u32) as nat
    } else if 'a' <= c && c <= 'f' {
        (c as u32 - 'a' as u32 + 10) as nat
    } else {
        (c as u32 - 'A' as u32 + 10) as nat
    }
}

/// Characters that may continue a JSON number token, read lexically.
pub open spec fn is_number_char(c: char) -> bool {
    is_digit_char(c) || c == '-' || c == '+' || c == '.' || c == 'e' || c == 'E'
}

fn ws_char(c: char) -> (r: bool)
    ensures
        r == is_ws_char(c),
{
    c == ' ' || c == '\t' || c == '\n' || c == '\r'
}

fn digit_char(c: char) -> (r: bool)
    ensures
        r == is_digit_char(c),
{
    '0' <= c && c <= '9'
}

fn number_char(c: char) -> (r: bool)
    ensures
        r == is_number_char(c),
{
    digit_char(c) || c == '-' || c == '+' || c == '.' || c == 'e' || c == 'E'
}

// ---------------------------------------------------------------------------
// whitespace
// ---------------------------------------------------------------------------

/// The suffix of `s` after its leading whitespace run.
pub open spec fn spec_skip_ws(s: Seq<char>) -> Seq<char>
    decreases s.len(),
{
    if s.len() > 0 && is_ws_char(s[0]) {
        spec_skip_ws(s.skip(1))
    } else {
        s
    }
}

pub proof fn lemma_skip_skip<T>(s: Seq<T>, i: int, j: int)
    requires
        0 <= i,
        0 <= j,
        i + j <= s.len(),
    ensures
        s.skip(i).skip(j) == s.skip(i + j),
{
    assert(s.skip(i).skip(j) =~= s.skip(i + j));
}

/// Whitespace skipping lands on a suffix and never passes a non-blank.
pub proof fn lemma_skip_ws_len(s: Seq<char>)
    ensures
        spec_skip_ws(s).len() <= s.len(),
        exists|k: int|
            0 <= k <= s.len() && spec_skip_ws(s) == s.skip(k),
    decreases s.len(),
{
    if s.len() > 0 && is_ws_char(s[0]) {
        lemma_skip_ws_len(s.skip(1));
        let k0 = choose|k: int|
            0 <= k <= s.skip(1).len() && spec_skip_ws(s.skip(1)) == s.skip(1).skip(k);
        lemma_skip_skip(s, 1, k0);
        assert(spec_skip_ws(s) == s.skip(1 + k0));
    } else {
        assert(spec_skip_ws(s) == s.skip(0));
    }
}

/// A sequence with no leading blank is left alone by whitespace skipping.
pub proof fn lemma_skip_ws_noop(s: Seq<char>)
    requires
        s.len() == 0 || !is_ws_char(s[0]),
    ensures
        spec_skip_ws(s) == s,
{
}

pub fn skip_ws<'a>(s: &'a [char]) -> (r: &'a [char])
    ensures
        r@ == spec_skip_ws(s@),
{
    let mut i: usize = 0;
    proof {
        assert(s@.skip(0) =~= s@);
    }
    while i < s.len() && ws_char(s[i])
        invariant
            i <= s@.len(),
            spec_skip_ws(s@) == spec_skip_ws(s@.skip(i as int)),
        decreases s@.len() - i,
    {
        proof {
            lemma_skip_skip(s@, i as int, 1);
            assert(s@.skip(i as int)[0] == s@[i as int]);
        }
        i = i + 1;
    }
    &s[i..s.len()]
}

// ---------------------------------------------------------------------------
// unsigned decimal digits
// ---------------------------------------------------------------------------

/// Consumes a digit run, folding it into `acc` most-significant-first.
pub open spec fn spec_parse_digits(s: Seq<char>, acc: nat) -> (nat, Seq<char>)
    decreases s.len(),
{
    if s.len() > 0 && is_digit_char(s[0]) {
        spec_parse_digits(s.skip(1), acc * 10 + digit_val(s[0]))
    } else {
        (acc, s)
    }
}

/// A parsed digit run can only grow the accumulator.
pub proof fn lemma_parse_digits_grows(s: Seq<char>, acc: nat)
    ensures
        spec_parse_digits(s, acc).0 >= acc,
    decreases s.len(),
{
    if s.len() > 0 && is_digit_char(s[0]) {
        lemma_parse_digits_grows(s.skip(1), acc * 10 + digit_val(s[0]));
    }
}

/// How far a digit run reaches does not depend on the accumulator.
pub proof fn lemma_parse_digits_rest(s: Seq<char>, a: nat, b: nat)
    ensures
        spec_parse_digits(s, a).1 == spec_parse_digits(s, b).1,
    decreases s.len(),
{
    if s.len() > 0 && is_digit_char(s[0]) {
        lemma_parse_digits_rest(s.skip(1), a * 10 + digit_val(s[0]), b * 10 + digit_val(s[0]));
    }
}

/// Exec digit-run parser.  `overflow` says the mathematical value does not
/// fit in `u64`; the consumed extent is reported either way.
pub fn parse_digits<'a>(s: &'a [char]) -> (r: (u64, bool, &'a [char]))
    ensures
        ({
            let (v, rest) = spec_parse_digits(s@, 0);
            &&& r.2@ == rest
            &&& r.1 == (v > u64::MAX)
            &&& !r.1 ==> r.0 == v
        }),
{
    let mut i: usize = 0;
    let mut acc: u64 = 0;
    let mut over: bool = false;
    proof {
        assert(s@.skip(0) =~= s@);
    }
    while i < s.len() && digit_char(s[i])
        invariant
            i <= s@.len(),
            ({
                let whole = spec_parse_digits(s@, 0);
                let cur = spec_parse_digits(s@.skip(i as int), acc as nat);
                &&& !over ==> whole == cur
                &&& over ==> whole.0 > u64::MAX && whole.1 == cur.1
            }),
        decreases s@.len() - i,
    {
        let c = s[i];
        let d: u64 = (c as u32 - '0' as u32) as u64;
        proof {
            lemma_skip_skip(s@, i as int, 1);
            assert(s@.skip(i as int)[0] == s@[i as int]);
            assert(spec_parse_digits(s@.skip(i as int), acc as nat) == spec_parse_digits(
                s@.skip(i as int + 1),
                (acc as nat) * 10 + digit_val(s@[i as int]),
            ));
            assert(d == digit_val(s@[i as int]));
        }
        if !over {
            if acc <= (u64::MAX - d) / 10 {
                proof {
                    assert(acc * 10 + d <= u64::MAX) by (nonlinear_arith)
                        requires
                            acc <= (u64::MAX - d) / 10,
                            d <= 9,
                    ;
                }
                acc = acc * 10 + d;
            } else {
                proof {
                    assert(acc * 10 + d > u64::MAX) by (nonlinear_arith)
                        requires
                            acc > (u64::MAX - d) / 10,
                            d <= 9,
                    ;
                    lemma_parse_digits_grows(
                        s@.skip(i as int + 1),
                        (acc as nat) * 10 + digit_val(c),
                    );
                    lemma_parse_digits_rest(
                        s@.skip(i as int + 1),
                        (acc as nat) * 10 + digit_val(c),
                        acc as nat,
                    );
                }
                over = true;
            }
        } else {
            proof {
                lemma_parse_digits_rest(
                    s@.skip(i as int + 1),
                    (acc as nat) * 10 + digit_val(c),
                    acc as nat,
                );
            }
        }
        i = i + 1;
    }
    (acc, over, &s[i..s.len()])
}

// ---------------------------------------------------------------------------
// rendering unsigned decimals
// ---------------------------------------------------------------------------

pub open spec fn digit_char_of(n: nat) -> char
    recommends
        n < 10,
{
    ('0' as u32 + n) as char
}

/// The decimal digit string of `n`, most significant digit first.
pub open spec fn dec_digits(n: nat) -> Seq<char>
    decreases n,
{
    if n < 10 {
        seq![digit_char_of(n)]
    } else {
        dec_digits(n / 10).push(digit_char_of(n % 10))
    }
}

pub open spec fn pow10(k: nat) -> nat
    decreases k,
{
    if k == 0 {
        1
    } else {
        10 * pow10((k - 1) as nat)
    }
}

pub proof fn lemma_digit_char_of(n: nat)
    requires
        n < 10,
    ensures
        is_digit_char(digit_char_of(n)),
        digit_val(digit_char_of(n)) == n,
{
    assert(digit_char_of(n) as u32 == '0' as u32 + n);
}

pub proof fn lemma_dec_digits_shape(n: nat)
    ensures
        dec_digits(n).len() >= 1,
        forall|i: int| 0 <= i < dec_digits(n).len() ==> is_digit_char(#[trigger] dec_digits(n)[i]),
    decreases n,
{
    if n < 10 {
        lemma_digit_char_of(n);
    } else {
        lemma_dec_digits_shape(n / 10);
        lemma_digit_char_of(n % 10);
    }
}

/// Reading back a rendered decimal continues the digit run into `rest`.
pub proof fn lemma_parse_of_dec(n: nat, acc: nat, rest: Seq<char>)
    ensures
        spec_parse_digits(dec_digits(n) + rest, acc) == spec_parse_digits(
            rest,
            acc * pow10(dec_digits(n).len()) + n,
        ),
    decreases n,
{
    lemma_dec_digits_shape(n);
    if n < 10 {
        lemma_digit_char_of(n);
        let s = dec_digits(n) + rest;
        assert(s[0] == digit_char_of(n));
        assert(s.skip(1) =~= rest);
        assert(spec_parse_digits(s, acc) == spec_parse_digits(rest, acc * 10 + n));
        assert(pow10(0) == 1);
        assert(pow10(1) == 10);
        assert(acc * 10 + n == acc * pow10(1) + n) by (nonlinear_arith)
            requires
                pow10(1) == 10,
        ;
    } else {
        let d = n % 10;
        let hd = dec_digits(n / 10);
        assert(dec_digits(n) + rest =~= hd + (seq![digit_char_of(d)] + rest));
        lemma_parse_of_dec(n / 10, acc, seq![digit_char_of(d)] + rest);
        let p = pow10(hd.len());
        let acc2 = acc * p + n / 10;
        let mid = seq![digit_char_of(d)] + rest;
        lemma_digit_char_of(d);
        assert(mid[0] == digit_char_of(d));
        assert(mid.skip(1) =~= rest);
        assert(spec_parse_digits(mid, acc2) == spec_parse_digits(rest, acc2 * 10 + d));
        assert(dec_digits(n).len() == hd.len() + 1);
        assert(pow10(hd.len() + 1) == 10 * p);
        assert(acc2 * 10 + d == acc * (10 * p) + n) by (nonlinear_arith)
            requires
                acc2 == acc * p + n / 10,
                d == n % 10,
                n >= 10,
        ;
    }
}

/// Renders `n` in decimal.
pub fn format_u64(n: u64) -> (r: Vec<char>)
    ensures
        r@ == dec_digits(n as nat),
    decreases n,
{
    if n < 10 {
        let c = match crate::strutil::char_from_u32('0' as u32 + n as u32) {
            Some(c) => c,
            None => '0',
        };
        proof {
            assert(('0' as u32 + n as u32) < 0xD800);
        }
        let mut v: Vec<char> = Vec::new();
        v.push(c);
        proof {
            assert(v@ =~= dec_digits(n as nat));
        }
        v
    } else {
        let mut v = format_u64(n / 10);
        let d = n % 10;
        let c = match crate::strutil::char_from_u32('0' as u32 + d as u32) {
            Some(c) => c,
            None => '0',
        };
        proof {
            assert(('0' as u32 + d as u32) < 0xD800);
        }
        v.push(c);
        proof {
            assert(v@ =~= dec_digits(n as nat));
        }
        v
    }
}

// ---------------------------------------------------------------------------
// JSON strings: reading
// ---------------------------------------------------------------------------

pub open spec fn hex4val(a: char, b: char, c: char, d: char) -> nat {
    hex_val(a) * 0x1000 + hex_val(b) * 0x100 + hex_val(c) * 0x10 + hex_val(d)
}

/// Consumes the body of a JSON string after the opening quote, up to and
/// including the closing quote, unescaping as it goes.  `acc` carries the
/// characters already read.
pub open spec fn spec_parse_string_body(s: Seq<char>, acc: Seq<char>) -> Option<
    (Seq<char>, Seq<char>),
>
    decreases s.len(),
{
    if s.len() == 0 {
        None
    } else if s[0] == '"' {
        Some((acc, s.skip(1)))
    } else if s[0] == '\\' {
        if s.len() < 2 {
            None
        } else {
            let e = s[1];
            if e == '"' {
                spec_parse_string_body(s.skip(2), acc.push('"'))
            } else if e == '\\' {
                spec_parse_string_body(s.skip(2), acc.push('\\'))
            } else if e == '/' {
                spec_parse_string_body(s.skip(2), acc.push('/'))
            } else if e == 'b' {
                spec_parse_string_body(s.skip(2), acc.push('\u{0008}'))
            } else if e == 'f' {
                spec_parse_string_body(s.skip(2), acc.push('\u{000C}'))
            } else if e == 'n' {
                spec_parse_string_body(s.skip(2), acc.push('\n'))
            } else if e == 'r' {
                spec_parse_string_body(s.skip(2), acc.push('\r'))
            } else if e == 't' {
                spec_parse_string_body(s.skip(2), acc.push('\t'))
            } else if e == 'u' {
                if s.len() < 6 || !(is_hex_char(s[2]) && is_hex_char(s[3]) && is_hex_char(s[4])
                    && is_hex_char(s[5])) {
                    None
                } else {
                    let v = hex4val(s[2], s[3], s[4], s[5]);
                    if v < 0xD800 || v >= 0xE000 {
                        spec_parse_string_body(s.skip(6), acc.push(v as char))
                    } else if v < 0xDC00 {
                        if s.len() < 12 || !(s[6] == '\\' && s[7] == 'u' && is_hex_char(s[8])
                            && is_hex_char(s[9]) && is_hex_char(s[10]) && is_hex_char(s[11])) {
                            None
                        } else {
                            let w = hex4val(s[8], s[9], s[10], s[11]);
                            if 0xDC00 <= w && w < 0xE000 {
                                let scalar = 0x10000 + (v - 0xD800) * 0x400 + (w - 0xDC00);
                                spec_parse_string_body(s.skip(12), acc.push(scalar as char))
                            } else {
                                None
                            }
                        }
                    } else {
                        None
                    }
                }
            } else {
                None
            }
        }
    } else if (s[0] as u32) < 0x20 {
        None
    } else {
        spec_parse_string_body(s.skip(1), acc.push(s[0]))
    }
}

/// A whole JSON string token, opening quote included.
pub open spec fn spec_parse_string(s: Seq<char>) -> Option<(Seq<char>, Seq<char>)> {
    if s.len() > 0 && s[0] == '"' {
        spec_parse_string_body(s.skip(1), Seq::empty())
    } else {
        None
    }
}

fn hexv(c: char) -> (r: Option<u32>)
    ensures
        r is Some <==> is_hex_char(c),
        r is Some ==> r->0 == hex_val(c) && r->0 < 16,
{
    if '0' <= c && c <= '9' {
        Some(c as u32 - '0' as u32)
    } else if 'a' <= c && c <= 'f' {
        Some(c as u32 - 'a' as u32 + 10)
    } else if 'A' <= c && c <= 'F' {
        Some(c as u32 - 'A' as u32 + 10)
    } else {
        None
    }
}

/// Exec reader for a JSON string token; expects the opening quote at the
/// front of `s`.
pub fn parse_string<'a>(s: &'a [char]) -> (r: Option<(Vec<char>, &'a [char])>)
    ensures
        ({
            let sp = spec_parse_string(s@);
            match r {
                Some(p) => sp == Some((p.0@, p.1@)),
                None => sp is None,
            }
        }),
{
    if s.len() == 0 || s[0] != '"' {
        return None;
    }
    let mut i: usize = 1;
    let mut acc: Vec<char> = Vec::new();
    proof {
        assert(spec_parse_string(s@) == spec_parse_string_body(s@.skip(1), Seq::<char>::empty()));
        assert(acc@ =~= Seq::<char>::empty());
    }
    loop
        invariant
            1 <= i <= s@.len(),
            spec_parse_string(s@) == spec_parse_string_body(s@.skip(i as int), acc@),
        decreases s@.len() - i,
    {
        let ghost t = s@.skip(i as int);
        proof {
            assert(t.len() == s@.len() - i);
        }
        if i >= s.len() {
            return None;
        }
        proof {
            assert(t[0] == s@[i as int]);
        }
        let c = s[i];
        if c == '"' {
            proof {
                lemma_skip_skip(s@, i as int, 1);
            }
            let rest = &s[i + 1..s.len()];
            return Some((acc, rest));
        } else if c == '\\' {
            if i + 1 >= s.len() {
                return None;
            }
            proof {
                assert(t[1] == s@[i as int + 1]);
                lemma_skip_skip(s@, i as int, 2);
            }
            let e = s[i + 1];
            if e == '"' {
                acc.push('"');
                i = i + 2;
            } else if e == '\\' {
                acc.push('\\');
                i = i + 2;
            } else if e == '/' {
                acc.push('/');
                i = i + 2;
            } else if e == 'b' {
                acc.push('\u{0008}');
                i = i + 2;
            } else if e == 'f' {
                acc.push('\u{000C}');
                i = i + 2;
            } else if e == 'n' {
                acc.push('\n');
                i = i + 2;
            } else if e == 'r' {
                acc.push('\r');
                i = i + 2;
            } else if e == 't' {
                acc.push('\t');
                i = i + 2;
            } else if e == 'u' {
                if s.len() - i <= 5 {
                    return None;
                }
                proof {
                    assert(t[2] == s@[i as int + 2]);
                    assert(t[3] == s@[i as int + 3]);
                    assert(t[4] == s@[i as int + 4]);
                    assert(t[5] == s@[i as int + 5]);
                }
                let (h0, h1, h2, h3) = (hexv(s[i + 2]), hexv(s[i + 3]), hexv(s[i + 4]), hexv(
                    s[i + 5],
                ));
                match (h0, h1, h2, h3) {
                    (Some(a), Some(b), Some(cc), Some(d)) => {
                        let v: u32 = a * 0x1000 + b * 0x100 + cc * 0x10 + d;
                        proof {
                            assert(v == hex4val(t[2], t[3], t[4], t[5]));
                            lemma_skip_skip(s@, i as int, 6);
                        }
                        if v < 0xD800 || v >= 0xE000 {
                            let ch = match char_from_u32(v) {
                                Some(ch) => ch,
                                None => '?',
                            };
                            acc.push(ch);
                            i = i + 6;
                        } else if v < 0xDC00 {
                            if s.len() - i <= 11 {
                                return None;
                            }
                            proof {
                                assert(t[6] == s@[i as int + 6]);
                                assert(t[7] == s@[i as int + 7]);
                                assert(t[8] == s@[i as int + 8]);
                                assert(t[9] == s@[i as int + 9]);
                                assert(t[10] == s@[i as int + 10]);
                                assert(t[11] == s@[i as int + 11]);
                            }
                            if !(s[i + 6] == '\\' && s[i + 7] == 'u') {
                                return None;
                            }
                            let (g0, g1, g2, g3) = (hexv(s[i + 8]), hexv(s[i + 9]), hexv(
                                s[i + 10],
                            ), hexv(s[i + 11]));
                            match (g0, g1, g2, g3) {
                                (Some(a2), Some(b2), Some(c2), Some(d2)) => {
                                    let w: u32 = a2 * 0x1000 + b2 * 0x100 + c2 * 0x10 + d2;
                                    proof {
                                        assert(w == hex4val(t[8], t[9], t[10], t[11]));
                                        lemma_skip_skip(s@, i as int, 12);
                                    }
                                    if 0xDC00 <= w && w < 0xE000 {
                                        let scalar: u32 = 0x10000 + (v - 0xD800) * 0x400 + (w
                                            - 0xDC00);
                                        let ch = match char_from_u32(scalar) {
                                            Some(ch) => ch,
                                            None => '?',
                                        };
                                        acc.push(ch);
                                        i = i + 12;
                                    } else {
                                        return None;
                                    }
                                },
                                _ => {
                                    return None;
                                },
                            }
                        } else {
                            return None;
                        }
                    },
                    _ => {
                        return None;
                    },
                }
            } else {
                return None;
            }
        } else if (c as u32) < 0x20 {
            return None;
        } else {
            proof {
                lemma_skip_skip(s@, i as int, 1);
            }
            acc.push(c);
            i = i + 1;
        }
    }
}

// ---------------------------------------------------------------------------
// JSON strings: writing
// ---------------------------------------------------------------------------

pub open spec fn hex_digit_char(n: nat) -> char
    recommends
        n < 16,
{
    if n < 10 {
        ('0' as u32 + n) as char
    } else {
        ('a' as u32 + (n - 10)) as char
    }
}

pub proof fn lemma_hex_digit_char(n: nat)
    requires
        n < 16,
    ensures
        is_hex_char(hex_digit_char(n)),
        hex_val(hex_digit_char(n)) == n,
{
    if n < 10 {
        assert(hex_digit_char(n) as u32 == '0' as u32 + n);
    } else {
        assert(hex_digit_char(n) as u32 == 'a' as u32 + (n - 10));
    }
}

/// How one character is written inside a JSON string literal.
pub open spec fn esc_char(c: char) -> Seq<char> {
    if c == '"' {
        seq!['\\', '"']
    } else if c == '\\' {
        seq!['\\', '\\']
    } else if c == '\u{0008}' {
        seq!['\\', 'b']
    } else if c == '\u{000C}' {
        seq!['\\', 'f']
    } else if c == '\n' {
        seq!['\\', 'n']
    } else if c == '\r' {
        seq!['\\', 'r']
    } else if c == '\t' {
        seq!['\\', 't']
    } else if (c as u32) < 0x20 {
        seq!['\\', 'u', '0', '0', hex_digit_char((c as u32 / 16) as nat), hex_digit_char(
            (c as u32 % 16) as nat,
        )]
    } else {
        seq![c]
    }
}

/// The escaped form of a whole string, quotes not included.
pub open spec fn spec_escape(s: Seq<char>) -> Seq<char>
    decreases s.len(),
{
    if s.len() == 0 {
        Seq::empty()
    } else {
        esc_char(s[0]) + spec_escape(s.skip(1))
    }
}

pub proof fn lemma_escape_snoc(s: Seq<char>, c: char)
    ensures
        spec_escape(s.push(c)) == spec_escape(s) + esc_char(c),
    decreases s.len(),
{
    let p = s.push(c);
    if s.len() == 0 {
        assert(p.len() == 1);
        assert(p[0] == c);
        assert(p.skip(1) =~= Seq::<char>::empty());
        assert(spec_escape(p) == esc_char(c) + spec_escape(p.skip(1)));
        assert(spec_escape(Seq::<char>::empty()) == Seq::<char>::empty());
        assert(spec_escape(p) =~= spec_escape(s) + esc_char(c));
    } else {
        assert(p[0] == s[0]);
        assert(p.skip(1) =~= s.skip(1).push(c));
        assert(spec_escape(p) == esc_char(s[0]) + spec_escape(p.skip(1)));
        lemma_escape_snoc(s.skip(1), c);
        assert(spec_escape(p.skip(1)) == spec_escape(s.skip(1)) + esc_char(c));
        assert(spec_escape(s) == esc_char(s[0]) + spec_escape(s.skip(1)));
        assert(spec_escape(p) =~= spec_escape(s) + esc_char(c));
    }
}

/// Reading back an escaped string consumes it exactly, through the closing
/// quote, and restores the original characters.
#[verifier::rlimit(80)]
pub proof fn lemma_escape_round_trip(s: Seq<char>, acc: Seq<char>, rest: Seq<char>)
    ensures
        spec_parse_string_body(spec_escape(s) + seq!['"'] + rest, acc) == Some((acc + s, rest)),
    decreases s.len(),
{
    if s.len() == 0 {
        let t = spec_escape(s) + seq!['"'] + rest;
        assert(t =~= seq!['"'] + rest);
        assert(t[0] == '"');
        assert(t.skip(1) =~= rest);
        assert(acc + s =~= acc);
    } else {
        let c = s[0];
        let e = esc_char(c);
        let tail = spec_escape(s.skip(1)) + seq!['"'] + rest;
        let t = spec_escape(s) + seq!['"'] + rest;
        assert(t =~= e + tail);
        lemma_escape_round_trip(s.skip(1), acc.push(c), rest);
        assert(acc.push(c) + s.skip(1) =~= acc + s);
        assert(tail.len() >= 1);
        if c == '"' {
            assert(t[0] == '\\' && t[1] == '"');
            assert(t.skip(2) =~= tail);
        } else if c == '\\' {
            assert(t[0] == '\\' && t[1] == '\\');
            assert(t.skip(2) =~= tail);
        } else if c == '\u{0008}' {
            assert(t[0] == '\\' && t[1] == 'b');
            assert(t.skip(2) =~= tail);
        } else if c == '\u{000C}' {
            assert(t[0] == '\\' && t[1] == 'f');
            assert(t.skip(2) =~= tail);
        } else if c == '\n' {
            assert(t[0] == '\\' && t[1] == 'n');
            assert(t.skip(2) =~= tail);
        } else if c == '\r' {
            assert(t[0] == '\\' && t[1] == 'r');
            assert(t.skip(2) =~= tail);
        } else if c == '\t' {
            assert(t[0] == '\\' && t[1] == 't');
            assert(t.skip(2) =~= tail);
        } else if (c as u32) < 0x20 {
            let hi = (c as u32 / 16) as nat;
            let lo = (c as u32 % 16) as nat;
            lemma_hex_digit_char(hi);
            lemma_hex_digit_char(lo);
            assert(t[0] == '\\' && t[1] == 'u' && t[2] == '0' && t[3] == '0');
            assert(t[4] == hex_digit_char(hi));
            assert(t[5] == hex_digit_char(lo));
            assert(hex_val('0') == 0);
            let v = hex4val(t[2], t[3], t[4], t[5]);
            assert(v == hi * 16 + lo);
            assert(v == c as u32) by (nonlinear_arith)
                requires
                    v == hi * 16 + lo,
                    hi == (c as u32 / 16) as nat,
                    lo == (c as u32 % 16) as nat,
            ;
            assert(v < 0x20);
            vstd::utf8::char_u32_cast(c, c as u32);
            assert((v as char) == c);
            assert(t.skip(6) =~= tail);
        } else {
            assert(t[0] == c);
            assert(t[0] != '"' && t[0] != '\\' && !((t[0] as u32) < 0x20));
            assert(t.skip(1) =~= tail);
        }
    }
}

/// Appends the escaped form of `s` onto `out`.
pub fn escape_into(out: &mut Vec<char>, s: &[char])
    ensures
        final(out)@ == old(out)@ + spec_escape(s@),
{
    let mut i: usize = 0;
    proof {
        assert(s@.take(0) =~= Seq::<char>::empty());
        assert(out@ + spec_escape(s@.take(0)) =~= out@);
    }
    while i < s.len()
        invariant
            i <= s@.len(),
            out@ == old(out)@ + spec_escape(s@.take(i as int)),
        decreases s@.len() - i,
    {
        let c = s[i];
        proof {
            lemma_escape_snoc(s@.take(i as int), c);
            assert(s@.take(i as int).push(c) =~= s@.take(i as int + 1));
        }
        let ghost before = out@;
        if c == '"' {
            out.push('\\');
            out.push('"');
        } else if c == '\\' {
            out.push('\\');
            out.push('\\');
        } else if c == '\u{0008}' {
            out.push('\\');
            out.push('b');
        } else if c == '\u{000C}' {
            out.push('\\');
            out.push('f');
        } else if c == '\n' {
            out.push('\\');
            out.push('n');
        } else if c == '\r' {
            out.push('\\');
            out.push('r');
        } else if c == '\t' {
            out.push('\\');
            out.push('t');
        } else if (c as u32) < 0x20 {
            let hi = (c as u32) / 16;
            let lo = (c as u32) % 16;
            let hc = match char_from_u32(if hi < 10 {
                '0' as u32 + hi
            } else {
                'a' as u32 + (hi - 10)
            }) {
                Some(ch) => ch,
                None => '0',
            };
            let lc = match char_from_u32(if lo < 10 {
                '0' as u32 + lo
            } else {
                'a' as u32 + (lo - 10)
            }) {
                Some(ch) => ch,
                None => '0',
            };
            out.push('\\');
            out.push('u');
            out.push('0');
            out.push('0');
            out.push(hc);
            out.push(lc);
            proof {
                assert(hc == hex_digit_char((c as u32 / 16) as nat));
                assert(lc == hex_digit_char((c as u32 % 16) as nat));
            }
        } else {
            out.push(c);
        }
        proof {
            assert(out@ =~= before + esc_char(c));
            assert(out@ =~= old(out)@ + spec_escape(s@.take(i as int + 1)));
        }
        i = i + 1;
    }
    proof {
        assert(s@.take(s@.len() as int) =~= s@);
    }
}

// ---------------------------------------------------------------------------
// skipping whole values
// ---------------------------------------------------------------------------

/// Nesting budget for skipped values; frames deeper than this are refused.
pub const MAX_DEPTH: usize = 128;

/// Consumes a maximal run of number-token characters.
pub open spec fn spec_skip_number(s: Seq<char>) -> Seq<char>
    decreases s.len(),
{
    if s.len() > 0 && is_number_char(s[0]) {
        spec_skip_number(s.skip(1))
    } else {
        s
    }
}

/// Passes over one JSON value and yields what follows it.  Numbers are read
/// lexically; strings must carry well-formed escapes; nesting deeper than
/// `depth` is refused.  The length guards can never fail on a sequence this
/// function accepts; they only serve the termination argument.
pub open spec fn spec_skip_value(s: Seq<char>, depth: nat) -> Option<Seq<char>>
    decreases depth, s.len(), 0int,
{
    if s.len() == 0 {
        None
    } else if s[0] == '{' {
        if depth == 0 {
            None
        } else {
            spec_skip_object_body(s.skip(1), (depth - 1) as nat)
        }
    } else if s[0] == '[' {
        if depth == 0 {
            None
        } else {
            spec_skip_array_body(s.skip(1), (depth - 1) as nat)
        }
    } else if s[0] == '"' {
        match spec_parse_string_body(s.skip(1), Seq::empty()) {
            Some(p) => Some(p.1),
            None => None,
        }
    } else if s[0] == 't' {
        if s.len() >= 4 && s[1] == 'r' && s[2] == 'u' && s[3] == 'e' {
            Some(s.skip(4))
        } else {
            None
        }
    } else if s[0] == 'f' {
        if s.len() >= 5 && s[1] == 'a' && s[2] == 'l' && s[3] == 's' && s[4] == 'e' {
            Some(s.skip(5))
        } else {
            None
        }
    } else if s[0] == 'n' {
        if s.len() >= 4 && s[1] == 'u' && s[2] == 'l' && s[3] == 'l' {
            Some(s.skip(4))
        } else {
            None
        }
    } else if is_digit_char(s[0]) || s[0] == '-' {
        Some(spec_skip_number(s))
    } else {
        None
    }
}

/// The inside of an object, entered just after the opening brace.
pub open spec fn spec_skip_object_body(s: Seq<char>, depth: nat) -> Option<Seq<char>>
    decreases depth, s.len(), 1int,
{
    let t = spec_skip_ws(s);
    if t.len() > s.len() {
        None
    } else if t.len() == 0 {
        None
    } else if t[0] == '}' {
        Some(t.skip(1))
    } else if t[0] == '"' {
        match spec_parse_string_body(t.skip(1), Seq::empty()) {
            None => None,
            Some(p) => {
                let u = spec_skip_ws(p.1);
                if u.len() == 0 || u[0] != ':' {
                    None
                } else {
                    let w = spec_skip_ws(u.skip(1));
                    if w.len() >= s.len() {
                        None
                    } else {
                        match spec_skip_value(w, depth) {
                            None => None,
                            Some(r2) => {
                                let v = spec_skip_ws(r2);
                                if v.len() == 0 {
                                    None
                                } else if v[0] == '}' {
                                    Some(v.skip(1))
                                } else if v[0] == ',' {
                                    let nx = spec_skip_ws(v.skip(1));
                                    if nx.len() >= s.len() || nx.len() == 0 || nx[0] != '"' {
                                        None
                                    } else {
                                        spec_skip_object_body(nx, depth)
                                    }
                                } else {
                                    None
                                }
                            },
                        }
                    }
                }
            },
        }
    } else {
        None
    }
}

/// The inside of an array, entered just after the opening bracket.
pub open spec fn spec_skip_array_body(s: Seq<char>, depth: nat) -> Option<Seq<char>>
    decreases depth, s.len(), 1int,
{
    let t = spec_skip_ws(s);
    if t.len() > s.len() {
        None
    } else if t.len() == 0 {
        None
    } else if t[0] == ']' {
        Some(t.skip(1))
    } else {
        match spec_skip_value(t, depth) {
            None => None,
            Some(r2) => {
                let v = spec_skip_ws(r2);
                if v.len() == 0 {
                    None
                } else if v[0] == ']' {
                    Some(v.skip(1))
                } else if v[0] == ',' {
                    let nx = spec_skip_ws(v.skip(1));
                    if nx.len() >= s.len() || nx.len() == 0 || nx[0] == ']' {
                        None
                    } else {
                        spec_skip_array_body(nx, depth)
                    }
                } else {
                    None
                }
            },
        }
    }
}


// ---------------------------------------------------------------------------
// exec value skipping
// ---------------------------------------------------------------------------

pub fn skip_number<'a>(s: &'a [char]) -> (r: &'a [char])
    ensures
        r@ == spec_skip_number(s@),
{
    let mut i: usize = 0;
    proof {
        assert(s@.skip(0) =~= s@);
    }
    while i < s.len() && number_char(s[i])
        invariant
            i <= s@.len(),
            spec_skip_number(s@) == spec_skip_number(s@.skip(i as int)),
        decreases s@.len() - i,
    {
        proof {
            lemma_skip_skip(s@, i as int, 1);
            assert(s@.skip(i as int)[0] == s@[i as int]);
        }
        i = i + 1;
    }
    &s[i..s.len()]
}

/// Exec twin of `spec_skip_value`.
pub fn skip_value<'a>(s: &'a [char], depth: usize) -> (r: Option<&'a [char]>)
    ensures
        ({
            let sp = spec_skip_value(s@, depth as nat);
            match r {
                Some(rest) => sp == Some(rest@),
                None => sp is None,
            }
        }),
    decreases depth, s@.len(), 0int,
{
    if s.len() == 0 {
        return None;
    }
    let c = s[0];
    if c == '{' {
        if depth == 0 {
            None
        } else {
            proof {
                assert(s@.skip(1) == s@.subrange(1, s@.len() as int));
            }
            skip_object_body(&s[1..s.len()], depth - 1)
        }
    } else if c == '[' {
        if depth == 0 {
            None
        } else {
            proof {
                assert(s@.skip(1) == s@.subrange(1, s@.len() as int));
            }
            skip_array_body(&s[1..s.len()], depth - 1)
        }
    } else if c == '"' {
        match parse_string(s) {
            Some(p) => Some(p.1),
            None => None,
        }
    } else if c == 't' {
        if s.len() >= 4 && s[1] == 'r' && s[2] == 'u' && s[3] == 'e' {
            proof {
                assert(s@.skip(4) == s@.subrange(4, s@.len() as int));
            }
            Some(&s[4..s.len()])
        } else {
            None
        }
    } else if c == 'f' {
        if s.len() >= 5 && s[1] == 'a' && s[2] == 'l' && s[3] == 's' && s[4] == 'e' {
            proof {
                assert(s@.skip(5) == s@.subrange(5, s@.len() as int));
            }
            Some(&s[5..s.len()])
        } else {
            None
        }
    } else if c == 'n' {
        if s.len() >= 4 && s[1] == 'u' && s[2] == 'l' && s[3] == 'l' {
            proof {
                assert(s@.skip(4) == s@.subrange(4, s@.len() as int));
            }
            Some(&s[4..s.len()])
        } else {
            None
        }
    } else if digit_char(c) || c == '-' {
        Some(skip_number(s))
    } else {
        None
    }
}

fn skip_object_body<'a>(s: &'a [char], depth: usize) -> (r: Option<&'a [char]>)
    ensures
        ({
            let sp = spec_skip_object_body(s@, depth as nat);
            match r {
                Some(rest) => sp == Some(rest@),
                None => sp is None,
            }
        }),
    decreases depth, s@.len(), 1int,
{
    let t = skip_ws(s);
    if t.len() > s.len() {
        return None;
    }
    if t.len() == 0 {
        return None;
    }
    if t[0] == '}' {
        proof {
            assert(t@.skip(1) == t@.subrange(1, t@.len() as int));
        }
        return Some(&t[1..t.len()]);
    }
    if t[0] != '"' {
        return None;
    }
    let key = parse_string(t);
    match key {
        None => None,
        Some(p) => {
            let u = skip_ws(p.1);
            if u.len() == 0 || u[0] != ':' {
                return None;
            }
            proof {
                assert(u@.skip(1) == u@.subrange(1, u@.len() as int));
            }
            let w = skip_ws(&u[1..u.len()]);
            if w.len() >= s.len() {
                return None;
            }
            match skip_value(w, depth) {
                None => None,
                Some(r2) => {
                    let v = skip_ws(r2);
                    if v.len() == 0 {
                        return None;
                    }
                    if v[0] == '}' {
                        proof {
                            assert(v@.skip(1) == v@.subrange(1, v@.len() as int));
                        }
                        return Some(&v[1..v.len()]);
                    }
                    if v[0] != ',' {
                        return None;
                    }
                    proof {
                        assert(v@.skip(1) == v@.subrange(1, v@.len() as int));
                    }
                    let nx = skip_ws(&v[1..v.len()]);
                    if nx.len() >= s.len() || nx.len() == 0 || nx[0] != '"' {
                        return None;
                    }
                    skip_object_body(nx, depth)
                },
            }
        },
    }
}

fn skip_array_body<'a>(s: &'a [char], depth: usize) -> (r: Option<&'a [char]>)
    ensures
        ({
            let sp = spec_skip_array_body(s@, depth as nat);
            match r {
                Some(rest) => sp == Some(rest@),
                None => sp is None,
            }
        }),
    decreases depth, s@.len(), 1int,
{
    let t = skip_ws(s);
    if t.len() > s.len() {
        return None;
    }
    if t.len() == 0 {
        return None;
    }
    if t[0] == ']' {
        proof {
            assert(t@.skip(1) == t@.subrange(1, t@.len() as int));
        }
        return Some(&t[1..t.len()]);
    }
    match skip_value(t, depth) {
        None => None,
        Some(r2) => {
            let v = skip_ws(r2);
            if v.len() == 0 {
                return None;
            }
            if v[0] == ']' {
                proof {
                    assert(v@.skip(1) == v@.subrange(1, v@.len() as int));
                }
                return Some(&v[1..v.len()]);
            }
            if v[0] != ',' {
                return None;
            }
            proof {
                assert(v@.skip(1) == v@.subrange(1, v@.len() as int));
            }
            let nx = skip_ws(&v[1..v.len()]);
            if nx.len() >= s.len() || nx.len() == 0 || nx[0] == ']' {
                return None;
            }
            skip_array_body(nx, depth)
        },
    }
}


// ---------------------------------------------------------------------------
// classifying member values
// ---------------------------------------------------------------------------

/// What a member's value was, as far as the protocol cares: an integer, a
/// string, a literal, or an uninterpreted span of text (objects, arrays and
/// non-integer numbers).
pub enum JField {
    Num { val: int },
    Text { val: Seq<char> },
    NullV,
    TrueV,
    FalseV,
    Span { text: Seq<char> },
}

/// Reads one member value and classifies it.
pub open spec fn spec_classify(s: Seq<char>, depth: nat) -> Option<(JField, Seq<char>)> {
    if s.len() == 0 {
        None
    } else if s[0] == '"' {
        match spec_parse_string(s) {
            Some(p) => Some((JField::Text { val: p.0 }, p.1)),
            None => None,
        }
    } else if s[0] == 'n' || s[0] == 't' || s[0] == 'f' {
        match spec_skip_value(s, depth) {
            Some(r) => Some(
                (
                    if s[0] == 'n' {
                        JField::NullV
                    } else if s[0] == 't' {
                        JField::TrueV
                    } else {
                        JField::FalseV
                    },
                    r,
                ),
            ),
            None => None,
        }
    } else if is_digit_char(s[0]) {
        let p = spec_parse_digits(s, 0);
        if p.1.len() > 0 && (p.1[0] == '.' || p.1[0] == 'e' || p.1[0] == 'E') {
            let r = spec_skip_number(s);
            Some((JField::Span { text: s.take(s.len() - r.len()) }, r))
        } else {
            Some((JField::Num { val: p.0 as int }, p.1))
        }
    } else if s[0] == '-' {
        if s.len() >= 2 && is_digit_char(s[1]) {
            let p = spec_parse_digits(s.skip(1), 0);
            if p.1.len() > 0 && (p.1[0] == '.' || p.1[0] == 'e' || p.1[0] == 'E') {
                let r = spec_skip_number(s);
                Some((JField::Span { text: s.take(s.len() - r.len()) }, r))
            } else {
                Some((JField::Num { val: -(p.0 as int) }, p.1))
            }
        } else {
            None
        }
    } else if s[0] == '{' || s[0] == '[' {
        match spec_skip_value(s, depth) {
            Some(r) => Some((JField::Span { text: s.take(s.len() - r.len()) }, r)),
            None => None,
        }
    } else {
        None
    }
}

/// Exec form of a classified member value.  An integer whose magnitude
/// does not fit in `u64` is kept only as its sign and an overflow mark.
pub enum FieldData {
    Num { neg: bool, mag: u64, over: bool },
    Text { val: Vec<char> },
    NullV,
    TrueV,
    FalseV,
    Span { text: Vec<char> },
}

/// The exec classification faithfully reflects the spec one.
pub open spec fn field_matches(x: &FieldData, j: JField) -> bool {
    match j {
        JField::Num { val } => match x {
            FieldData::Num { neg, mag, over } => {
                &&& *over ==> (if *neg {
                    val < -(u64::MAX as int)
                } else {
                    val > u64::MAX as int
                })
                &&& !*over ==> val == (if *neg {
                    -(*mag as int)
                } else {
                    *mag as int
                })
            },
            _ => false,
        },
        JField::Text { val } => match x {
            FieldData::Text { val: v } => v@ == val,
            _ => false,
        },
        JField::NullV => x is NullV,
        JField::TrueV => x is TrueV,
        JField::FalseV => x is FalseV,
        JField::Span { text } => match x {
            FieldData::Span { text: v } => v@ == text,
            _ => false,
        },
    }
}

/// Exec twin of `spec_classify`.
pub fn classify<'a>(s: &'a [char], depth: usize) -> (r: Option<(FieldData, &'a [char])>)
    ensures
        ({
            let sp = spec_classify(s@, depth as nat);
            match r {
                Some(p) => sp is Some && field_matches(&p.0, (sp->0).0) && p.1@ == (sp->0).1,
                None => sp is None,
            }
        }),
{
    if s.len() == 0 {
        return None;
    }
    let c = s[0];
    if c == '"' {
        match parse_string(s) {
            Some(p) => Some((FieldData::Text { val: p.0 }, p.1)),
            None => None,
        }
    } else if c == 'n' || c == 't' || c == 'f' {
        match skip_value(s, depth) {
            Some(r) => Some(
                (
                    if c == 'n' {
                        FieldData::NullV
                    } else if c == 't' {
                        FieldData::TrueV
                    } else {
                        FieldData::FalseV
                    },
                    r,
                ),
            ),
            None => None,
        }
    } else if digit_char(c) || c == '-' {
        let neg = c == '-';
        if neg && (s.len() < 2 || !digit_char(s[1])) {
            return None;
        }
        let body = if neg {
            proof {
                assert(s@.skip(1) == s@.subrange(1, s@.len() as int));
            }
            &s[1..s.len()]
        } else {
            proof {
                assert(s@.skip(0) =~= s@);
            }
            &s[0..s.len()]
        };
        proof {
            if !neg {
                assert(body@ =~= s@);
            }
        }
        let p = parse_digits(body);
        let rest = p.2;
        if rest.len() > 0 && (rest[0] == '.' || rest[0] == 'e' || rest[0] == 'E') {
            let r = skip_number(s);
            let ghost k = s@.len() - r@.len();
            proof {
                lemma_skip_number_suffix(s@);
                assert(s@.take(k as int) == s@.subrange(0, k as int));
            }
            let span = vstd::slice::slice_to_vec(&s[0..s.len() - r.len()]);
            Some((FieldData::Span { text: span }, r))
        } else {
            Some((FieldData::Num { neg, mag: p.0, over: p.1 }, rest))
        }
    } else if c == '{' || c == '[' {
        match skip_value(s, depth) {
            Some(r) => {
                let ghost k = s@.len() - r@.len();
                proof {
                    lemma_skip_value_suffix(s@, depth as nat);
                    assert(s@.take(k as int) == s@.subrange(0, k as int));
                }
                let span = vstd::slice::slice_to_vec(&s[0..s.len() - r.len()]);
                Some((FieldData::Span { text: span }, r))
            },
            None => None,
        }
    } else {
        None
    }
}

// ---------------------------------------------------------------------------
// results of the skippers are suffixes
// ---------------------------------------------------------------------------

pub proof fn lemma_skip_ws_suffix(s: Seq<char>)
    ensures
        spec_skip_ws(s).len() <= s.len(),
        spec_skip_ws(s) == s.skip(s.len() - spec_skip_ws(s).len()),
    decreases s.len(),
{
    lemma_skip_ws_len(s);
    let k = choose|k: int| 0 <= k <= s.len() && spec_skip_ws(s) == s.skip(k);
    assert(spec_skip_ws(s).len() == s.len() - k);
}

pub proof fn lemma_skip_number_suffix(s: Seq<char>)
    ensures
        spec_skip_number(s).len() <= s.len(),
        spec_skip_number(s) == s.skip(s.len() - spec_skip_number(s).len()),
    decreases s.len(),
{
    if s.len() > 0 && is_number_char(s[0]) {
        lemma_skip_number_suffix(s.skip(1));
        let r = spec_skip_number(s);
        lemma_skip_skip(s, 1, s.len() - 1 - r.len());
    } else {
        assert(spec_skip_number(s) == s.skip(0));
    }
}

pub proof fn lemma_parse_string_body_suffix(s: Seq<char>, acc: Seq<char>)
    requires
        spec_parse_string_body(s, acc) is Some,
    ensures
        ({
            let r = (spec_parse_string_body(s, acc)->0).1;
            r.len() <= s.len() && r == s.skip(s.len() - r.len())
        }),
    decreases s.len(),
{
    let r = (spec_parse_string_body(s, acc)->0).1;
    if s[0] == '"' {
        assert(r == s.skip(1));
    } else if s[0] == '\\' {
        let e = s[1];
        if e == 'u' {
            let v = hex4val(s[2], s[3], s[4], s[5]);
            if v < 0xD800 || v >= 0xE000 {
                lemma_parse_string_body_suffix(s.skip(6), acc.push(v as char));
                lemma_skip_skip(s, 6, s.len() - 6 - r.len());
            } else {
                let w = hex4val(s[8], s[9], s[10], s[11]);
                let scalar = 0x10000 + (v - 0xD800) * 0x400 + (w - 0xDC00);
                lemma_parse_string_body_suffix(s.skip(12), acc.push(scalar as char));
                lemma_skip_skip(s, 12, s.len() - 12 - r.len());
            }
        } else {
            let pushed: char = if e == '"' {
                '"'
            } else if e == '\\' {
                '\\'
            } else if e == '/' {
                '/'
            } else if e == 'b' {
                '\u{0008}'
            } else if e == 'f' {
                '\u{000C}'
            } else if e == 'n' {
                '\n'
            } else if e == 'r' {
                '\r'
            } else {
                '\t'
            };
            lemma_parse_string_body_suffix(s.skip(2), acc.push(pushed));
            lemma_skip_skip(s, 2, s.len() - 2 - r.len());
        }
    } else {
        lemma_parse_string_body_suffix(s.skip(1), acc.push(s[0]));
        lemma_skip_skip(s, 1, s.len() - 1 - r.len());
    }
}

pub proof fn lemma_skip_value_suffix(s: Seq<char>, depth: nat)
    requires
        spec_skip_value(s, depth) is Some,
    ensures
        ({
            let r = spec_skip_value(s, depth)->0;
            r.len() <= s.len() && r == s.skip(s.len() - r.len())
        }),
    decreases depth, s.len(), 0int,
{
    let r = spec_skip_value(s, depth)->0;
    if s[0] == '{' {
        lemma_skip_object_body_suffix(s.skip(1), (depth - 1) as nat);
        lemma_skip_skip(s, 1, s.len() - 1 - r.len());
    } else if s[0] == '[' {
        lemma_skip_array_body_suffix(s.skip(1), (depth - 1) as nat);
        lemma_skip_skip(s, 1, s.len() - 1 - r.len());
    } else if s[0] == '"' {
        lemma_parse_string_body_suffix(s.skip(1), Seq::empty());
        lemma_skip_skip(s, 1, s.len() - 1 - r.len());
    } else if s[0] == 't' || s[0] == 'f' || s[0] == 'n' {
    } else {
        lemma_skip_number_suffix(s);
    }
}

#[verifier::rlimit(100)]
pub proof fn lemma_skip_object_body_suffix(s: Seq<char>, depth: nat)
    requires
        spec_skip_object_body(s, depth) is Some,
    ensures
        ({
            let r = spec_skip_object_body(s, depth)->0;
            r.len() <= s.len() && r == s.skip(s.len() - r.len())
        }),
    decreases depth, s.len(), 1int,
{
    let r = spec_skip_object_body(s, depth)->0;
    let t = spec_skip_ws(s);
    lemma_skip_ws_suffix(s);
    if t[0] == '}' {
        lemma_skip_skip(s, s.len() - t.len(), 1);
    } else {
        let p = spec_parse_string_body(t.skip(1), Seq::empty());
        lemma_parse_string_body_suffix(t.skip(1), Seq::empty());
        lemma_skip_skip(s, s.len() - t.len(), 1);
        // t.skip(1) == s.skip(s.len() - t.len() + 1)
        let r1 = (p->0).1;
        lemma_skip_skip(s, s.len() - t.len() + 1, t.len() - 1 - r1.len());
        let u = spec_skip_ws(r1);
        lemma_skip_ws_suffix(r1);
        lemma_skip_skip(s, s.len() - r1.len(), r1.len() - u.len());
        let w = spec_skip_ws(u.skip(1));
        lemma_skip_ws_suffix(u.skip(1));
        lemma_skip_skip(s, s.len() - u.len(), 1);
        lemma_skip_skip(s, s.len() - u.len() + 1, u.len() - 1 - w.len());
        let r2 = spec_skip_value(w, depth)->0;
        lemma_skip_value_suffix(w, depth);
        lemma_skip_skip(s, s.len() - w.len(), w.len() - r2.len());
        let v = spec_skip_ws(r2);
        lemma_skip_ws_suffix(r2);
        lemma_skip_skip(s, s.len() - r2.len(), r2.len() - v.len());
        if v[0] == '}' {
            lemma_skip_skip(s, s.len() - v.len(), 1);
        } else {
            let nx = spec_skip_ws(v.skip(1));
            lemma_skip_ws_suffix(v.skip(1));
            lemma_skip_skip(s, s.len() - v.len(), 1);
            lemma_skip_skip(s, s.len() - v.len() + 1, v.len() - 1 - nx.len());
            lemma_skip_object_body_suffix(nx, depth);
            lemma_skip_skip(s, s.len() - nx.len(), nx.len() - r.len());
        }
    }
}

#[verifier::rlimit(100)]
pub proof fn lemma_skip_array_body_suffix(s: Seq<char>, depth: nat)
    requires
        spec_skip_array_body(s, depth) is Some,
    ensures
        ({
            let r = spec_skip_array_body(s, depth)->0;
            r.len() <= s.len() && r == s.skip(s.len() - r.len())
        }),
    decreases depth, s.len(), 1int,
{
    let r = spec_skip_array_body(s, depth)->0;
    let t = spec_skip_ws(s);
    lemma_skip_ws_suffix(s);
    if t[0] == ']' {
        lemma_skip_skip(s, s.len() - t.len(), 1);
    } else {
        let r2 = spec_skip_value(t, depth)->0;
        lemma_skip_value_suffix(t, depth);
        lemma_skip_skip(s, s.len() - t.len(), t.len() - r2.len());
        let v = spec_skip_ws(r2);
        lemma_skip_ws_suffix(r2);
        lemma_skip_skip(s, s.len() - r2.len(), r2.len() - v.len());
        if v[0] == ']' {
            lemma_skip_skip(s, s.len() - v.len(), 1);
        } else {
            let nx = spec_skip_ws(v.skip(1));
            lemma_skip_ws_suffix(v.skip(1));
            lemma_skip_skip(s, s.len() - v.len(), 1);
            lemma_skip_skip(s, s.len() - v.len() + 1, v.len() - 1 - nx.len());
            lemma_skip_array_body_suffix(nx, depth);
            lemma_skip_skip(s, s.len() - nx.len(), nx.len() - r.len());
        }
    }
}


/// Skipping passes over any run of number characters.
pub proof fn lemma_skip_number_all(s: Seq<char>, rest: Seq<char>)
    requires
        forall|i: int| 0 <= i < s.len() ==> is_number_char(#[trigger] s[i]),
    ensures
        spec_skip_number(s + rest) == spec_skip_number(rest),
    decreases s.len(),
{
    if s.len() == 0 {
        assert(s + rest =~= rest);
    } else {
        assert((s + rest)[0] == s[0]);
        assert((s + rest).skip(1) =~= s.skip(1) + rest);
        lemma_skip_number_all(s.skip(1), rest);
    }
}

/// Lexical number skipping consumes a rendered decimal exactly when the
/// continuation does not begin with a number character.
pub proof fn lemma_skip_number_of_digits(n: nat, rest: Seq<char>)
    requires
        rest.len() == 0 || !is_number_char(rest[0]),
    ensures
        spec_skip_number(dec_digits(n) + rest) == rest,
{
    lemma_dec_digits_shape(n);
    lemma_skip_number_all(dec_digits(n), rest);
}


// ---------------------------------------------------------------------------
// appending text does not change what a parser consumed
// ---------------------------------------------------------------------------

/// Whitespace skipping that stopped at a visible character is unaffected by
/// appended text.
pub proof fn lemma_skip_ws_extend(a: Seq<char>, x: Seq<char>)
    requires
        spec_skip_ws(a).len() > 0,
    ensures
        spec_skip_ws(a + x) == spec_skip_ws(a) + x,
    decreases a.len(),
{
    if a.len() > 0 && is_ws_char(a[0]) {
        assert((a + x)[0] == a[0]);
        assert((a + x).skip(1) =~= a.skip(1) + x);
        lemma_skip_ws_extend(a.skip(1), x);
    } else {
        assert(a.len() > 0);
        assert((a + x)[0] == a[0]);
        assert(spec_skip_ws(a + x) == a + x);
    }
}

/// Number skipping that stopped at a non-number character is unaffected by
/// appended text.
pub proof fn lemma_skip_number_extend(a: Seq<char>, x: Seq<char>)
    requires
        spec_skip_number(a).len() > 0,
    ensures
        spec_skip_number(a + x) == spec_skip_number(a) + x,
    decreases a.len(),
{
    if a.len() > 0 && is_number_char(a[0]) {
        assert((a + x)[0] == a[0]);
        assert((a + x).skip(1) =~= a.skip(1) + x);
        lemma_skip_number_extend(a.skip(1), x);
    } else {
        assert(a.len() > 0);
        assert((a + x)[0] == a[0]);
        assert(spec_skip_number(a + x) == a + x);
    }
}

/// A string body parse is unaffected by appended text.
pub proof fn lemma_parse_string_body_extend(a: Seq<char>, acc: Seq<char>, x: Seq<char>)
    requires
        spec_parse_string_body(a, acc) is Some,
    ensures
        ({
            let p = spec_parse_string_body(a, acc)->0;
            spec_parse_string_body(a + x, acc) == Some((p.0, p.1 + x))
        }),
    decreases a.len(),
{
    let s2 = a + x;
    assert(s2[0] == a[0]);
    if a[0] == '"' {
        assert(s2.skip(1) =~= a.skip(1) + x);
    } else if a[0] == '\\' {
        assert(s2[1] == a[1]);
        let e = a[1];
        if e == 'u' {
            assert(s2[2] == a[2] && s2[3] == a[3] && s2[4] == a[4] && s2[5] == a[5]);
            let v = hex4val(a[2], a[3], a[4], a[5]);
            if v < 0xD800 || v >= 0xE000 {
                assert(s2.skip(6) =~= a.skip(6) + x);
                lemma_parse_string_body_extend(a.skip(6), acc.push(v as char), x);
            } else {
                assert(v < 0xDC00);
                assert(a.len() >= 12);
                assert(s2[6] == a[6] && s2[7] == a[7] && s2[8] == a[8] && s2[9] == a[9] && s2[10]
                    == a[10] && s2[11] == a[11]);
                let w = hex4val(a[8], a[9], a[10], a[11]);
                let scalar = 0x10000 + (v - 0xD800) * 0x400 + (w - 0xDC00);
                assert(s2.skip(12) =~= a.skip(12) + x);
                lemma_parse_string_body_extend(a.skip(12), acc.push(scalar as char), x);
            }
        } else {
            let pushed: char = if e == '"' {
                '"'
            } else if e == '\\' {
                '\\'
            } else if e == '/' {
                '/'
            } else if e == 'b' {
                '\u{0008}'
            } else if e == 'f' {
                '\u{000C}'
            } else if e == 'n' {
                '\n'
            } else if e == 'r' {
                '\r'
            } else {
                '\t'
            };
            assert(s2.skip(2) =~= a.skip(2) + x);
            lemma_parse_string_body_extend(a.skip(2), acc.push(pushed), x);
        }
    } else {
        assert(s2.skip(1) =~= a.skip(1) + x);
        lemma_parse_string_body_extend(a.skip(1), acc.push(a[0]), x);
    }
}

/// A value whose parse either left something behind or is self-delimiting is
/// unaffected by appended text.
pub proof fn lemma_skip_value_extend(a: Seq<char>, depth: nat, x: Seq<char>)
    requires
        spec_skip_value(a, depth) is Some,
        spec_skip_value(a, depth)->0.len() > 0 || !(is_digit_char(a[0]) || a[0] == '-'),
    ensures
        spec_skip_value(a + x, depth) == Some(spec_skip_value(a, depth)->0 + x),
    decreases depth, a.len(), 0int,
{
    let s2 = a + x;
    assert(s2[0] == a[0]);
    if a[0] == '{' {
        assert(s2.skip(1) =~= a.skip(1) + x);
        lemma_skip_object_body_extend(a.skip(1), (depth - 1) as nat, x);
    } else if a[0] == '[' {
        assert(s2.skip(1) =~= a.skip(1) + x);
        lemma_skip_array_body_extend(a.skip(1), (depth - 1) as nat, x);
    } else if a[0] == '"' {
        assert(s2.skip(1) =~= a.skip(1) + x);
        lemma_parse_string_body_extend(a.skip(1), Seq::empty(), x);
    } else if a[0] == 't' {
        assert(s2[1] == a[1] && s2[2] == a[2] && s2[3] == a[3]);
        assert(s2.skip(4) =~= a.skip(4) + x);
    } else if a[0] == 'f' {
        assert(s2[1] == a[1] && s2[2] == a[2] && s2[3] == a[3] && s2[4] == a[4]);
        assert(s2.skip(5) =~= a.skip(5) + x);
    } else if a[0] == 'n' {
        assert(s2[1] == a[1] && s2[2] == a[2] && s2[3] == a[3]);
        assert(s2.skip(4) =~= a.skip(4) + x);
    } else {
        lemma_skip_number_extend(a, x);
    }
}

/// An object body parse, which always ends at its closing brace, is
/// unaffected by appended text.
#[verifier::rlimit(100)]
#[verifier::spinoff_prover]
pub proof fn lemma_skip_object_body_extend(a: Seq<char>, depth: nat, x: Seq<char>)
    requires
        spec_skip_object_body(a, depth) is Some,
    ensures
        spec_skip_object_body(a + x, depth) == Some(spec_skip_object_body(a, depth)->0 + x),
    decreases depth, a.len(), 1int,
{
    let s2 = a + x;
    let t = spec_skip_ws(a);
    lemma_skip_ws_len(a);
    assert(!(t.len() > a.len()));
    assert(t.len() > 0);
    lemma_skip_ws_extend(a, x);
    let t2 = t + x;
    assert(spec_skip_ws(s2) == t2);
    assert(!(t2.len() > s2.len()));
    assert(t2.len() > 0);
    assert(t2[0] == t[0]);
    if t[0] == '}' {
        assert(t2.skip(1) =~= t.skip(1) + x);
        assert(spec_skip_object_body(a, depth) == Some(t.skip(1)));
        assert(spec_skip_object_body(s2, depth) == Some(t2.skip(1)));
    } else {
        assert(t[0] == '"');
        let p = spec_parse_string_body(t.skip(1), Seq::empty());
        assert(p is Some);
        assert(t2.skip(1) =~= t.skip(1) + x);
        lemma_parse_string_body_extend(t.skip(1), Seq::empty(), x);
        let r1 = (p->0).1;
        assert(spec_parse_string_body(t2.skip(1), Seq::empty()) == Some(((p->0).0, r1 + x)));
        let u = spec_skip_ws(r1);
        assert(!(u.len() == 0 || u[0] != ':'));
        lemma_skip_ws_extend(r1, x);
        let u2 = u + x;
        assert(spec_skip_ws(r1 + x) == u2);
        assert(u2.len() > 0 && u2[0] == ':');
        assert(u2.skip(1) =~= u.skip(1) + x);
        let w = spec_skip_ws(u.skip(1));
        assert(!(w.len() >= a.len()));
        let r2 = spec_skip_value(w, depth);
        assert(r2 is Some);
        let v = spec_skip_ws(r2->0);
        assert(v.len() > 0);
        assert(r2->0.len() > 0) by {
            lemma_skip_ws_len(r2->0);
        }
        lemma_skip_ws_extend(u.skip(1), x);
        let w2 = w + x;
        assert(spec_skip_ws(u2.skip(1)) == w2);
        assert(w2.len() == w.len() + x.len() && s2.len() == a.len() + x.len());
        assert(!(w2.len() >= s2.len()));
        lemma_skip_value_extend(w, depth, x);
        assert(spec_skip_value(w2, depth) == Some(r2->0 + x));
        lemma_skip_ws_extend(r2->0, x);
        let v2 = v + x;
        assert(spec_skip_ws(r2->0 + x) == v2);
        assert(v2.len() > 0);
        assert(v2[0] == v[0]);
        if v[0] == '}' {
            assert(v2.skip(1) =~= v.skip(1) + x);
            assert(spec_skip_object_body(a, depth) == Some(v.skip(1)));
            assert(spec_skip_object_body(s2, depth) == Some(v2.skip(1)));
        } else {
            assert(v[0] == ',');
            let nx = spec_skip_ws(v.skip(1));
            assert(!(nx.len() >= a.len() || nx.len() == 0 || nx[0] != '"'));
            assert(v2.skip(1) =~= v.skip(1) + x);
            lemma_skip_ws_extend(v.skip(1), x);
            let nx2 = nx + x;
            assert(spec_skip_ws(v2.skip(1)) == nx2);
            assert(!(nx2.len() >= s2.len() || nx2.len() == 0 || nx2[0] != '"'));
            lemma_skip_object_body_extend(nx, depth, x);
            assert(spec_skip_object_body(a, depth) == spec_skip_object_body(nx, depth));
            assert(spec_skip_object_body(s2, depth) == spec_skip_object_body(nx2, depth));
        }
    }
}

/// An array body parse, which always ends at its closing bracket, is
/// unaffected by appended text.
#[verifier::rlimit(100)]
#[verifier::spinoff_prover]
pub proof fn lemma_skip_array_body_extend(a: Seq<char>, depth: nat, x: Seq<char>)
    requires
        spec_skip_array_body(a, depth) is Some,
    ensures
        spec_skip_array_body(a + x, depth) == Some(spec_skip_array_body(a, depth)->0 + x),
    decreases depth, a.len(), 1int,
{
    let s2 = a + x;
    let t = spec_skip_ws(a);
    lemma_skip_ws_len(a);
    assert(t.len() > 0);
    lemma_skip_ws_extend(a, x);
    let t2 = t + x;
    assert(t2.len() <= s2.len());
    assert(t2[0] == t[0]);
    if t[0] == ']' {
        assert(t2.skip(1) =~= t.skip(1) + x);
    } else {
        let r2 = spec_skip_value(t, depth);
        assert(r2 is Some);
        let v = spec_skip_ws(r2->0);
        assert(v.len() > 0);
        assert(r2->0.len() > 0) by {
            lemma_skip_ws_len(r2->0);
        }
        lemma_skip_value_extend(t, depth, x);
        assert(spec_skip_value(t2, depth) == Some(r2->0 + x));
        lemma_skip_ws_extend(r2->0, x);
        let v2 = v + x;
        assert(v2[0] == v[0]);
        if v[0] == ']' {
            assert(v2.skip(1) =~= v.skip(1) + x);
        } else {
            assert(v[0] == ',');
            let nx = spec_skip_ws(v.skip(1));
            assert(nx.len() > 0 && nx[0] != ']');
            assert(v2.skip(1) =~= v.skip(1) + x);
            lemma_skip_ws_extend(v.skip(1), x);
            let nx2 = nx + x;
            assert(nx2.len() < s2.len());
            assert(nx2[0] == nx[0]);
            lemma_skip_array_body_extend(nx, depth, x);
        }
    }
}

} // verus!
