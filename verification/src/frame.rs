//! The control-frame format: each text frame of a control connection is one
//! event, written as a tagged object — `{"DPad":"Up"}`, `{"Text":"hi\n"}`,
//! `{"MouseMove":{"dx":1.5,"dy":0}}` and so on. This module defines the
//! grammar exactly and decodes a frame into a `RemoteControlEvent`; a frame
//! outside the grammar decodes to nothing and is dropped by the session.
//! String payloads know the short escapes (`\"`, `\\`, `\/`, `\b`, `\f`,
//! `\n`, `\r`, `\t`) and `\uXXXX` escapes, astral characters written as
//! surrogate pairs. Numbers take an optional sign, fraction, and exponent.

use vstd::prelude::*;
use crate::delta::{delta_from, digits_int};
use crate::ident::{digit_val, digit_val_exec, val_be};
use crate::input::{
    Action, DPadDirection, EventView, Key, MouseButton, MouseDelta, RemoteControlEvent,
};
use crate::strutil::{char_from_u32, chars_of, push_char, str_eq};

verus! {

/// Frame whitespace: the four blank characters the grammar skips between
/// tokens.
pub open spec fn is_ws(c: char) -> bool {
    c == ' ' || c == '\t' || c == '\n' || c == '\r'
}

/// A decimal digit position.
pub open spec fn is_dec(c: char) -> bool {
    0 <= digit_val(c) <= 9
}

/// First position at or after `i` that does not hold whitespace.
pub open spec fn ws_end(s: Seq<char>, i: int) -> int
    decreases s.len() - i
        when 0 <= i <= s.len()
{
    if i < s.len() && is_ws(s[i]) {
        ws_end(s, i + 1)
    } else {
        i
    }
}

/// First position at or after `i` that does not hold a decimal digit.
pub open spec fn digits_end(s: Seq<char>, i: int) -> int
    decreases s.len() - i
        when 0 <= i <= s.len()
{
    if i < s.len() && is_dec(s[i]) {
        digits_end(s, i + 1)
    } else {
        i
    }
}

/// A hexadecimal digit position.
pub open spec fn is_hex(c: char) -> bool {
    digit_val(c) >= 0
}

/// Four hexadecimal digits standing at `j`.
pub open spec fn hex4_at(s: Seq<char>, j: int) -> bool {
    is_hex(s[j]) && is_hex(s[j + 1]) && is_hex(s[j + 2]) && is_hex(s[j + 3])
}

/// Value of the four hexadecimal digits standing at `j`.
pub open spec fn hex4_val(s: Seq<char>, j: int) -> int {
    digit_val(s[j]) * 4096 + digit_val(s[j + 1]) * 256 + digit_val(s[j + 2]) * 16 + digit_val(
        s[j + 3],
    )
}

/// The character with scalar value `v`.
pub open spec fn scalar_char(v: int) -> char {
    choose|c: char| (#[trigger] (c as u32)) as int == v
}

/// Character a short escape stands for.
pub open spec fn escape_char(c: char) -> Option<char> {
    if c == '"' {
        Some('"')
    } else if c == '\\' {
        Some('\\')
    } else if c == '/' {
        Some('/')
    } else if c == 'b' {
        Some('\u{0008}')
    } else if c == 'f' {
        Some('\u{000C}')
    } else if c == 'n' {
        Some('\n')
    } else if c == 'r' {
        Some('\r')
    } else if c == 't' {
        Some('\t')
    } else {
        None
    }
}

/// Prefix one character onto a string-body parse.
pub open spec fn prepend_char(c: char, r: Option<(Seq<char>, int)>) -> Option<(Seq<char>, int)> {
    match r {
        Some((t, j)) => Some((seq![c] + t, j)),
        None => None,
    }
}

/// Content and end of a string body read from just after the opening
/// quote: plain characters up to the closing quote, short escapes,
/// `\uXXXX` escapes (astral characters as surrogate pairs), and no raw
/// control characters.
pub open spec fn string_body(s: Seq<char>, i: int) -> Option<(Seq<char>, int)>
    decreases s.len() - i
        when 0 <= i <= s.len()
{
    if i >= s.len() {
        None
    } else if s[i] == '"' {
        Some((Seq::empty(), i + 1))
    } else if s[i] == '\\' {
        if i + 1 >= s.len() {
            None
        } else if s[i + 1] == 'u' {
            if i + 6 <= s.len() && hex4_at(s, i + 2) {
                let v = hex4_val(s, i + 2);
                if v < 0xD800 || v > 0xDFFF {
                    prepend_char(scalar_char(v), string_body(s, i + 6))
                } else if v <= 0xDBFF {
                    // high surrogate: a low surrogate escape must follow
                    if i + 12 <= s.len() && s[i + 6] == '\\' && s[i + 7] == 'u' && hex4_at(
                        s,
                        i + 8,
                    ) {
                        let w = hex4_val(s, i + 8);
                        if 0xDC00 <= w && w <= 0xDFFF {
                            prepend_char(
                                scalar_char(0x10000 + (v - 0xD800) * 0x400 + (w - 0xDC00)),
                                string_body(s, i + 12),
                            )
                        } else {
                            None
                        }
                    } else {
                        None
                    }
                } else {
                    None
                }
            } else {
                None
            }
        } else {
            match escape_char(s[i + 1]) {
                Some(c) => prepend_char(c, string_body(s, i + 2)),
                None => None,
            }
        }
    } else if (s[i] as u32) < 0x20 {
        None
    } else {
        prepend_char(s[i], string_body(s, i + 1))
    }
}

/// A quoted string read at `i`: content and the position after the closing
/// quote.
pub open spec fn parse_string(s: Seq<char>, i: int) -> Option<(Seq<char>, int)> {
    if 0 <= i < s.len() && s[i] == '"' {
        string_body(s, i + 1)
    } else {
        None
    }
}

/// First position at or after `i` without whitespace, executable.
fn skip_ws(s: &Vec<char>, i: usize) -> (j: usize)
    requires
        i <= s@.len(),
    ensures
        j == ws_end(s@, i as int),
        i <= j <= s@.len(),
{
    let mut j = i;
    while j < s.len() && (s[j] == ' ' || s[j] == '\t' || s[j] == '\n' || s[j] == '\r')
        invariant
            i <= j <= s@.len(),
            ws_end(s@, i as int) == ws_end(s@, j as int),
        decreases s@.len() - j,
    {
        j += 1;
    }
    j
}

/// Read a quoted string at `i`, executable.
fn parse_string_at(s: &Vec<char>, i: usize) -> (r: Option<(String, usize)>)
    requires
        i <= s@.len(),
    ensures
        match r {
            Some((t, j)) => parse_string(s@, i as int) == Some((t@, j as int)) && i < j <= s@.len(),
            None => parse_string(s@, i as int) is None,
        },
{
    if i >= s.len() || s[i] != '"' {
        return None;
    }
    let mut acc = String::new();
    let mut j = i + 1;
    loop
        invariant
            i < s@.len(),
            s@[i as int] == '"',
            i + 1 <= j <= s@.len(),
            string_body(s@, i + 1) == prepend_seq(acc@, string_body(s@, j as int)),
        decreases s@.len() - j,
    {
        if j >= s.len() {
            return None;
        }
        let c = s[j];
        if c == '"' {
            proof {
                assert(string_body(s@, j as int) == Some((Seq::<char>::empty(), j as int + 1)));
                assert(acc@ + Seq::<char>::empty() =~= acc@);
                assert(prepend_seq(acc@, string_body(s@, j as int)) == Some(
                    (acc@, j as int + 1),
                ));
                assert(parse_string(s@, i as int) == string_body(s@, i as int + 1));
            }
            return Some((acc, j + 1));
        }
        if c == '\\' {
            if j + 1 >= s.len() {
                return None;
            }
            let e = s[j + 1];
            if e == 'u' {
                if s.len() - j < 6 {
                    return None;
                }
                let v = match hex4_val_exec(s[j + 2], s[j + 3], s[j + 4], s[j + 5]) {
                    Some(v) => v,
                    None => {
                        return None;
                    },
                };
                if v < 0xD800 || v > 0xDFFF {
                    let ch = match char_from_u32(v) {
                        Some(ch) => ch,
                        None => {
                            return None;
                        },
                    };
                    proof {
                        lemma_scalar_char(ch, v);
                        lemma_prepend_assoc(acc@, ch, string_body(s@, j + 6));
                    }
                    push_char(&mut acc, ch);
                    j += 6;
                } else if v <= 0xDBFF {
                    if s.len() - j < 12 {
                        return None;
                    }
                    if !(s[j + 6] == '\\' && s[j + 7] == 'u') {
                        return None;
                    }
                    let w = match hex4_val_exec(s[j + 8], s[j + 9], s[j + 10], s[j + 11]) {
                        Some(w) => w,
                        None => {
                            return None;
                        },
                    };
                    if !(0xDC00 <= w && w <= 0xDFFF) {
                        return None;
                    }
                    let combined: u32 = 0x10000 + (v - 0xD800) * 0x400 + (w - 0xDC00);
                    let ch = match char_from_u32(combined) {
                        Some(ch) => ch,
                        None => {
                            return None;
                        },
                    };
                    proof {
                        lemma_scalar_char(ch, combined);
                        lemma_prepend_assoc(acc@, ch, string_body(s@, j + 12));
                    }
                    push_char(&mut acc, ch);
                    j += 12;
                } else {
                    return None;
                }
            } else {
                let mapped: char = if e == '"' {
                    '"'
                } else if e == '\\' {
                    '\\'
                } else if e == '/' {
                    '/'
                } else if e == 'b' {
                    '\u{0008}'
                } else if e == 'f' {
                    '\u{000C}'
                } else if e == 'n' {
                    '\n'
                } else if e == 'r' {
                    '\r'
                } else if e == 't' {
                    '\t'
                } else {
                    return None;
                };
                proof {
                    assert(escape_char(s@[j as int + 1]) == Some(mapped));
                    lemma_prepend_assoc(acc@, mapped, string_body(s@, j + 2));
                }
                push_char(&mut acc, mapped);
                j += 2;
            }
        } else if (c as u32) < 0x20 {
            return None;
        } else {
            proof {
                lemma_prepend_assoc(acc@, c, string_body(s@, j + 1));
            }
            push_char(&mut acc, c);
            j += 1;
        }
    }
}

/// Value of four hexadecimal digit characters, executable.
fn hex4_val_exec(c0: char, c1: char, c2: char, c3: char) -> (r: Option<u32>)
    ensures
        r is Some <==> (is_hex(c0) && is_hex(c1) && is_hex(c2) && is_hex(c3)),
        r matches Some(v) ==> v as int == digit_val(c0) * 4096 + digit_val(c1) * 256 + digit_val(
            c2,
        ) * 16 + digit_val(c3) && v <= 0xFFFF,
{
    let d0 = match digit_val_exec(c0) {
        Some(d) => d,
        None => {
            return None;
        },
    };
    let d1 = match digit_val_exec(c1) {
        Some(d) => d,
        None => {
            return None;
        },
    };
    let d2 = match digit_val_exec(c2) {
        Some(d) => d,
        None => {
            return None;
        },
    };
    let d3 = match digit_val_exec(c3) {
        Some(d) => d,
        None => {
            return None;
        },
    };
    Some((d0 as u32) * 4096 + (d1 as u32) * 256 + (d2 as u32) * 16 + (d3 as u32))
}

/// A character is the one its scalar value names.
proof fn lemma_scalar_char(c: char, v: u32)
    requires
        c as u32 == v,
    ensures
        scalar_char(v as int) == c,
{
    assert(exists|c2: char| (#[trigger] (c2 as u32)) as int == v as int) by {
        assert((c as u32) as int == v as int);
    }
    let cc = scalar_char(v as int);
    assert((cc as u32) as int == v as int);
}

/// Prefix a whole accumulated string onto a string-body parse.
pub open spec fn prepend_seq(p: Seq<char>, r: Option<(Seq<char>, int)>) -> Option<(Seq<char>, int)> {
    match r {
        Some((t, j)) => Some((p + t, j)),
        None => None,
    }
}

/// Folding one more character into the accumulator keeps the prefix
/// equation.
proof fn lemma_prepend_assoc(p: Seq<char>, c: char, r: Option<(Seq<char>, int)>)
    ensures
        prepend_seq(p, prepend_char(c, r)) == prepend_seq(p.push(c), r),
{
    match r {
        Some((t, j)) => {
            assert(p + (seq![c] + t) =~= p.push(c) + t);
        },
        None => {},
    }
}

/// Values of decimal digit characters.
pub open spec fn dec_digit_vals(s: Seq<char>) -> Seq<int> {
    s.map_values(|c: char| digit_val(c))
}

/// The mantissa of a number read at `i`: optional minus sign, integer
/// digits (no lead zero unless the part is a single zero), optional
/// fraction. Yields the sign, the digit values (integer digits then
/// fraction digits), the count of integer digits, and the position after.
pub open spec fn parse_mantissa(s: Seq<char>, i: int) -> Option<(bool, Seq<int>, int, int)> {
    if !(0 <= i <= s.len()) {
        None
    } else {
        let neg = i < s.len() && s[i] == '-';
        let i0 = if neg {
            i + 1
        } else {
            i
        };
        let i1 = digits_end(s, i0);
        if i1 == i0 || (i1 - i0 > 1 && s[i0] == '0') {
            None
        } else {
            let dotted = i1 < s.len() && s[i1] == '.';
            let fs = i1 + 1;
            let fe = if dotted {
                digits_end(s, fs)
            } else {
                i1
            };
            if dotted && fe == fs {
                None
            } else {
                Some(
                    (
                        neg,
                        dec_digit_vals(
                            s.subrange(i0, i1) + if dotted {
                                s.subrange(fs, fe)
                            } else {
                                Seq::empty()
                            },
                        ),
                        i1 - i0,
                        if dotted {
                            fe
                        } else {
                            i1
                        },
                    ),
                )
            }
        }
    }
}

/// A number read at `i`: a mantissa and an optional exponent of any
/// length; the pixel delta it denotes and the position after it.
pub open spec fn parse_delta(s: Seq<char>, i: int) -> Option<(MouseDelta, int)> {
    match parse_mantissa(s, i) {
        None => None,
        Some((neg, ds, ip_len, p)) => {
            if p < s.len() && (s[p] == 'e' || s[p] == 'E') {
                let signed = p + 1 < s.len() && (s[p + 1] == '+' || s[p + 1] == '-');
                let eneg = p + 1 < s.len() && s[p + 1] == '-';
                let q = if signed {
                    p + 2
                } else {
                    p + 1
                };
                let ee = digits_end(s, q);
                if ee == q {
                    None
                } else {
                    let ev = val_be(s.subrange(q, ee), 10);
                    Some(
                        (
                            delta_from(
                                neg,
                                ds,
                                ip_len + if eneg {
                                    -ev
                                } else {
                                    ev
                                },
                            ),
                            ee,
                        ),
                    )
                }
            } else {
                Some((delta_from(neg, ds, ip_len), p))
            }
        },
    }
}

/// Whether a character is a decimal digit, executable.
fn is_dec_exec(c: char) -> (r: bool)
    ensures
        r == is_dec(c),
{
    match c {
        '0' | '1' | '2' | '3' | '4' | '5' | '6' | '7' | '8' | '9' => true,
        _ => false,
    }
}

/// Value of a decimal digit character.
fn dec_val_exec(c: char) -> (r: u8)
    requires
        is_dec(c),
    ensures
        r as int == digit_val(c),
{
    match c {
        '0' => 0,
        '1' => 1,
        '2' => 2,
        '3' => 3,
        '4' => 4,
        '5' => 5,
        '6' => 6,
        '7' => 7,
        '8' => 8,
        _ => 9,
    }
}

/// First position at or after `i` without a decimal digit, executable.
fn scan_digits(s: &Vec<char>, i: usize) -> (j: usize)
    requires
        i <= s@.len(),
    ensures
        j == digits_end(s@, i as int),
        i <= j <= s@.len(),
        forall|m: int| i <= m < j ==> is_dec(#[trigger] s@[m]),
{
    let mut j = i;
    while j < s.len() && is_dec_exec(s[j])
        invariant
            i <= j <= s@.len(),
            digits_end(s@, i as int) == digits_end(s@, j as int),
            forall|m: int| i <= m < j ==> is_dec(#[trigger] s@[m]),
        decreases s@.len() - j,
    {
        j += 1;
    }
    j
}

/// Collect the digit values of `s[a..b]` onto `ds`.
fn push_digit_vals(ds: &mut Vec<u8>, s: &Vec<char>, a: usize, b: usize)
    requires
        a <= b <= s@.len(),
        forall|m: int| a <= m < b ==> is_dec(#[trigger] s@[m]),
    ensures
        final(ds)@.len() == old(ds)@.len() + (b - a),
        forall|m: int| 0 <= m < old(ds)@.len() ==> #[trigger] final(ds)@[m] == old(ds)@[m],
        forall|m: int|
            old(ds)@.len() <= m < final(ds)@.len() ==> #[trigger] final(ds)@[m] as int == digit_val(
                s@[a + (m - old(ds)@.len())],
            ) && final(ds)@[m] <= 9,
        digits_int(final(ds)@) == digits_int(old(ds)@) + dec_digit_vals(
            s@.subrange(a as int, b as int),
        ),
{
    let ghost orig = ds@;
    let mut k = a;
    while k < b
        invariant
            a <= k <= b <= s@.len(),
            forall|m: int| a <= m < b ==> is_dec(#[trigger] s@[m]),
            ds@.len() == orig.len() + (k - a),
            forall|m: int| 0 <= m < orig.len() ==> #[trigger] ds@[m] == orig[m],
            forall|m: int|
                orig.len() <= m < ds@.len() ==> #[trigger] ds@[m] as int == digit_val(
                    s@[a + (m - orig.len())],
                ) && ds@[m] <= 9,
        decreases b - k,
    {
        let d = dec_val_exec(s[k]);
        ds.push(d);
        k += 1;
    }
    proof {
        let whole = digits_int(orig) + dec_digit_vals(s@.subrange(a as int, b as int));
        assert forall|m: int| 0 <= m < ds@.len() implies digits_int(ds@)[m] == whole[m] by {
            if m < orig.len() {
                assert(ds@[m] == orig[m]);
            } else {
                assert(ds@[m] as int == digit_val(s@[a + (m - orig.len())]));
                assert(dec_digit_vals(s@.subrange(a as int, b as int))[m - orig.len()]
                    == digit_val(s@.subrange(a as int, b as int)[m - orig.len()]));
            }
        }
        assert(digits_int(ds@) =~= whole);
    }
}

/// Read the exponent digits `s[q..ee]` as a value, saturating at a bound
/// far past any position the digit string can reach: beyond it only the
/// exponent's sign matters.
fn scan_exponent_value(s: &Vec<char>, q: usize, ee: usize) -> (ev: i128)
    requires
        q <= ee <= s@.len(),
        forall|m: int| q <= m < ee ==> is_dec(#[trigger] s@[m]),
    ensures
        ({
            let t = val_be(s@.subrange(q as int, ee as int), 10);
            (t < 100000000000000000000 && ev == t) || (t >= 100000000000000000000 && ev
                == 100000000000000000000)
        }),
        0 <= ev <= 100000000000000000000,
{
    let cap: i128 = 100000000000000000000;
    let mut ev: i128 = 0;
    let mut k = q;
    proof {
        assert(s@.subrange(q as int, q as int) =~= Seq::<char>::empty());
    }
    while k < ee
        invariant
            q <= k <= ee <= s@.len(),
            forall|m: int| q <= m < ee ==> is_dec(#[trigger] s@[m]),
            cap == 100000000000000000000,
            ({
                let t = val_be(s@.subrange(q as int, k as int), 10);
                (t < cap && ev == t) || (t >= cap && ev == cap)
            }),
            0 <= ev <= cap,
        decreases ee - k,
    {
        let ghost t = val_be(s@.subrange(q as int, k as int), 10);
        let d = dec_val_exec(s[k]);
        if ev < cap {
            let next: i128 = ev * 10 + (d as i128);
            ev = if next >= cap {
                cap
            } else {
                next
            };
        }
        k += 1;
        proof {
            let pre = s@.subrange(q as int, k - 1);
            let ext = s@.subrange(q as int, k as int);
            assert(ext.drop_last() =~= pre);
            assert(ext.last() == s@[k - 1]);
            assert(val_be(ext, 10) == t * 10 + digit_val(s@[k - 1]));
            if t >= cap {
                assert(t * 10 >= t) by (nonlinear_arith)
                    requires
                        t >= 0,
                ;
            }
        }
    }
    proof {
        assert(s@.subrange(q as int, k as int) =~= s@.subrange(q as int, ee as int));
    }
    ev
}

/// Read the mantissa of a number at `i`, executable.
fn parse_mantissa_at(s: &Vec<char>, i: usize) -> (r: Option<(bool, Vec<u8>, usize, usize)>)
    requires
        i <= s@.len(),
    ensures
        match r {
            Some(m) => {
                &&& parse_mantissa(s@, i as int) == Some(
                    (m.0, digits_int(m.1@), m.2 as int, m.3 as int),
                )
                &&& i < m.3 <= s@.len()
                &&& m.2 <= m.3
                &&& m.1@.len() <= 2 * s@.len()
                &&& (forall|j: int| 0 <= j < m.1@.len() ==> #[trigger] m.1@[j] <= 9)
            },
            None => parse_mantissa(s@, i as int) is None,
        },
{
    let neg = i < s.len() && s[i] == '-';
    let i0 = if neg {
        i + 1
    } else {
        i
    };
    let i1 = scan_digits(s, i0);
    if i1 == i0 {
        return None;
    }
    if i1 - i0 > 1 && s[i0] == '0' {
        return None;
    }
    let dotted = i1 < s.len() && s[i1] == '.';
    let mut ds: Vec<u8> = Vec::new();
    push_digit_vals(&mut ds, s, i0, i1);
    let ghost ip_vals = dec_digit_vals(s@.subrange(i0 as int, i1 as int));
    proof {
        assert(digits_int(ds@) =~= ip_vals);
    }
    let p: usize;
    if dotted {
        let fs = i1 + 1;
        let fe = scan_digits(s, fs);
        if fe == fs {
            return None;
        }
        push_digit_vals(&mut ds, s, fs, fe);
        p = fe;
        proof {
            assert(digits_int(ds@) =~= dec_digit_vals(
                s@.subrange(i0 as int, i1 as int) + s@.subrange(fs as int, fe as int),
            )) by {
                assert(dec_digit_vals(
                    s@.subrange(i0 as int, i1 as int) + s@.subrange(fs as int, fe as int),
                ) =~= dec_digit_vals(s@.subrange(i0 as int, i1 as int)) + dec_digit_vals(
                    s@.subrange(fs as int, fe as int),
                ));
            }
        }
    } else {
        p = i1;
        proof {
            assert(digits_int(ds@) =~= dec_digit_vals(
                s@.subrange(i0 as int, i1 as int) + Seq::<char>::empty(),
            )) by {
                assert(s@.subrange(i0 as int, i1 as int) + Seq::<char>::empty() =~= s@.subrange(
                    i0 as int,
                    i1 as int,
                ));
            }
        }
    }
    proof {
        assert(forall|j: int| 0 <= j < ds@.len() ==> #[trigger] ds@[j] <= 9) by {
            assert(forall|j: int|
                0 <= j < digits_int(ds@).len() ==> 0 <= #[trigger] digits_int(ds@)[j] <= 9);
        }
        assert(ds@.len() == digits_int(ds@).len());
    }
    Some((neg, ds, i1 - i0, p))
}

/// Read a number at `i` and round it to a pixel delta, executable.
fn parse_delta_at(s: &Vec<char>, i: usize) -> (r: Option<(MouseDelta, usize)>)
    requires
        i <= s@.len(),
    ensures
        match r {
            Some((d, j)) => parse_delta(s@, i as int) == Some((d, j as int)) && i < j <= s@.len(),
            None => parse_delta(s@, i as int) is None,
        },
{
    let (neg, ds, ip_len, p) = match parse_mantissa_at(s, i) {
        Some(m) => m,
        None => {
            return None;
        },
    };
    if p < s.len() && (s[p] == 'e' || s[p] == 'E') {
        let signed = p + 1 < s.len() && (s[p + 1] == '+' || s[p + 1] == '-');
        let eneg = p + 1 < s.len() && s[p + 1] == '-';
        let q = if signed {
            p + 2
        } else {
            p + 1
        };
        let ee = scan_digits(s, q);
        if ee == q {
            return None;
        }
        let ev = scan_exponent_value(s, q, ee);
        let ghost t_full = val_be(s@.subrange(q as int, ee as int), 10);
        let point: i128 = ip_len as i128 + (if eneg {
            -ev
        } else {
            ev
        });
        let delta = crate::delta::delta_from_parts(neg, &ds, point);
        proof {
            crate::delta::lemma_point_clamped(
                neg,
                digits_int(ds@),
                ip_len as int,
                eneg,
                ev as int,
                t_full,
            );
        }
        Some((delta, ee))
    } else {
        let delta = crate::delta::delta_from_parts(neg, &ds, ip_len as i128);
        Some((delta, p))
    }
}

/// The direction a directional-pad payload names.
pub open spec fn dpad_of(v: Seq<char>) -> Option<DPadDirection> {
    if v == "Up"@ {
        Some(DPadDirection::Up)
    } else if v == "Down"@ {
        Some(DPadDirection::Down)
    } else if v == "Left"@ {
        Some(DPadDirection::Left)
    } else if v == "Right"@ {
        Some(DPadDirection::Right)
    } else if v == "Enter"@ {
        Some(DPadDirection::Enter)
    } else if v == "Exit"@ {
        Some(DPadDirection::Exit)
    } else {
        None
    }
}

/// The mouse button a payload names.
pub open spec fn button_of(v: Seq<char>) -> Option<MouseButton> {
    if v == "LeftButton"@ {
        Some(MouseButton::LeftButton)
    } else if v == "RightButton"@ {
        Some(MouseButton::RightButton)
    } else if v == "MiddleButton"@ {
        Some(MouseButton::MiddleButton)
    } else {
        None
    }
}

/// The named action a payload names.
pub open spec fn action_of(v: Seq<char>) -> Option<Action> {
    if v == "Home"@ {
        Some(Action::Home)
    } else if v == "AltTab"@ {
        Some(Action::AltTab)
    } else {
        None
    }
}

/// A delta-pair object at `i`: `{"dx":n,"dy":n}` with the two keys in
/// either order.
pub open spec fn parse_dxdy(s: Seq<char>, i: int) -> Option<((MouseDelta, MouseDelta), int)> {
    if 0 <= i < s.len() && s[i] == '{' {
        match parse_string(s, ws_end(s, i + 1)) {
            Some((key1, j1)) => {
                let c1 = ws_end(s, j1);
                if c1 < s.len() && s[c1] == ':' {
                    match parse_delta(s, ws_end(s, c1 + 1)) {
                        Some((n1, j2)) => {
                            let cm = ws_end(s, j2);
                            if cm < s.len() && s[cm] == ',' {
                                match parse_string(s, ws_end(s, cm + 1)) {
                                    Some((key2, j3)) => {
                                        let c2 = ws_end(s, j3);
                                        if c2 < s.len() && s[c2] == ':' {
                                            match parse_delta(s, ws_end(s, c2 + 1)) {
                                                Some((n2, j4)) => {
                                                    let cl = ws_end(s, j4);
                                                    if cl < s.len() && s[cl] == '}' {
                                                        if key1 == "dx"@ && key2 == "dy"@ {
                                                            Some(((n1, n2), cl + 1))
                                                        } else if key1 == "dy"@ && key2
                                                            == "dx"@ {
                                                            Some(((n2, n1), cl + 1))
                                                        } else {
                                                            None
                                                        }
                                                    } else {
                                                        None
                                                    }
                                                },
                                                None => None,
                                            }
                                        } else {
                                            None
                                        }
                                    },
                                    None => None,
                                }
                            } else {
                                None
                            }
                        },
                        None => None,
                    }
                } else {
                    None
                }
            },
            None => None,
        }
    } else {
        None
    }
}

/// The payload for one tag, read at `i`.
pub open spec fn parse_payload(s: Seq<char>, tag: Seq<char>, i: int) -> Option<(EventView, int)> {
    if tag == "DPad"@ {
        match parse_string(s, i) {
            Some((v, j)) => match dpad_of(v) {
                Some(d) => Some((EventView::DPad(d), j)),
                None => None,
            },
            None => None,
        }
    } else if tag == "Text"@ {
        match parse_string(s, i) {
            Some((v, j)) => Some((EventView::Text(v), j)),
            None => None,
        }
    } else if tag == "Keyboard"@ {
        match parse_string(s, i) {
            Some((v, j)) => if v == "Backspace"@ {
                Some((EventView::Keyboard(Key::Backspace), j))
            } else {
                None
            },
            None => None,
        }
    } else if tag == "MouseMove"@ {
        match parse_dxdy(s, i) {
            Some(((dx, dy), j)) => Some((EventView::MouseMove { dx, dy }, j)),
            None => None,
        }
    } else if tag == "MouseDown"@ {
        match parse_string(s, i) {
            Some((v, j)) => match button_of(v) {
                Some(b) => Some((EventView::MouseDown(b), j)),
                None => None,
            },
            None => None,
        }
    } else if tag == "MouseUp"@ {
        match parse_string(s, i) {
            Some((v, j)) => match button_of(v) {
                Some(b) => Some((EventView::MouseUp(b), j)),
                None => None,
            },
            None => None,
        }
    } else if tag == "MouseClick"@ {
        match parse_string(s, i) {
            Some((v, j)) => match button_of(v) {
                Some(b) => Some((EventView::MouseClick(b), j)),
                None => None,
            },
            None => None,
        }
    } else if tag == "MouseScroll"@ {
        match parse_dxdy(s, i) {
            Some(((dx, dy), j)) => Some((EventView::MouseScroll { dx, dy }, j)),
            None => None,
        }
    } else if tag == "Action"@ {
        match parse_string(s, i) {
            Some((v, j)) => match action_of(v) {
                Some(a) => Some((EventView::Action(a), j)),
                None => None,
            },
            None => None,
        }
    } else {
        None
    }
}

/// The event one whole frame denotes: a single tagged object, nothing but
/// whitespace around it.
pub open spec fn parse_event(s: Seq<char>) -> Option<EventView> {
    let i0 = ws_end(s, 0);
    if i0 < s.len() && s[i0] == '{' {
        match parse_string(s, ws_end(s, i0 + 1)) {
            Some((tag, j1)) => {
                let c = ws_end(s, j1);
                if c < s.len() && s[c] == ':' {
                    match parse_payload(s, tag, ws_end(s, c + 1)) {
                        Some((ev, j2)) => {
                            let e0 = ws_end(s, j2);
                            if e0 < s.len() && s[e0] == '}' && ws_end(s, e0 + 1) == s.len() {
                                Some(ev)
                            } else {
                                None
                            }
                        },
                        None => None,
                    }
                } else {
                    None
                }
            },
            None => None,
        }
    } else {
        None
    }
}

/// Read a delta-pair object at `i`, executable.
fn parse_dxdy_at(s: &Vec<char>, i: usize) -> (r: Option<((MouseDelta, MouseDelta), usize)>)
    requires
        i <= s@.len(),
    ensures
        match r {
            Some((p, j)) => parse_dxdy(s@, i as int) == Some(((p.0, p.1), j as int)) && i < j
                <= s@.len(),
            None => parse_dxdy(s@, i as int) is None,
        },
{
    if i >= s.len() || s[i] != '{' {
        return None;
    }
    let (key1, j1) = match parse_string_at(s, skip_ws(s, i + 1)) {
        Some(x) => x,
        None => {
            return None;
        },
    };
    let c1 = skip_ws(s, j1);
    if c1 >= s.len() || s[c1] != ':' {
        return None;
    }
    let (n1, j2) = match parse_delta_at(s, skip_ws(s, c1 + 1)) {
        Some(x) => x,
        None => {
            return None;
        },
    };
    let cm = skip_ws(s, j2);
    if cm >= s.len() || s[cm] != ',' {
        return None;
    }
    let (key2, j3) = match parse_string_at(s, skip_ws(s, cm + 1)) {
        Some(x) => x,
        None => {
            return None;
        },
    };
    let c2 = skip_ws(s, j3);
    if c2 >= s.len() || s[c2] != ':' {
        return None;
    }
    let (n2, j4) = match parse_delta_at(s, skip_ws(s, c2 + 1)) {
        Some(x) => x,
        None => {
            return None;
        },
    };
    let cl = skip_ws(s, j4);
    if cl >= s.len() || s[cl] != '}' {
        return None;
    }
    if str_eq(key1.as_str(), "dx") && str_eq(key2.as_str(), "dy") {
        Some(((n1, n2), cl + 1))
    } else if str_eq(key1.as_str(), "dy") && str_eq(key2.as_str(), "dx") {
        Some(((n2, n1), cl + 1))
    } else {
        None
    }
}

/// Decode one text frame into its control event; a frame outside the
/// grammar decodes to nothing.
pub fn decode_event(frame: &str) -> (r: Option<RemoteControlEvent>)
    ensures
        match r {
            Some(e) => parse_event(frame@) == Some(e@),
            None => parse_event(frame@) is None,
        },
{
    let s = chars_of(frame);
    let i0 = skip_ws(&s, 0);
    if i0 >= s.len() || s[i0] != '{' {
        return None;
    }
    let (tag, j1) = match parse_string_at(&s, skip_ws(&s, i0 + 1)) {
        Some(x) => x,
        None => {
            return None;
        },
    };
    let c = skip_ws(&s, j1);
    if c >= s.len() || s[c] != ':' {
        return None;
    }
    let pstart = skip_ws(&s, c + 1);
    let payload = decode_payload(&s, &tag, pstart);
    let (ev, j2) = match payload {
        Some(x) => x,
        None => {
            return None;
        },
    };
    let e0 = skip_ws(&s, j2);
    if e0 >= s.len() || s[e0] != '}' {
        return None;
    }
    if skip_ws(&s, e0 + 1) != s.len() {
        return None;
    }
    Some(ev)
}

/// Read the payload for one tag at `i`, executable.
fn decode_payload(s: &Vec<char>, tag: &String, i: usize) -> (r: Option<(RemoteControlEvent, usize)>)
    requires
        i <= s@.len(),
    ensures
        match r {
            Some((e, j)) => parse_payload(s@, tag@, i as int) == Some((e@, j as int)) && j
                <= s@.len(),
            None => parse_payload(s@, tag@, i as int) is None,
        },
{
    if str_eq(tag.as_str(), "DPad") {
        match parse_string_at(s, i) {
            Some((v, j)) => {
                let d = if str_eq(v.as_str(), "Up") {
                    Some(DPadDirection::Up)
                } else if str_eq(v.as_str(), "Down") {
                    Some(DPadDirection::Down)
                } else if str_eq(v.as_str(), "Left") {
                    Some(DPadDirection::Left)
                } else if str_eq(v.as_str(), "Right") {
                    Some(DPadDirection::Right)
                } else if str_eq(v.as_str(), "Enter") {
                    Some(DPadDirection::Enter)
                } else if str_eq(v.as_str(), "Exit") {
                    Some(DPadDirection::Exit)
                } else {
                    None
                };
                match d {
                    Some(d) => Some((RemoteControlEvent::DPad(d), j)),
                    None => None,
                }
            },
            None => None,
        }
    } else if str_eq(tag.as_str(), "Text") {
        match parse_string_at(s, i) {
            Some((v, j)) => Some((RemoteControlEvent::Text(v), j)),
            None => None,
        }
    } else if str_eq(tag.as_str(), "Keyboard") {
        match parse_string_at(s, i) {
            Some((v, j)) => {
                if str_eq(v.as_str(), "Backspace") {
                    Some((RemoteControlEvent::Keyboard(Key::Backspace), j))
                } else {
                    None
                }
            },
            None => None,
        }
    } else if str_eq(tag.as_str(), "MouseMove") {
        match parse_dxdy_at(s, i) {
            Some(((dx, dy), j)) => Some((RemoteControlEvent::MouseMove { dx, dy }, j)),
            None => None,
        }
    } else if str_eq(tag.as_str(), "MouseDown") {
        match parse_string_at(s, i) {
            Some((v, j)) => match decode_button(&v) {
                Some(b) => Some((RemoteControlEvent::MouseDown(b), j)),
                None => None,
            },
            None => None,
        }
    } else if str_eq(tag.as_str(), "MouseUp") {
        match parse_string_at(s, i) {
            Some((v, j)) => match decode_button(&v) {
                Some(b) => Some((RemoteControlEvent::MouseUp(b), j)),
                None => None,
            },
            None => None,
        }
    } else if str_eq(tag.as_str(), "MouseClick") {
        match parse_string_at(s, i) {
            Some((v, j)) => match decode_button(&v) {
                Some(b) => Some((RemoteControlEvent::MouseClick(b), j)),
                None => None,
            },
            None => None,
        }
    } else if str_eq(tag.as_str(), "MouseScroll") {
        match parse_dxdy_at(s, i) {
            Some(((dx, dy), j)) => Some((RemoteControlEvent::MouseScroll { dx, dy }, j)),
            None => None,
        }
    } else if str_eq(tag.as_str(), "Action") {
        match parse_string_at(s, i) {
            Some((v, j)) => {
                let a = if str_eq(v.as_str(), "Home") {
                    Some(Action::Home)
                } else if str_eq(v.as_str(), "AltTab") {
                    Some(Action::AltTab)
                } else {
                    None
                };
                match a {
                    Some(a) => Some((RemoteControlEvent::Action(a), j)),
                    None => None,
                }
            },
            None => None,
        }
    } else {
        None
    }
}

/// The mouse button a payload string names, executable.
fn decode_button(v: &String) -> (r: Option<MouseButton>)
    ensures
        r == button_of(v@),
{
    if str_eq(v.as_str(), "LeftButton") {
        Some(MouseButton::LeftButton)
    } else if str_eq(v.as_str(), "RightButton") {
        Some(MouseButton::RightButton)
    } else if str_eq(v.as_str(), "MiddleButton") {
        Some(MouseButton::MiddleButton)
    } else {
        None
    }
}

} // verus!
