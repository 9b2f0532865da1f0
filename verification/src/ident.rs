//! Textual forms of device identifiers: the hyphenated hexadecimal identifier
//! a device is addressed by, and the short decimal pairing code shown to the
//! human operator.

use vstd::prelude::*;
use vstd::arithmetic::power::pow;
use crate::strutil::{chars_of, push_char};

verus! {

/// Character for one digit value, lower case, up to base sixteen.
pub open spec fn digit_char(d: int) -> char {
    if d == 0 {
        '0'
    } else if d == 1 {
        '1'
    } else if d == 2 {
        '2'
    } else if d == 3 {
        '3'
    } else if d == 4 {
        '4'
    } else if d == 5 {
        '5'
    } else if d == 6 {
        '6'
    } else if d == 7 {
        '7'
    } else if d == 8 {
        '8'
    } else if d == 9 {
        '9'
    } else if d == 10 {
        'a'
    } else if d == 11 {
        'b'
    } else if d == 12 {
        'c'
    } else if d == 13 {
        'd'
    } else if d == 14 {
        'e'
    } else if d == 15 {
        'f'
    } else {
        '?'
    }
}

/// Value of one digit character, either case; negative when no digit.
pub open spec fn digit_val(c: char) -> int {
    if c == '0' {
        0
    } else if c == '1' {
        1
    } else if c == '2' {
        2
    } else if c == '3' {
        3
    } else if c == '4' {
        4
    } else if c == '5' {
        5
    } else if c == '6' {
        6
    } else if c == '7' {
        7
    } else if c == '8' {
        8
    } else if c == '9' {
        9
    } else if c == 'a' || c == 'A' {
        10
    } else if c == 'b' || c == 'B' {
        11
    } else if c == 'c' || c == 'C' {
        12
    } else if c == 'd' || c == 'D' {
        13
    } else if c == 'e' || c == 'E' {
        14
    } else if c == 'f' || c == 'F' {
        15
    } else {
        -1
    }
}

/// The `n` least significant digits of `v` in the given base, least
/// significant first.
pub open spec fn digits_le(v: int, base: int, n: nat) -> Seq<char>
    decreases n,
{
    if n == 0 {
        Seq::empty()
    } else {
        seq![digit_char(v % base)] + digits_le(v / base, base, (n - 1) as nat)
    }
}

/// Value of a digit string read most significant first.
pub open spec fn val_be(s: Seq<char>, base: int) -> int
    decreases s.len(),
{
    if s.len() == 0 {
        0
    } else {
        val_be(s.drop_last(), base) * base + digit_val(s.last())
    }
}

/// Every digit `digits_le` writes reads back as its value.
proof fn lemma_digit_roundtrip(d: int)
    requires
        0 <= d < 16,
    ensures
        digit_val(digit_char(d)) == d,
{
}

/// Writing `v` as `n` digits and reading them back most significant first
/// recovers `v`, for any `v` the digits can hold.
pub proof fn lemma_digits_value(v: int, base: int, n: nat)
    requires
        2 <= base <= 16,
        0 <= v < pow(base, n),
    ensures
        val_be(digits_le(v, base, n).reverse(), base) == v,
        digits_le(v, base, n).len() == n,
    decreases n,
{
    if n == 0 {
        assert(pow(base, 0) == 1) by {
            vstd::arithmetic::power::lemma_pow0(base);
        }
        assert(digits_le(v, base, n).reverse() =~= Seq::<char>::empty());
    } else {
        let d0 = v % base;
        let q = v / base;
        assert(pow(base, n) == base * pow(base, (n - 1) as nat)) by {
            vstd::arithmetic::power::lemma_pow1(base);
            vstd::arithmetic::power::lemma_pow_adds(base, 1, (n - 1) as nat);
        }
        assert(0 <= q < pow(base, (n - 1) as nat)) by {
            vstd::arithmetic::div_mod::lemma_fundamental_div_mod(v, base);
            assert(q * base < pow(base, (n - 1) as nat) * base) by (nonlinear_arith)
                requires
                    q * base <= v,
                    v < pow(base, (n - 1) as nat) * base,
            ;
            assert(q < pow(base, (n - 1) as nat)) by (nonlinear_arith)
                requires
                    q * base < pow(base, (n - 1) as nat) * base,
                    base > 0,
            ;
        }
        lemma_digits_value(q, base, (n - 1) as nat);
        let rest = digits_le(q, base, (n - 1) as nat);
        let whole = digits_le(v, base, n);
        assert(whole == seq![digit_char(d0)] + rest);
        assert(whole.reverse() =~= rest.reverse().push(digit_char(d0)));
        assert(whole.reverse().drop_last() =~= rest.reverse());
        lemma_digit_roundtrip(d0);
        assert(val_be(whole.reverse(), base) == q * base + d0);
        vstd::arithmetic::div_mod::lemma_fundamental_div_mod(v, base);
    }
}

/// All digits written are genuine digits of the base.
pub proof fn lemma_digits_are_digits(v: int, base: int, n: nat)
    requires
        2 <= base <= 16,
        0 <= v,
    ensures
        forall|i: int|
            0 <= i < n ==> 0 <= digit_val(#[trigger] digits_le(v, base, n)[i]) < base,
        digits_le(v, base, n).len() == n,
    decreases n,
{
    if n > 0 {
        let q = v / base;
        vstd::arithmetic::div_mod::lemma_div_pos_is_pos(v, base);
        lemma_digits_are_digits(q, base, (n - 1) as nat);
        lemma_digit_roundtrip(v % base);
        assert forall|i: int| 0 <= i < n implies 0 <= digit_val(
            #[trigger] digits_le(v, base, n)[i],
        ) < base by {
            if i > 0 {
                assert(digits_le(v, base, n)[i] == digits_le(q, base, (n - 1) as nat)[i - 1]);
            }
        }
    }
}

/// A string of genuine digits reads back to a value the digit count bounds.
pub proof fn lemma_val_be_bound(s: Seq<char>, base: int)
    requires
        2 <= base <= 16,
        forall|i: int| 0 <= i < s.len() ==> 0 <= digit_val(#[trigger] s[i]) < base,
    ensures
        0 <= val_be(s, base) < pow(base, s.len() as nat),
    decreases s.len(),
{
    if s.len() == 0 {
        vstd::arithmetic::power::lemma_pow0(base);
    } else {
        let pre = s.drop_last();
        lemma_val_be_bound(pre, base);
        let p = pow(base, pre.len() as nat);
        assert(pow(base, s.len() as nat) == p * base) by {
            vstd::arithmetic::power::lemma_pow1(base);
            vstd::arithmetic::power::lemma_pow_adds(base, pre.len() as nat, 1);
        }
        assert(val_be(pre, base) * base + digit_val(s.last()) < p * base) by (nonlinear_arith)
            requires
                val_be(pre, base) < p,
                0 <= digit_val(s.last()) < base,
                base >= 2,
        ;
        assert(0 <= val_be(pre, base) * base) by (nonlinear_arith)
            requires
                0 <= val_be(pre, base),
                base >= 2,
        ;
    }
}

/// Positions of the four hyphens in the canonical identifier text.
pub open spec fn is_hyphen_pos(i: int) -> bool {
    i == 8 || i == 13 || i == 18 || i == 23
}

/// Character position of hexadecimal digit `h` in the canonical text.
pub open spec fn char_pos(h: int) -> int {
    if h < 8 {
        h
    } else if h < 12 {
        h + 1
    } else if h < 16 {
        h + 2
    } else if h < 20 {
        h + 3
    } else {
        h + 4
    }
}

/// Hexadecimal digit index of character position `i` (meaningful when `i` is
/// no hyphen position).
pub open spec fn hex_index(i: int) -> int {
    if i < 8 {
        i
    } else if i < 13 {
        i - 1
    } else if i < 18 {
        i - 2
    } else if i < 23 {
        i - 3
    } else {
        i - 4
    }
}

/// Lay 32 hexadecimal digits out in the canonical 8-4-4-4-12 grouping.
pub open spec fn with_hyphens(ds: Seq<char>) -> Seq<char> {
    Seq::new(
        36,
        |i: int|
            if is_hyphen_pos(i) {
                '-'
            } else {
                ds[hex_index(i)]
            },
    )
}

/// Canonical text of a 128-bit device identifier: 32 lower-case hexadecimal
/// digits, most significant first, grouped 8-4-4-4-12 by hyphens.
pub open spec fn uuid_chars(u: u128) -> Seq<char> {
    with_hyphens(digits_le(u as int, 16, 32).reverse())
}

/// The identifier a canonical (or upper-case) identifier text denotes:
/// 36 characters, hyphens exactly at their four canonical positions, all
/// other positions hexadecimal digits.
pub open spec fn parse_uuid_chars(s: Seq<char>) -> Option<u128> {
    if s.len() == 36 && (forall|i: int| 0 <= i < 36 && is_hyphen_pos(i) ==> s[i] == '-') && (
    forall|h: int| 0 <= h < 32 ==> 0 <= digit_val(#[trigger] s[char_pos(h)]) < 16) {
        Some(val_be(Seq::new(32, |h: int| s[char_pos(h)]), 16) as u128)
    } else {
        None
    }
}

/// Exec form of `digit_char`.
fn digit_char_exec(d: u8) -> (c: char)
    requires
        d < 16,
    ensures
        c == digit_char(d as int),
{
    match d {
        0 => '0',
        1 => '1',
        2 => '2',
        3 => '3',
        4 => '4',
        5 => '5',
        6 => '6',
        7 => '7',
        8 => '8',
        9 => '9',
        10 => 'a',
        11 => 'b',
        12 => 'c',
        13 => 'd',
        14 => 'e',
        _ => 'f',
    }
}

/// Exec form of `digit_val`.
pub(crate) fn digit_val_exec(c: char) -> (r: Option<u8>)
    ensures
        r is Some <==> digit_val(c) >= 0,
        r is Some ==> r->Some_0 == digit_val(c),
{
    match c {
        '0' => Some(0),
        '1' => Some(1),
        '2' => Some(2),
        '3' => Some(3),
        '4' => Some(4),
        '5' => Some(5),
        '6' => Some(6),
        '7' => Some(7),
        '8' => Some(8),
        '9' => Some(9),
        'a' | 'A' => Some(10),
        'b' | 'B' => Some(11),
        'c' | 'C' => Some(12),
        'd' | 'D' => Some(13),
        'e' | 'E' => Some(14),
        'f' | 'F' => Some(15),
        _ => None,
    }
}

/// The 32 hexadecimal digits of `u`, least significant first.
fn hex_digits_of(u: u128) -> (ds: Vec<char>)
    ensures
        ds@ == digits_le(u as int, 16, 32),
        ds@.len() == 32,
{
    let mut ds: Vec<char> = Vec::new();
    let mut x: u128 = u;
    let mut k: usize = 0;
    while k < 32
        invariant
            k <= 32,
            ds@.len() == k,
            digits_le(u as int, 16, 32) == ds@ + digits_le(x as int, 16, (32 - k) as nat),
        decreases 32 - k,
    {
        let d: u8 = (x % 16) as u8;
        ds.push(digit_char_exec(d));
        proof {
            assert(digits_le(x as int, 16, (32 - k) as nat) == seq![digit_char(x as int % 16)]
                + digits_le(x as int / 16, 16, (32 - (k + 1)) as nat));
            assert(ds@.push(digit_char(d as int)) + digits_le(
                x as int / 16,
                16,
                (32 - (k + 1)) as nat,
            ) =~= ds@ + digits_le(x as int, 16, (32 - k) as nat));
        }
        x = x / 16;
        k += 1;
    }
    proof {
        assert(ds@ + digits_le(x as int, 16, 0) =~= ds@);
    }
    ds
}

/// Canonical text of a device identifier.
pub fn uuid_text(u: u128) -> (r: String)
    ensures
        r@ == uuid_chars(u),
        r@.len() == 36,
{
    let ds = hex_digits_of(u);
    let mut r = String::new();
    let mut i: usize = 0;
    while i < 36
        invariant
            i <= 36,
            ds@ == digits_le(u as int, 16, 32),
            ds@.len() == 32,
            r@ == uuid_chars(u).subrange(0, i as int),
        decreases 36 - i,
    {
        if i == 8 || i == 13 || i == 18 || i == 23 {
            push_char(&mut r, '-');
        } else {
            let h: usize = if i < 8 {
                i
            } else if i < 13 {
                i - 1
            } else if i < 18 {
                i - 2
            } else if i < 23 {
                i - 3
            } else {
                i - 4
            };
            proof {
                assert(ds@.reverse().len() == 32);
                assert(uuid_chars(u)[i as int] == ds@.reverse()[hex_index(i as int)]);
                assert(ds@.reverse()[h as int] == ds@[31 - h]);
            }
            push_char(&mut r, ds[31 - h]);
        }
        i += 1;
        proof {
            assert(r@ =~= uuid_chars(u).subrange(0, i as int));
        }
    }
    proof {
        assert(r@ =~= uuid_chars(u));
    }
    r
}

/// Read an identifier out of its hyphenated text.
pub fn parse_uuid_vec(s: &Vec<char>) -> (r: Option<u128>)
    ensures
        r == parse_uuid_chars(s@),
{
    if s.len() != 36 {
        return None;
    }
    if !(s[8] == '-' && s[13] == '-' && s[18] == '-' && s[23] == '-') {
        proof {
            assert(is_hyphen_pos(8) && is_hyphen_pos(13) && is_hyphen_pos(18) && is_hyphen_pos(
                23,
            ));
        }
        return None;
    }
    let ghost target = Seq::new(32, |h: int| s@[char_pos(h)]);
    let mut acc: u128 = 0;
    let mut h: usize = 0;
    proof {
        vstd::arithmetic::power::lemma_pow0(16);
        assert(target.subrange(0, 0) =~= Seq::<char>::empty());
    }
    while h < 32
        invariant
            h <= 32,
            s@.len() == 36,
            target == Seq::new(32, |hh: int| s@[char_pos(hh)]),
            forall|hh: int| 0 <= hh < h ==> 0 <= digit_val(#[trigger] s@[char_pos(hh)]) < 16,
            acc as int == val_be(target.subrange(0, h as int), 16),
            acc < pow(16, h as nat),
        decreases 32 - h,
    {
        let pos: usize = if h < 8 {
            h
        } else if h < 12 {
            h + 1
        } else if h < 16 {
            h + 2
        } else {
            if h < 20 {
                h + 3
            } else {
                h + 4
            }
        };
        proof {
            assert(pos as int == char_pos(h as int));
        }
        let c = s[pos];
        match digit_val_exec(c) {
            Some(d) => {
                proof {
                    lemma_pow16_bounds(h as nat);
                    lemma_pow16_bounds((h + 1) as nat);
                    assert(pow(16, (h + 1) as nat) == 16 * pow(16, h as nat)) by {
                        vstd::arithmetic::power::lemma_pow1(16);
                        vstd::arithmetic::power::lemma_pow_adds(16, 1, h as nat);
                    }
                }
                acc = acc * 16 + (d as u128);
                proof {
                    let pre = target.subrange(0, h as int);
                    let ext = target.subrange(0, h + 1);
                    assert(ext.drop_last() =~= pre);
                    assert(ext.last() == s@[char_pos(h as int)]);
                }
                h += 1;
            },
            None => {
                proof {
                    assert(digit_val(s@[char_pos(h as int)]) < 0);
                }
                return None;
            },
        }
    }
    proof {
        assert(target.subrange(0, 32) =~= target);
        lemma_val_be_bound(target, 16);
        assert(parse_uuid_chars(s@) == Some(acc));
    }
    Some(acc)
}

/// Read an identifier out of a string slice holding its hyphenated text.
pub fn parse_uuid(s: &str) -> (r: Option<u128>)
    ensures
        r == parse_uuid_chars(s@),
{
    let v = chars_of(s);
    parse_uuid_vec(&v)
}

/// Powers of sixteen stay within the identifier's 128 bits.
proof fn lemma_pow16_bounds(h: nat)
    requires
        h <= 32,
    ensures
        pow(16, h) <= pow(16, 32),
        pow(16, 32) == 0x100000000000000000000000000000000,
    decreases 32 - h,
{
    assert(pow(16, 32) == 0x100000000000000000000000000000000) by {
        vstd::arithmetic::power::lemma_pow0(16);
        reveal_with_fuel(pow, 33);
    }
    if h < 32 {
        vstd::arithmetic::power::lemma_pow_strictly_increases(16, h, 32);
    }
}

/// Formatting an identifier and reading the text back yields the identifier;
/// the canonical text always parses.
pub proof fn lemma_uuid_text_roundtrip(u: u128)
    ensures
        parse_uuid_chars(uuid_chars(u)) == Some(u),
{
    lemma_pow16_bounds(32);
    lemma_digits_value(u as int, 16, 32);
    lemma_digits_are_digits(u as int, 16, 32);
    let ds = digits_le(u as int, 16, 32);
    let rev = ds.reverse();
    let s = with_hyphens(rev);
    assert forall|i: int| 0 <= i < 36 && is_hyphen_pos(i) implies s[i] == '-' by {}
    assert forall|h: int| 0 <= h < 32 implies 0 <= digit_val(#[trigger] s[char_pos(h)]) < 16 by {
        assert(s[char_pos(h)] == rev[h]);
        assert(rev[h] == ds[31 - h]);
    }
    assert(Seq::new(32, |h: int| s[char_pos(h)]) =~= rev);
    assert(val_be(rev, 16) == u as int);
}

/// The eight-digit decimal pairing code derived from `bits`: the low eight
/// decimal digits, zero-padded, most significant first.
pub open spec fn code_chars(bits: u128) -> Seq<char> {
    digits_le((bits as int) % 100000000, 10, 8).reverse()
}

/// Format the human-entry pairing code for a fresh registration.
pub fn format_pairing_code(bits: u128) -> (r: String)
    ensures
        r@ == code_chars(bits),
        r@.len() == 8,
        forall|i: int| 0 <= i < 8 ==> 0 <= digit_val(#[trigger] r@[i]) <= 9,
{
    let low: u128 = bits % 100000000;
    let mut ds: Vec<char> = Vec::new();
    let mut x: u128 = low;
    let mut k: usize = 0;
    while k < 8
        invariant
            k <= 8,
            ds@.len() == k,
            digits_le(low as int, 10, 8) == ds@ + digits_le(x as int, 10, (8 - k) as nat),
        decreases 8 - k,
    {
        let d: u8 = (x % 10) as u8;
        ds.push(digit_char_exec(d));
        proof {
            assert(digits_le(x as int, 10, (8 - k) as nat) == seq![digit_char(x as int % 10)]
                + digits_le(x as int / 10, 10, (8 - (k + 1)) as nat));
            assert(ds@.push(digit_char(d as int)) + digits_le(
                x as int / 10,
                10,
                (8 - (k + 1)) as nat,
            ) =~= ds@ + digits_le(x as int, 10, (8 - k) as nat));
        }
        x = x / 10;
        k += 1;
    }
    proof {
        assert(ds@ + digits_le(x as int, 10, 0) =~= ds@);
        assert(ds@ == digits_le(low as int, 10, 8));
        lemma_digits_are_digits(low as int, 10, 8);
    }
    let mut r = String::new();
    let mut i: usize = 0;
    while i < 8
        invariant
            i <= 8,
            ds@ == digits_le(low as int, 10, 8),
            ds@.len() == 8,
            low as int == (bits as int) % 100000000,
            r@ == code_chars(bits).subrange(0, i as int),
        decreases 8 - i,
    {
        proof {
            assert(code_chars(bits)[i as int] == ds@[7 - i]);
        }
        push_char(&mut r, ds[7 - i]);
        i += 1;
        proof {
            assert(r@ =~= code_chars(bits).subrange(0, i as int));
        }
    }
    proof {
        assert(r@ =~= code_chars(bits));
        lemma_digits_are_digits(low as int, 10, 8);
        assert forall|i2: int| 0 <= i2 < 8 implies 0 <= digit_val(#[trigger] r@[i2]) <= 9 by {
            assert(r@[i2] == ds@[7 - i2]);
        }
    }
    r
}

} // verus!
