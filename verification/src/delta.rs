//! Exact decimal arithmetic behind mouse deltas: a decimal number from a
//! control frame is rounded half away from zero to a whole pixel count, or
//! found unrepresentable when the result cannot live in a 32-bit coordinate.

use vstd::prelude::*;
use vstd::arithmetic::power::pow;
use crate::input::MouseDelta;

verus! {

/// Value of a digit sequence (digit values, most significant first), base
/// ten.
pub open spec fn val10(ds: Seq<int>) -> int
    decreases ds.len(),
{
    if ds.len() == 0 {
        0
    } else {
        val10(ds.drop_last()) * 10 + ds.last()
    }
}

/// Every entry is a decimal digit value.
pub open spec fn all_digits(ds: Seq<int>) -> bool {
    forall|j: int| 0 <= j < ds.len() ==> 0 <= #[trigger] ds[j] <= 9
}

/// The magnitude the digit string `ds` denotes with `point` digits before
/// the decimal point, rounded half away from zero to a whole number:
/// the denoted value is `val10(ds) * 10^(point - len)`, and for a
/// fractional position the rounding `(2 v + d) / (2 d)` adds one exactly
/// when the fraction reaches one half.
pub open spec fn rounded_mag(ds: Seq<int>, point: int) -> int {
    if point >= ds.len() {
        val10(ds) * pow(10, (point - ds.len()) as nat)
    } else {
        let d = pow(10, (ds.len() - point) as nat);
        (2 * val10(ds) + d) / (2 * d)
    }
}

/// The pixel delta a decimal number denotes: its magnitude rounded half
/// away from zero, negated for a negative number, and unrepresentable
/// whenever the rounded value falls outside the 32-bit coordinate range.
pub open spec fn delta_from(neg: bool, ds: Seq<int>, point: int) -> MouseDelta {
    let m = rounded_mag(ds, point);
    if neg {
        if m <= 2147483648 {
            MouseDelta::Px((-m) as i32)
        } else {
            MouseDelta::Unrepresentable
        }
    } else {
        if m <= 2147483647 {
            MouseDelta::Px(m as i32)
        } else {
            MouseDelta::Unrepresentable
        }
    }
}

/// Splitting a digit string splits its value at the corresponding power.
proof fn lemma_val10_split(ds: Seq<int>, m: int)
    requires
        0 <= m <= ds.len(),
    ensures
        val10(ds) == val10(ds.subrange(0, m)) * pow(10, (ds.len() - m) as nat) + val10(
            ds.subrange(m, ds.len() as int),
        ),
    decreases ds.len() - m,
{
    let len = ds.len() as int;
    if m == len {
        vstd::arithmetic::power::lemma_pow0(10);
        assert(ds.subrange(0, m) =~= ds);
        assert(ds.subrange(m, len) =~= Seq::<int>::empty());
    } else {
        let pre = ds.drop_last();
        lemma_val10_split(pre, m);
        assert(pre.subrange(0, m) =~= ds.subrange(0, m));
        assert(ds.subrange(m, len).drop_last() =~= pre.subrange(m, len - 1));
        assert(ds.subrange(m, len).last() == ds.last());
        let a = val10(ds.subrange(0, m));
        let b = val10(pre.subrange(m, len - 1));
        let p = pow(10, (len - 1 - m) as nat);
        assert(pow(10, (len - m) as nat) == p * 10) by {
            vstd::arithmetic::power::lemma_pow1(10);
            vstd::arithmetic::power::lemma_pow_adds(10, (len - 1 - m) as nat, 1);
        }
        assert(val10(pre) == a * p + b);
        assert(val10(ds) == (a * p + b) * 10 + ds.last());
        assert((a * p + b) * 10 == a * (p * 10) + b * 10) by (nonlinear_arith);
        assert(val10(ds.subrange(m, len)) == b * 10 + ds.last());
    }
}

/// A string of zero digits denotes zero.
proof fn lemma_val10_zeros(ds: Seq<int>)
    requires
        forall|j: int| 0 <= j < ds.len() ==> #[trigger] ds[j] == 0,
    ensures
        val10(ds) == 0,
    decreases ds.len(),
{
    if ds.len() > 0 {
        lemma_val10_zeros(ds.drop_last());
    }
}

/// Digit strings denote values below the power their length names.
proof fn lemma_val10_bound(ds: Seq<int>)
    requires
        all_digits(ds),
    ensures
        0 <= val10(ds) < pow(10, ds.len() as nat),
    decreases ds.len(),
{
    if ds.len() == 0 {
        vstd::arithmetic::power::lemma_pow0(10);
    } else {
        let pre = ds.drop_last();
        lemma_val10_bound(pre);
        let p = pow(10, pre.len() as nat);
        assert(pow(10, ds.len() as nat) == p * 10) by {
            vstd::arithmetic::power::lemma_pow1(10);
            vstd::arithmetic::power::lemma_pow_adds(10, pre.len() as nat, 1);
        }
        assert(val10(pre) * 10 + ds.last() < p * 10) by (nonlinear_arith)
            requires
                val10(pre) < p,
                ds.last() <= 9,
        ;
        assert(0 <= val10(pre) * 10) by (nonlinear_arith)
            requires
                0 <= val10(pre),
        ;
    }
}

/// A digit string with a nonzero lead digit denotes at least the power one
/// below its length.
proof fn lemma_val10_lower(ds: Seq<int>)
    requires
        all_digits(ds),
        ds.len() > 0,
        ds[0] >= 1,
    ensures
        val10(ds) >= pow(10, (ds.len() - 1) as nat),
    decreases ds.len(),
{
    if ds.len() == 1 {
        vstd::arithmetic::power::lemma_pow0(10);
        assert(val10(ds.drop_last()) == 0);
    } else {
        let pre = ds.drop_last();
        assert(all_digits(pre)) by {
            assert(forall|j: int| 0 <= j < pre.len() ==> pre[j] == #[trigger] ds[j]);
        }
        assert(ds.last() >= 0);
        assert(pre[0] == ds[0]);
        lemma_val10_lower(pre);
        assert(val10(ds) == val10(pre) * 10 + ds.last());
        let p = pow(10, (pre.len() - 1) as nat);
        assert(pow(10, (ds.len() - 1) as nat) == p * 10) by {
            vstd::arithmetic::power::lemma_pow1(10);
            vstd::arithmetic::power::lemma_pow_adds(10, (pre.len() - 1) as nat, 1);
        }
        assert(val10(pre) * 10 >= p * 10) by (nonlinear_arith)
            requires
                val10(pre) >= p,
        ;
    }
}

/// Dropping zero lead digits does not change the denoted value.
proof fn lemma_val10_drop_leading_zeros(ds: Seq<int>, k: int)
    requires
        0 <= k <= ds.len(),
        forall|j: int| 0 <= j < k ==> #[trigger] ds[j] == 0,
    ensures
        val10(ds) == val10(ds.subrange(k, ds.len() as int)),
{
    lemma_val10_split(ds, k);
    lemma_val10_zeros(ds.subrange(0, k));
    assert(val10(ds.subrange(0, k)) * pow(10, (ds.len() - k) as nat) == 0) by (nonlinear_arith)
        requires
            val10(ds.subrange(0, k)) == 0,
    ;
}

/// The rounding quotient splits off the integer part: for `0 <= r < 2 d`,
/// `(2 a d + r) / (2 d) == a`.
proof fn lemma_round_quotient(a: int, d: int, r: int)
    requires
        d >= 1,
        a >= 0,
        0 <= r < 2 * d,
    ensures
        (2 * a * d + r) / (2 * d) == a,
{
    assert(2 * a * d + r == a * (2 * d) + r) by (nonlinear_arith);
    vstd::arithmetic::div_mod::lemma_fundamental_div_mod_converse(2 * a * d + r, 2 * d, a, r);
}

/// Count of zero digits at the head of the digit vector.
fn leading_zeros(ds: &Vec<u8>) -> (lz: usize)
    ensures
        lz <= ds@.len(),
        forall|j: int| 0 <= j < lz ==> #[trigger] ds@[j] == 0,
        lz < ds@.len() ==> ds@[lz as int] != 0,
{
    let mut lz: usize = 0;
    while lz < ds.len() && ds[lz] == 0
        invariant
            lz <= ds@.len(),
            forall|j: int| 0 <= j < lz ==> #[trigger] ds@[j] == 0,
        decreases ds@.len() - lz,
    {
        lz += 1;
    }
    lz
}

/// Digit values as mathematical integers.
pub open spec fn digits_int(ds: Seq<u8>) -> Seq<int> {
    ds.map_values(|d: u8| d as int)
}

/// Round a decimal number, given as its digit string, sign, and the count
/// of digits standing before the decimal point, to a whole pixel delta.
/// `point` may lie far outside the digit string: lead zeros or a large
/// exponent only shift it.
pub fn delta_from_parts(neg: bool, ds: &Vec<u8>, point: i128) -> (r: MouseDelta)
    requires
        forall|j: int| 0 <= j < ds@.len() ==> #[trigger] ds@[j] <= 9,
        -0x10000000000000000000000 <= point <= 0x10000000000000000000000,
    ensures
        r == delta_from(neg, digits_int(ds@), point as int),
{
    let ghost dsi = digits_int(ds@);
    let len = ds.len();
    proof {
        assert(all_digits(dsi));
        assert(dsi.len() == len);
    }
    let lz = leading_zeros(ds);
    if lz == len {
        proof {
            lemma_val10_zeros(dsi);
            lemma_zero_mag(dsi, point as int);
        }
        return MouseDelta::Px(0);
    }
    let ghost sig = dsi.subrange(lz as int, len as int);
    proof {
        lemma_val10_drop_leading_zeros(dsi, lz as int);
        lemma_val10_lower(sig);
        lemma_val10_bound(dsi);
    }
    if point - (lz as i128) >= 11 {
        proof {
            lemma_mag_huge(dsi, point as int, lz as int);
        }
        return MouseDelta::Unrepresentable;
    }
    if point - (lz as i128) <= -1 {
        proof {
            lemma_mag_tiny(dsi, point as int, lz as int);
        }
        return MouseDelta::Px(0);
    }
    // 0 <= point - lz <= 10: the integer part has at most eleven
    // significant digits; read them off, then round on the first
    // fractional digit.
    proof {
        assert(0 <= point - (lz as i128) <= 10);
        assert(lz as int <= dsi.len());
        lemma_pow10_small(0);
    }
    let len128: i128 = len as i128;
    let mut n: u64 = 0;
    let mut idx: i128 = lz as i128;
    while idx < point
        invariant
            lz as i128 <= idx <= point,
            point - (lz as i128) <= 10,
            lz <= len,
            len128 == len as i128,
            len == ds@.len(),
            dsi == digits_int(ds@),
            forall|j: int| 0 <= j < ds@.len() ==> #[trigger] ds@[j] <= 9,
            n as int == val10(window(dsi, lz as int, idx as int)),
            n < pow(10, (idx - lz) as nat),
            pow(10, (idx - lz) as nat) <= 0x2540be400,
        decreases point - idx,
    {
        proof {
            lemma_pow10_small((idx - lz) as nat);
            lemma_pow10_small((idx + 1 - lz) as nat);
            assert(pow(10, (idx + 1 - lz) as nat) == pow(10, (idx - lz) as nat) * 10) by {
                vstd::arithmetic::power::lemma_pow1(10);
                vstd::arithmetic::power::lemma_pow_adds(10, (idx - lz) as nat, 1);
            }
        }
        let d: u8 = if idx < len128 {
            ds[idx as usize]
        } else {
            0
        };
        n = n * 10 + (d as u64);
        proof {
            let w0 = window(dsi, lz as int, idx as int);
            let w1 = window(dsi, lz as int, idx + 1);
            assert(w1.drop_last() =~= w0);
            assert(w1.last() == d as int);
        }
        idx += 1;
    }
    let f: u8 = if point < len128 {
        ds[point as usize]
    } else {
        0
    };
    let mag: u64 = if f >= 5 {
        n + 1
    } else {
        n
    };
    proof {
        lemma_mag_window(dsi, point as int, lz as int);
        assert(first_frac_digit(dsi, point as int) == f as int);
    }
    if neg {
        if mag <= 2147483648 {
            let m64: i64 = mag as i64;
            MouseDelta::Px((-m64) as i32)
        } else {
            MouseDelta::Unrepresentable
        }
    } else {
        if mag <= 2147483647 {
            MouseDelta::Px(mag as i32)
        } else {
            MouseDelta::Unrepresentable
        }
    }
}

/// The digits of the integer part, lead zeros dropped, extended by zeros
/// when the point lies beyond the digit string.
pub open spec fn window(ds: Seq<int>, lz: int, point: int) -> Seq<int> {
    Seq::new(
        (if point >= lz {
            point - lz
        } else {
            0
        }) as nat,
        |j: int|
            if lz + j < ds.len() {
                ds[lz + j]
            } else {
                0
            },
    )
}

/// First digit after the decimal point; zero when the string ends first.
pub open spec fn first_frac_digit(ds: Seq<int>, point: int) -> int {
    if 0 <= point < ds.len() {
        ds[point]
    } else {
        0
    }
}

/// A zero digit string rounds to zero wherever the point stands.
proof fn lemma_zero_mag(ds: Seq<int>, point: int)
    requires
        val10(ds) == 0,
    ensures
        rounded_mag(ds, point) == 0,
{
    if point >= ds.len() {
        assert(0 * pow(10, (point - ds.len()) as nat) == 0) by (nonlinear_arith);
    } else {
        let d = pow(10, (ds.len() - point) as nat);
        vstd::arithmetic::power::lemma_pow_positive(10, (ds.len() - point) as nat);
        lemma_round_quotient(0, d, d);
        assert(2 * 0 * d + d == d) by (nonlinear_arith);
    }
}

/// The power of ten just past the window width.
proof fn lemma_pow10_exact()
    ensures
        pow(10, 10) == 0x2540be400,
{
    reveal_with_fuel(pow, 11);
}

/// Powers of ten up to the window width stay small.
proof fn lemma_pow10_small(k: nat)
    requires
        k <= 10,
    ensures
        pow(10, k) <= 0x2540be400,
        pow(10, k) >= 1,
{
    lemma_pow10_exact();
    vstd::arithmetic::power::lemma_pow_positive(10, k);
    if k < 10 {
        vstd::arithmetic::power::lemma_pow_strictly_increases(10, k, 10);
    }
}

/// With eleven or more significant digits before the point, the rounded
/// magnitude exceeds the 32-bit range.
proof fn lemma_mag_huge(ds: Seq<int>, point: int, lz: int)
    requires
        all_digits(ds),
        0 <= lz < ds.len(),
        forall|j: int| 0 <= j < lz ==> #[trigger] ds[j] == 0,
        ds[lz] >= 1,
        point - lz >= 11,
    ensures
        rounded_mag(ds, point) > 2147483648,
{
    let len = ds.len() as int;
    let sig = ds.subrange(lz, len);
    assert(all_digits(sig));
    assert(sig[0] == ds[lz]);
    lemma_val10_drop_leading_zeros(ds, lz);
    lemma_val10_lower(sig);
    lemma_pow10_exact();
    if point >= len {
        // magnitude = val10(ds) * 10^(point - len), val10 >= 10^(len-lz-1)
        let e = (point - len) as nat;
        vstd::arithmetic::power::lemma_pow_positive(10, e);
        let lo = pow(10, (len - lz - 1) as nat);
        vstd::arithmetic::power::lemma_pow_positive(10, (len - lz - 1) as nat);
        assert(val10(ds) * pow(10, e) >= lo * pow(10, e)) by (nonlinear_arith)
            requires
                val10(ds) >= lo,
                pow(10, e) >= 1,
                lo >= 0,
        ;
        assert(lo * pow(10, e) == pow(10, (point - lz - 1) as nat)) by {
            vstd::arithmetic::power::lemma_pow_adds(10, (len - lz - 1) as nat, e);
        }
        assert(pow(10, (point - lz - 1) as nat) >= pow(10, 10)) by {
            if point - lz - 1 > 10 {
                vstd::arithmetic::power::lemma_pow_strictly_increases(
                    10,
                    10,
                    (point - lz - 1) as nat,
                );
            }
        }
    } else {
        // the integer part alone holds at least eleven significant digits
        lemma_val10_split(ds, point);
        let a = val10(ds.subrange(0, point));
        let b = val10(ds.subrange(point, len));
        let d = pow(10, (len - point) as nat);
        vstd::arithmetic::power::lemma_pow_positive(10, (len - point) as nat);
        assert(ds.subrange(0, point).subrange(lz, point) =~= ds.subrange(lz, point));
        assert(all_digits(ds.subrange(lz, point)));
        assert(all_digits(ds.subrange(point, len)));
        assert(ds.subrange(lz, point)[0] == ds[lz]);
        lemma_val10_drop_leading_zeros(ds.subrange(0, point), lz);
        lemma_val10_lower(ds.subrange(lz, point));
        assert(pow(10, (point - lz - 1) as nat) >= pow(10, 10)) by {
            if point - lz - 1 > 10 {
                vstd::arithmetic::power::lemma_pow_strictly_increases(
                    10,
                    10,
                    (point - lz - 1) as nat,
                );
            }
        }
        lemma_val10_bound(ds.subrange(point, len));
        assert(2 * val10(ds) + d >= a * (2 * d)) by (nonlinear_arith)
            requires
                val10(ds) == a * d + b,
                b >= 0,
                d >= 1,
        ;
        vstd::arithmetic::div_mod::lemma_div_is_ordered(
            (2 * d) * a,
            2 * val10(ds) + d,
            2 * d,
        );
        vstd::arithmetic::div_mod::lemma_div_multiples_vanish(a, 2 * d);
        assert((2 * d) * a == a * (2 * d)) by (nonlinear_arith);
        assert(rounded_mag(ds, point) >= a);
    }
}

/// With the point at or left of the first significant digit, the value is
/// below one tenth and rounds to zero.
proof fn lemma_mag_tiny(ds: Seq<int>, point: int, lz: int)
    requires
        all_digits(ds),
        0 <= lz <= ds.len(),
        forall|j: int| 0 <= j < lz ==> #[trigger] ds[j] == 0,
        point <= lz - 1,
    ensures
        rounded_mag(ds, point) == 0,
{
    let len = ds.len() as int;
    let sig = ds.subrange(lz, len);
    assert(all_digits(sig));
    lemma_val10_drop_leading_zeros(ds, lz);
    lemma_val10_bound(sig);
    let d = pow(10, (len - point) as nat);
    vstd::arithmetic::power::lemma_pow_positive(10, (len - point) as nat);
    assert(pow(10, (len - lz + 1) as nat) <= d) by {
        if len - lz + 1 < len - point {
            vstd::arithmetic::power::lemma_pow_strictly_increases(
                10,
                (len - lz + 1) as nat,
                (len - point) as nat,
            );
        }
    }
    assert(pow(10, (len - lz + 1) as nat) == pow(10, (len - lz) as nat) * 10) by {
        vstd::arithmetic::power::lemma_pow1(10);
        vstd::arithmetic::power::lemma_pow_adds(10, (len - lz) as nat, 1);
    }
    assert(2 * val10(ds) + d < 2 * d) by {
        assert(val10(ds) * 2 < pow(10, (len - lz) as nat) * 10) by (nonlinear_arith)
            requires
                val10(ds) < pow(10, (len - lz) as nat),
                pow(10, (len - lz) as nat) >= 1,
        ;
    }
    assert((2 * val10(ds) + d) / (2 * d) == 0) by {
        vstd::arithmetic::div_mod::lemma_basic_div(2 * val10(ds) + d, 2 * d);
    }
}

/// In the representable band, the rounded magnitude is the windowed
/// integer part plus one exactly when the first fractional digit reaches
/// five.
proof fn lemma_mag_window(ds: Seq<int>, point: int, lz: int)
    requires
        all_digits(ds),
        0 <= lz <= ds.len(),
        forall|j: int| 0 <= j < lz ==> #[trigger] ds[j] == 0,
        lz <= point <= lz + 10,
    ensures
        rounded_mag(ds, point) == val10(window(ds, lz, point)) + (if first_frac_digit(ds, point)
            >= 5 {
            1int
        } else {
            0int
        }),
{
    let len = ds.len() as int;
    if point >= len {
        // whole string is integer part; the window appends point - len zeros
        let w = window(ds, lz, point);
        let e = (point - len) as nat;
        assert(w.subrange(0, (len - lz) as int) =~= ds.subrange(lz, len));
        assert(forall|j: int| (len - lz) <= j < w.len() ==> #[trigger] w[j] == 0);
        lemma_val10_split(w, (len - lz) as int);
        lemma_val10_zeros(w.subrange((len - lz) as int, w.len() as int));
        lemma_val10_drop_leading_zeros(ds, lz);
        assert(first_frac_digit(ds, point) == 0);
    } else {
        // split at the point; the window is the integer part without its
        // lead zeros
        lemma_val10_split(ds, point);
        let a = val10(ds.subrange(0, point));
        let b = val10(ds.subrange(point, len));
        let frac = ds.subrange(point, len);
        let d = pow(10, (len - point) as nat);
        vstd::arithmetic::power::lemma_pow_positive(10, (len - point) as nat);
        assert(window(ds, lz, point) =~= ds.subrange(0, point).subrange(lz, point));
        assert(all_digits(ds.subrange(0, point)));
        assert(all_digits(frac));
        lemma_val10_drop_leading_zeros(ds.subrange(0, point), lz);
        lemma_val10_bound(ds.subrange(0, point));
        lemma_val10_bound(frac);
        assert(frac.len() == len - point);
        assert(0 <= b < d);
        // whether the fraction reaches one half turns on its first digit
        let d1 = pow(10, (len - point - 1) as nat);
        assert(d == d1 * 10) by {
            vstd::arithmetic::power::lemma_pow1(10);
            vstd::arithmetic::power::lemma_pow_adds(10, (len - point - 1) as nat, 1);
        }
        assert(frac.drop_first() =~= ds.subrange(point + 1, len));
        lemma_val10_first_split(frac);
        assert(all_digits(frac.drop_first()));
        lemma_val10_bound(frac.drop_first());
        let b1 = val10(frac.drop_first());
        assert(frac.drop_first().len() == len - point - 1);
        assert(b == frac[0] * d1 + b1);
        if frac[0] >= 5 {
            assert(2 * b >= d) by (nonlinear_arith)
                requires
                    b == frac[0] * d1 + b1,
                    frac[0] >= 5,
                    b1 >= 0,
                    d == d1 * 10,
                    d1 >= 1,
            ;
            lemma_round_quotient(a + 1, d, 2 * b - d);
            assert(2 * (a + 1) * d + (2 * b - d) == 2 * (a * d + b) + d) by (nonlinear_arith);
            assert(2 * val10(ds) + d == 2 * (a + 1) * d + (2 * b - d)) by (nonlinear_arith)
                requires
                    val10(ds) == a * d + b,
            ;
            assert(2 * b - d < 2 * d);
        } else {
            assert(2 * b < d) by (nonlinear_arith)
                requires
                    b == frac[0] * d1 + b1,
                    frac[0] <= 4,
                    b1 < d1,
                    d == d1 * 10,
                    d1 >= 1,
            ;
            lemma_round_quotient(a, d, 2 * b + d);
            assert(2 * a * d + (2 * b + d) == 2 * (a * d + b) + d) by (nonlinear_arith);
            assert(2 * val10(ds) + d == 2 * a * d + (2 * b + d)) by (nonlinear_arith)
                requires
                    val10(ds) == a * d + b,
            ;
        }
        assert(first_frac_digit(ds, point) == frac[0]);
    }
}

/// Where some digit is nonzero, a first nonzero digit exists.
proof fn lemma_first_nonzero_from(ds: Seq<int>, j: int)
    requires
        0 <= j < ds.len(),
        ds[j] != 0,
    ensures
        exists|k: int|
            0 <= k < ds.len() && #[trigger] ds[k] != 0 && (forall|m: int|
                0 <= m < k ==> ds[m] == 0),
    decreases j,
{
    if forall|m: int| 0 <= m < j ==> #[trigger] ds[m] == 0 {
        assert(0 <= j < ds.len() && ds[j] != 0 && (forall|m: int| 0 <= m < j ==> ds[m] == 0));
    } else {
        let j2 = choose|m: int| 0 <= m < j && #[trigger] ds[m] != 0;
        lemma_first_nonzero_from(ds, j2);
    }
}

/// Far outside the digit string, only the side the point stands on
/// matters: any two positions at least eleven places past the digits, or
/// any two positions left of all of them, round to the same delta.
pub proof fn lemma_delta_point_saturates(neg: bool, ds: Seq<int>, p1: int, p2: int)
    requires
        all_digits(ds),
        (p1 >= ds.len() + 11 && p2 >= ds.len() + 11) || (p1 <= -1 && p2 <= -1),
    ensures
        delta_from(neg, ds, p1) == delta_from(neg, ds, p2),
{
    if exists|j: int| 0 <= j < ds.len() && #[trigger] ds[j] != 0 {
        let j = choose|j: int| 0 <= j < ds.len() && #[trigger] ds[j] != 0;
        lemma_first_nonzero_from(ds, j);
        let k = choose|k: int|
            0 <= k < ds.len() && #[trigger] ds[k] != 0 && (forall|m: int|
                0 <= m < k ==> ds[m] == 0);
        if p1 <= -1 {
            lemma_mag_tiny(ds, p1, k);
            lemma_mag_tiny(ds, p2, k);
        } else {
            lemma_mag_huge(ds, p1, k);
            lemma_mag_huge(ds, p2, k);
        }
    } else {
        lemma_val10_zeros(ds);
        lemma_zero_mag(ds, p1);
        lemma_zero_mag(ds, p2);
    }
}

/// A clamped exponent rounds as the exact one does: once the point is
/// pushed past the saturation bound, in either direction, only its side
/// matters.
pub proof fn lemma_point_clamped(
    neg: bool,
    ds: Seq<int>,
    ip_len: int,
    eneg: bool,
    ev: int,
    t: int,
)
    requires
        all_digits(ds),
        0 <= ip_len,
        ip_len + ds.len() + 12 < 100000000000000000000,
        (t < 100000000000000000000 && ev == t) || (t >= 100000000000000000000 && ev
            == 100000000000000000000),
        0 <= ev,
    ensures
        delta_from(
            neg,
            ds,
            ip_len + (if eneg {
                -ev
            } else {
                ev
            }),
        ) == delta_from(
            neg,
            ds,
            ip_len + (if eneg {
                -t
            } else {
                t
            }),
        ),
{
    if ev != t {
        if eneg {
            lemma_delta_point_saturates(neg, ds, ip_len - ev, ip_len - t);
        } else {
            lemma_delta_point_saturates(neg, ds, ip_len + ev, ip_len + t);
        }
    }
}

/// Splitting a digit string after its first digit.
proof fn lemma_val10_first_split(ds: Seq<int>)
    requires
        ds.len() >= 1,
    ensures
        val10(ds) == ds[0] * pow(10, (ds.len() - 1) as nat) + val10(ds.drop_first()),
{
    lemma_val10_split(ds, 1);
    assert(ds.subrange(1, ds.len() as int) =~= ds.drop_first());
    assert(val10(ds.subrange(0, 1)) == ds[0]) by {
        assert(ds.subrange(0, 1).drop_last() =~= Seq::<int>::empty());
        assert(val10(Seq::<int>::empty()) == 0);
        assert(ds.subrange(0, 1).last() == ds[0]);
    }
}

} // verus!
