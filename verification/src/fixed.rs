//! Integer helpers shared by the contracts: Rust's truncating division and
//! saturating arithmetic on `i128`, stated over mathematical integers.
use vstd::prelude::*;

verus! {

/// `x` is representable as an `i128`.
pub open spec fn fits_i128(x: int) -> bool {
    i128::MIN <= x <= i128::MAX
}

/// Absolute value.
pub open spec fn abs(x: int) -> int {
    if x < 0 { -x } else { x }
}

/// Rust's signed division, which rounds toward zero.
pub open spec fn tdiv(x: int, d: int) -> int {
    if d == 0 {
        0
    } else if x >= 0 {
        if d > 0 { x / d } else { -(x / -d) }
    } else {
        if d > 0 { -((-x) / d) } else { (-x) / (-d) }
    }
}

/// The nearest `i128` to `x`.
pub open spec fn clamp_i128(x: int) -> int {
    if x > i128::MAX { i128::MAX as int } else if x < i128::MIN { i128::MIN as int } else { x }
}

proof fn lemma_tdiv_bounded(x: int, d: int)
    requires
        d != 0,
    ensures
        d > 0 ==> -(abs(x)) <= tdiv(x, d) <= abs(x),
        d > 0 && x >= 0 ==> 0 <= tdiv(x, d) <= x,
        d > 0 && x <= 0 ==> x <= tdiv(x, d) <= 0,
        d < 0 ==> -(abs(x)) <= tdiv(x, d) <= abs(x),
{
    if x >= 0 {
        if d > 0 {
            assert(0 <= x / d <= x) by (nonlinear_arith) requires x >= 0, d > 0;
        } else {
            assert(0 <= x / (-d) <= x) by (nonlinear_arith) requires x >= 0, -d > 0;
        }
    } else {
        if d > 0 {
            assert(0 <= (-x) / d <= -x) by (nonlinear_arith) requires -x > 0, d > 0;
        } else {
            assert(0 <= (-x) / (-d) <= -x) by (nonlinear_arith) requires -x > 0, -d > 0;
        }
    }
}

/// `x / d` with Rust's rounding toward zero.
pub fn div_trunc(x: i128, d: i128) -> (r: i128)
    requires
        d != 0,
        !(x == i128::MIN && d == -1),
    ensures
        r == tdiv(x as int, d as int),
{
    proof {
        lemma_tdiv_bounded(x as int, d as int);
        if d < 0 && x == i128::MIN {
            assert((-(x as int)) / (-(d as int)) <= (-(x as int)) / 2) by (nonlinear_arith)
                requires -(d as int) >= 2, -(x as int) > 0;
        }
    }
    match x.checked_div(d) {
        Some(v) => v,
        None => 0,
    }
}

/// `x + y`, saturating at the bounds of `i128`.
pub fn sat_add(x: i128, y: i128) -> (r: i128)
    ensures
        r == clamp_i128(x + y),
{
    match x.checked_add(y) {
        Some(v) => v,
        None => if y > 0 { i128::MAX } else { i128::MIN },
    }
}

/// `x - y`, saturating at the bounds of `i128`.
pub fn sat_sub(x: i128, y: i128) -> (r: i128)
    ensures
        r == clamp_i128(x - y),
{
    match x.checked_sub(y) {
        Some(v) => v,
        None => if y < 0 { i128::MAX } else { i128::MIN },
    }
}

/// `x * y`, saturating at the bounds of `i128`.
pub fn sat_mul(x: i128, y: i128) -> (r: i128)
    ensures
        r == clamp_i128(x * y),
{
    match x.checked_mul(y) {
        Some(v) => v,
        None => {
            if (x > 0) == (y > 0) {
                proof {
                    if x > 0 {
                        assert(x * y > 0) by (nonlinear_arith) requires x > 0, y > 0;
                    } else {
                        assert(x * y >= 0) by (nonlinear_arith) requires x <= 0, y <= 0;
                    }
                }
                i128::MAX
            } else {
                proof {
                    if x > 0 {
                        assert(x * y <= 0) by (nonlinear_arith) requires x > 0, y <= 0;
                    } else {
                        assert(x * y <= 0) by (nonlinear_arith) requires x <= 0, y > 0;
                    }
                }
                i128::MIN
            }
        },
    }
}

/// The smaller of two values.
pub fn min_i128(a: i128, b: i128) -> (r: i128)
    ensures
        r == if a <= b { a } else { b },
{
    if a <= b { a } else { b }
}

/// The larger of two values.
pub fn max_i128(a: i128, b: i128) -> (r: i128)
    ensures
        r == if a >= b { a } else { b },
{
    if a >= b { a } else { b }
}


/// Rust's `checked_add` on `i128`.
pub open spec fn cadd(a: int, b: int) -> Option<i128> {
    if fits_i128(a + b) { Some((a + b) as i128) } else { None }
}

/// Rust's `checked_sub` on `i128`.
pub open spec fn csub(a: int, b: int) -> Option<i128> {
    if fits_i128(a - b) { Some((a - b) as i128) } else { None }
}

/// Rust's `checked_mul` on `i128`.
pub open spec fn cmul(a: int, b: int) -> Option<i128> {
    if fits_i128(a * b) { Some((a * b) as i128) } else { None }
}

/// Rust's `checked_div` on `i128`: `None` for a zero divisor or overflow.
pub open spec fn cdiv(a: int, b: int) -> Option<i128> {
    if b == 0 || !fits_i128(tdiv(a, b)) { None } else { Some(tdiv(a, b) as i128) }
}

/// `a / b` on `i128`, or `None` where Rust's `checked_div` gives `None`.
pub fn div_checked(a: i128, b: i128) -> (r: Option<i128>)
    ensures
        r == cdiv(a as int, b as int),
{
    a.checked_div(b)
}


/// `floor(a * b / d)` for `0 <= a <= d` and `0 <= b`, exact although
/// `a * b` may not fit in 128 bits; the result is at most `b`.
pub fn mul_div_floor(a: i128, b: i128, d: i128) -> (r: i128)
    requires
        0 <= a <= d,
        0 <= b,
        d > 0,
    ensures
        r == (a as int * b as int) / (d as int),
        0 <= r <= b,
{
    let au = a as u128;
    let bu = b as u128;
    let du = d as u128;
    let mut q: u128 = 0;
    let mut rem: u128 = 0;
    let mut shift: u128 = 0x8000_0000_0000_0000_0000_0000_0000_0000;
    let ghost mut k: nat = 127;
    proof {
        vstd::arithmetic::power2::lemma2_to64();
        vstd::arithmetic::power2::lemma2_to64_rest();
        vstd::arithmetic::power2::lemma_pow2_adds(64, 63);
        assert(vstd::arithmetic::power2::pow2(64) == 0x1_0000_0000_0000_0000);
        assert(vstd::arithmetic::power2::pow2(63) == 0x8000_0000_0000_0000);
        assert(vstd::arithmetic::power2::pow2(127)
            == vstd::arithmetic::power2::pow2(64) * vstd::arithmetic::power2::pow2(63));
        assert(0x1_0000_0000_0000_0000int * 0x8000_0000_0000_0000int
            == 0x8000_0000_0000_0000_0000_0000_0000_0000int) by (nonlinear_arith);
        assert(bu / shift == 0);
    }
    while shift > 1
        invariant
            0 <= au <= du,
            du > 0,
            du < 0x8000_0000_0000_0000_0000_0000_0000_0000,
            bu < 0x8000_0000_0000_0000_0000_0000_0000_0000,
            shift == vstd::arithmetic::power2::pow2(k),
            shift >= 1,
            rem < du,
            q * du + rem == au * (bu / shift),
            q <= bu / shift,
        decreases shift,
    {
        proof {
            if k == 0 {
                vstd::arithmetic::power2::lemma2_to64();
            }
            vstd::arithmetic::power2::lemma_pow2_unfold(k);
        }
        let next = shift / 2;
        let prefix = bu / next;
        let bit = prefix % 2;
        proof {
            assert(shift == 2 * next);
            vstd::arithmetic::div_mod::lemma_div_denominator(bu as int, next as int, 2);
            assert(prefix == 2 * (bu / shift) + bit);
        }
        let mut r2 = rem * 2;
        let mut q2 = q * 2;
        if r2 >= du {
            r2 = r2 - du;
            q2 = q2 + 1;
        }
        assert(q2 * du + r2 == au * (2 * (bu / shift))) by (nonlinear_arith)
            requires
                q * du + rem == au * (bu / shift),
                (rem * 2 >= du ==> q2 == q * 2 + 1 && r2 == rem * 2 - du),
                (rem * 2 < du ==> q2 == q * 2 && r2 == rem * 2);
        let ghost q_mid = q2;
        let ghost r_mid = r2;
        if bit == 1 {
            r2 = r2 + au;
            if r2 >= du {
                r2 = r2 - du;
                q2 = q2 + 1;
                assert(q2 * du == q_mid * du + du) by (nonlinear_arith)
                    requires q2 == q_mid + 1;
            }
        }
        assert(q2 * du + r2 == au * prefix) by (nonlinear_arith)
            requires
                q_mid * du + r_mid == au * (2 * (bu / shift)),
                prefix == 2 * (bu / shift) + bit,
                bit == 0 ==> q2 == q_mid && r2 == r_mid,
                bit == 1 ==> q2 * du + r2 == q_mid * du + r_mid + au,
                bit == 0 || bit == 1;
        assert(q2 <= prefix) by (nonlinear_arith)
            requires
                q2 * du + r2 == au * prefix,
                au <= du,
                du > 0,
                r2 >= 0,
                prefix >= 0;
        q = q2;
        rem = r2;
        shift = next;
        proof {
            k = (k - 1) as nat;
        }
    }
    proof {
        assert(shift == 1);
        assert(bu / shift == bu);
        vstd::arithmetic::div_mod::lemma_fundamental_div_mod_converse(
            au * bu, du as int, q as int, rem as int);
    }
    q as i128
}

/// `floor(a * b / d)` for non-negative `a`, `b` and positive `d`, or `None`
/// where that quotient exceeds `i128::MAX`; exact although `a * b` may need
/// 256 bits.
pub fn mul_div_wide(a: i128, b: i128, d: i128) -> (r: Option<i128>)
    requires
        0 <= a,
        0 <= b,
        d > 0,
    ensures
        r == (if fits_i128((a as int * b as int) / (d as int)) {
            Some(((a as int * b as int) / (d as int)) as i128)
        } else {
            None
        }),
{
    let au = a as u128;
    let du = d as u128;
    let qa = (au / du) as i128;
    let ra = (au % du) as i128;
    let low = mul_div_floor(ra, b, d);
    let ghost ai = a as int;
    let ghost bi = b as int;
    let ghost di = d as int;
    let ghost t = ra as int * bi - low as int * di;
    proof {
        vstd::arithmetic::div_mod::lemma_fundamental_div_mod(au as int, du as int);
        assert(ai == qa as int * di + ra as int);
        vstd::arithmetic::div_mod::lemma_fundamental_div_mod(ra as int * bi, di);
        assert(t == (ra as int * bi) % di) by (nonlinear_arith)
            requires
                ra as int * bi == di * ((ra as int * bi) / di) + (ra as int * bi) % di,
                low as int == (ra as int * bi) / di,
                t == ra as int * bi - low as int * di;
        assert(0 <= t < di);
        assert(ai * bi == (qa as int * bi + low as int) * di + t) by (nonlinear_arith)
            requires
                ai == qa as int * di + ra as int,
                t == ra as int * bi - low as int * di;
        vstd::arithmetic::div_mod::lemma_fundamental_div_mod_converse(
            ai * bi, di, qa as int * bi + low as int, t);
        assert(qa >= 0 && bi >= 0 && low >= 0);
        assert(qa as int * bi >= 0) by (nonlinear_arith) requires qa >= 0, bi >= 0;
    }
    match qa.checked_mul(b) {
        None => None,
        Some(hi) => hi.checked_add(low),
    }
}

/// A multiple of one million is never `i128::MIN`.
pub proof fn lemma_million_multiple_not_min(a: int)
    ensures
        a * 1_000_000 != i128::MIN,
{
    if a * 1_000_000 == i128::MIN {
        assert((a * 15625) * 64 == -170141183460469231731687303715884105728int) by (nonlinear_arith)
            requires a * 1_000_000 == -170141183460469231731687303715884105728int;
        assert(a * 15625 == -2658455991569831745807614120560689152int);
        assert(false) by (nonlinear_arith)
            requires a * 15625 == -2658455991569831745807614120560689152int;
    }
}

} // verus!
