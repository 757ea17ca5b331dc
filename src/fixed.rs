//! Fixed-point arithmetic: every length is held as an integer count of
//! millionths of a pixel.
use vstd::prelude::*;

verus! {

/// Fixed-point units in one pixel.
pub const SCALE: i64 = 1_000_000;

/// Integer division of `a` by a positive `b`, rounded towards zero.
pub open spec fn div_trunc(a: int, b: int) -> int {
    if a >= 0 {
        a / b
    } else {
        -((-a) / b)
    }
}

/// `a * b / c` rounded towards zero, computed without intermediate overflow.
pub(crate) fn mul_div(a: i64, b: i64, c: i64) -> (r: i64)
    requires
        c > 0,
        -0x7fff_ffff_ffff_ffff <= div_trunc(a * b, c as int) <= 0x7fff_ffff_ffff_ffff,
    ensures
        r == div_trunc(a * b, c as int),
{
    proof {
        assert(-0x8000_0000_0000_0000 * 0x8000_0000_0000_0000 <= a * b <= 0x8000_0000_0000_0000
            * 0x8000_0000_0000_0000) by (nonlinear_arith)
            requires
                -0x8000_0000_0000_0000 <= a <= 0x7fff_ffff_ffff_ffff,
                -0x8000_0000_0000_0000 <= b <= 0x7fff_ffff_ffff_ffff,
        ;
    }
    let p: i128 = (a as i128) * (b as i128);
    if p >= 0 {
        (p / (c as i128)) as i64
    } else {
        -(((-p) / (c as i128)) as i64)
    }
}

/// `r` is the square root of `n` rounded down.
pub open spec fn is_floor_sqrt(r: int, n: int) -> bool {
    0 <= r && r * r <= n < (r + 1) * (r + 1)
}

/// The square root of a non-negative `n`, rounded down.
pub open spec fn floor_sqrt(n: int) -> int {
    choose|r: int| #[trigger] is_floor_sqrt(r, n)
}

/// Every non-negative number has a rounded-down square root.
pub proof fn lemma_floor_sqrt_exists(n: int)
    requires
        n >= 0,
    ensures
        exists|r: int| #[trigger] is_floor_sqrt(r, n),
    decreases n,
{
    if n == 0 {
        assert(is_floor_sqrt(0, 0));
    } else {
        lemma_floor_sqrt_exists(n - 1);
        let r = choose|r: int| #[trigger] is_floor_sqrt(r, n - 1);
        if (r + 1) * (r + 1) <= n {
            assert((r + 1) * (r + 1) == n);
            assert(n < (r + 2) * (r + 2)) by (nonlinear_arith)
                requires
                    (r + 1) * (r + 1) == n,
                    r >= 0,
            ;
            assert(is_floor_sqrt(r + 1, n));
        } else {
            assert(is_floor_sqrt(r, n));
        }
    }
}

/// `floor_sqrt` meets its definition on every non-negative number.
pub proof fn lemma_floor_sqrt(n: int)
    requires
        n >= 0,
    ensures
        is_floor_sqrt(floor_sqrt(n), n),
{
    lemma_floor_sqrt_exists(n);
}

/// A number has at most one rounded-down square root.
pub proof fn lemma_floor_sqrt_unique(r: int, s: int, n: int)
    requires
        is_floor_sqrt(r, n),
        is_floor_sqrt(s, n),
    ensures
        r == s,
{
    if r < s {
        assert((r + 1) * (r + 1) <= s * s) by (nonlinear_arith)
            requires
                0 <= r < s,
        ;
    } else if s < r {
        assert((s + 1) * (s + 1) <= r * r) by (nonlinear_arith)
            requires
                0 <= s < r,
        ;
    }
}

/// Relies on `u128::isqrt`: the integer square root, rounded down.
#[verifier::external_body]
fn isqrt(n: u128) -> (r: u128)
    ensures
        is_floor_sqrt(r as int, n as int),
{
    n.isqrt()
}

/// The square root of a non-negative `n`, rounded up: the least `r` with
/// `n <= r * r`.
pub open spec fn ceil_sqrt(n: int) -> int {
    let r = floor_sqrt(n);
    if r * r == n {
        r
    } else {
        r + 1
    }
}

/// `ceil_sqrt` is a square root rounded up, and no larger than any
/// non-negative `r` whose square reaches `n`.
pub proof fn lemma_ceil_sqrt(n: int, r: int)
    requires
        n >= 0,
    ensures
        0 <= ceil_sqrt(n),
        n <= ceil_sqrt(n) * ceil_sqrt(n),
        ceil_sqrt(n) == 0 <==> n == 0,
        r >= 0 && n <= r * r ==> ceil_sqrt(n) <= r,
{
    lemma_floor_sqrt(n);
    let f = floor_sqrt(n);
    let c = ceil_sqrt(n);
    assert(c > 0 ==> (c - 1) * (c - 1) < n) by (nonlinear_arith)
        requires
            c == if f * f == n {
                f
            } else {
                f + 1
            },
            is_floor_sqrt(f, n),
    ;
    if f * f != n {
        assert(n <= (f + 1) * (f + 1));
    }
    if r >= 0 && n <= r * r && c > r {
        assert((c - 1) * (c - 1) >= r * r) by (nonlinear_arith)
            requires
                0 <= r < c,
        ;
    }
}

/// The square root of `n`, rounded up.
pub(crate) fn sqrt_ceil(n: u128) -> (r: u128)
    ensures
        r == ceil_sqrt(n as int),
{
    let r = isqrt(n);
    proof {
        let c = floor_sqrt(n as int);
        lemma_floor_sqrt(n as int);
        lemma_floor_sqrt_unique(r as int, c, n as int);
        assert(r < 0x1_0000_0000_0000_0000) by (nonlinear_arith)
            requires
                r * r <= n,
                n <= 0xffff_ffff_ffff_ffff_ffff_ffff_ffff_ffff,
                r >= 0,
        ;
    }
    if r * r == n {
        r
    } else {
        r + 1
    }
}

/// Rounding towards zero keeps the sign of the dividend.
pub proof fn lemma_div_trunc_sign(a: int, b: int)
    requires
        b > 0,
    ensures
        a >= 0 ==> div_trunc(a, b) >= 0,
        a <= 0 ==> div_trunc(a, b) <= 0,
{
}

/// A dividend no larger than `m` times the divisor gives a quotient no larger
/// than `m`, in magnitude.
pub proof fn lemma_div_trunc_bound(a: int, b: int, m: int)
    requires
        b > 0,
        m >= 0,
        -(b * m) <= a <= b * m,
    ensures
        -m <= div_trunc(a, b) <= m,
{
    if a >= 0 {
        lemma_div_le(a, b, m);
    } else {
        lemma_div_le(-a, b, m);
    }
}

/// A dividend below `m` times the divisor gives a quotient below `m`, in
/// magnitude.
pub proof fn lemma_div_trunc_strict(a: int, b: int, m: int)
    requires
        b > 0,
        -(b * m) < a < b * m,
    ensures
        -m < div_trunc(a, b) < m,
{
    let x = if a >= 0 {
        a
    } else {
        -a
    };
    vstd::arithmetic::div_mod::lemma_fundamental_div_mod(x, b);
    vstd::arithmetic::div_mod::lemma_mod_pos_bound(x, b);
    assert(x / b < m) by (nonlinear_arith)
        requires
            b > 0,
            x == b * (x / b) + x % b,
            0 <= x % b,
            x < b * m,
    ;
}

/// A dividend of at least `m` times the divisor gives a quotient of at least
/// `m`, in magnitude.
pub proof fn lemma_div_trunc_at_least(a: int, b: int, m: int)
    requires
        b > 0,
        m >= 0,
        b * m <= a || a <= -(b * m),
    ensures
        m <= div_trunc(a, b) || div_trunc(a, b) <= -m,
{
    let x = if a >= 0 {
        a
    } else {
        -a
    };
    assert(b * m >= 0) by (nonlinear_arith)
        requires
            b > 0,
            m >= 0,
    ;
    vstd::arithmetic::div_mod::lemma_div_is_ordered(b * m, x, b);
    vstd::arithmetic::div_mod::lemma_div_multiples_vanish(m, b);
}

/// Rounding towards zero never overshoots: the square of the quotient times
/// the square of the divisor is at most the square of the dividend.
pub proof fn lemma_div_trunc_square(a: int, b: int)
    requires
        b > 0,
    ensures
        div_trunc(a, b) * div_trunc(a, b) * (b * b) <= a * a,
{
    let x = if a >= 0 {
        a
    } else {
        -a
    };
    vstd::arithmetic::div_mod::lemma_fundamental_div_mod(x, b);
    vstd::arithmetic::div_mod::lemma_mod_pos_bound(x, b);
    vstd::arithmetic::div_mod::lemma_div_pos_is_pos(x, b);
    let q = x / b;
    assert(q * q * (b * b) <= x * x) by (nonlinear_arith)
        requires
            x == b * q + x % b,
            0 <= x % b,
            q >= 0,
            b > 0,
    ;
    let t = div_trunc(a, b);
    assert(t == q || t == -q);
    assert(t * t == q * q) by (nonlinear_arith)
        requires
            t == q || t == -q,
    ;
    assert(x * x == a * a) by (nonlinear_arith)
        requires
            x == a || x == -a,
    ;
}

proof fn lemma_div_le(a: int, b: int, m: int)
    requires
        b > 0,
        m >= 0,
        0 <= a <= b * m,
    ensures
        0 <= a / b <= m,
{
    vstd::arithmetic::div_mod::lemma_div_is_ordered(a, b * m, b);
    vstd::arithmetic::div_mod::lemma_div_multiples_vanish(m, b);
    vstd::arithmetic::div_mod::lemma_div_pos_is_pos(a, b);
}

} // verus!
