//! Double-precision arithmetic on whole numbers: what a quotient is rounded to where
//! there are 53 binary digits to write it with.

use vstd::prelude::*;

verus! {

// === Models ===

/// The first number that takes more than 53 binary digits.
pub const LIMIT: u128 = 0x20_0000_0000_0000;

/// `n / d` rounded to the nearest whole number, halves to the even one.
pub open spec fn half_even(n: int, d: int) -> int {
    let (q, r) = (n / d, n % d);
    if 2 * r < d || 2 * r == d && q % 2 == 0 {
        q
    } else {
        q + 1
    }
}

/// The place value of the last of the 53 binary digits of `n`; one where `n` has no more
/// than those.
pub open spec fn spacing(n: int) -> int
    decreases n,
{
    if n < LIMIT {
        1
    } else {
        2 * spacing(n / 2)
    }
}

/// `n / d` rounded to 53 binary digits, halves to the even number; to a whole number
/// where fewer digits stand before the point. In a unit small enough for 53 to stand
/// there, that is the double nearest to `n / d`.
pub open spec fn nearest_double(n: int, d: int) -> int {
    let gap = spacing(n / d);
    half_even(n, d * gap) * gap
}

/// Two to the power of `k`.
pub open spec fn two_to(k: nat) -> int
    decreases k,
{
    if k == 0 {
        1
    } else {
        2 * two_to((k - 1) as nat)
    }
}

// === Rounding ===

/// Rounding moves by half a unit at most.
pub proof fn lemma_half_even_close(n: int, d: int)
    requires
        d > 0,
    ensures
        2 * n - d <= 2 * (half_even(n, d) * d) <= 2 * n + d,
{
    let (q, r) = (n / d, n % d);
    vstd::arithmetic::div_mod::lemma_fundamental_div_mod(n, d);
    vstd::arithmetic::div_mod::lemma_mod_bound(n, d);
    assert(d * q == q * d && (q + 1) * d == q * d + d) by (nonlinear_arith);
}

pub proof fn lemma_half_even_order(a: int, b: int, d: int)
    requires
        a <= b,
        d > 0,
    ensures
        half_even(a, d) <= half_even(b, d),
{
    vstd::arithmetic::div_mod::lemma_fundamental_div_mod(a, d);
    vstd::arithmetic::div_mod::lemma_fundamental_div_mod(b, d);
    vstd::arithmetic::div_mod::lemma_div_is_ordered(a, b, d);
}

/// A whole quotient is rounded to itself.
pub proof fn lemma_half_even_whole(k: int, d: int)
    requires
        d > 0,
    ensures
        half_even(k * d, d) == k,
{
    vstd::arithmetic::div_mod::lemma_fundamental_div_mod_converse(k * d, d, k, 0);
    assert(k * d == d * k) by (nonlinear_arith);
}

pub proof fn lemma_half_even_scaled(n: int, d: int, by: int)
    requires
        d > 0,
        by > 0,
    ensures
        half_even(n * by, d * by) == half_even(n, d),
{
    let (q, r) = (n / d, n % d);
    vstd::arithmetic::div_mod::lemma_fundamental_div_mod(n, d);
    vstd::arithmetic::div_mod::lemma_mod_bound(n, d);
    assert(n * by == (d * by) * q + r * by) by (nonlinear_arith)
        requires
            n == d * q + r,
    ;
    assert(0 <= r * by < d * by) by (nonlinear_arith)
        requires
            0 <= r < d,
            by > 0,
    ;
    vstd::arithmetic::div_mod::lemma_fundamental_div_mod_converse(n * by, d * by, q, r * by);
    assert((2 * r < d) == (2 * (r * by) < d * by) && (2 * r == d) == (2 * (r * by) == d * by))
        by (nonlinear_arith)
        requires
            by > 0,
    ;
}

// === Spacing ===

pub proof fn lemma_spacing(n: int)
    requires
        n >= 0,
    ensures
        spacing(n) >= 1,
        n < LIMIT * spacing(n),
        n >= LIMIT ==> 2 * n >= LIMIT * spacing(n),
        n < LIMIT ==> spacing(n) == 1,
    decreases n,
{
    if n >= LIMIT {
        lemma_spacing(n / 2);
    }
}

/// Larger numbers lie no closer; where they lie farther apart, it is at least twice.
pub proof fn lemma_spacing_order(a: int, b: int)
    requires
        0 <= a <= b,
    ensures
        spacing(a) == spacing(b) || 2 * spacing(a) <= spacing(b) && b >= LIMIT,
    decreases a,
{
    lemma_spacing(b);
    if a >= LIMIT {
        lemma_spacing_order(a / 2, b / 2);
    } else if b >= LIMIT {
        lemma_spacing(b / 2);
    }
}

/// The spacing of a number below `LIMIT` times a power of two divides that power.
pub proof fn lemma_spacing_divides(n: int, k: nat)
    requires
        0 <= n < LIMIT * two_to(k),
    ensures
        1 <= spacing(n) <= two_to(k),
        two_to(k) % spacing(n) == 0,
        two_to(k) == spacing(n) * (two_to(k) / spacing(n)),
    decreases k,
{
    lemma_two_to_positive(k);
    if n < LIMIT {
        assert(two_to(k) % 1 == 0);
    } else {
        let less = (k - 1) as nat;
        lemma_spacing_divides(n / 2, less);
        let (g, w) = (spacing(n / 2), two_to(less));
        let c = w / g;
        assert(2 * w == (2 * g) * c + 0) by (nonlinear_arith)
            requires
                w == g * c,
        ;
        vstd::arithmetic::div_mod::lemma_fundamental_div_mod_converse(2 * w, 2 * g, c, 0);
    }
    vstd::arithmetic::div_mod::lemma_fundamental_div_mod(two_to(k), spacing(n));
}

pub proof fn lemma_two_to_positive(k: nat)
    ensures
        two_to(k) >= 1,
    decreases k,
{
    if k > 0 {
        lemma_two_to_positive((k - 1) as nat);
    }
}

/// What 53 digits and a shift can write is a multiple of its spacing.
pub proof fn lemma_shifted_is_spaced(a: int, k: nat)
    requires
        0 <= a < LIMIT,
    ensures
        (a * two_to(k)) % spacing(a * two_to(k)) == 0,
    decreases k,
{
    let v = a * two_to(k);
    lemma_two_to_positive(k);
    assert(v >= 0) by (nonlinear_arith)
        requires
            v == a * two_to(k),
            a >= 0,
            two_to(k) >= 1,
    ;
    if v < LIMIT {
        assert(v % 1 == 0);
    } else {
        assert(k > 0);
        let less = (k - 1) as nat;
        let h = a * two_to(less);
        assert(v == 2 * h) by (nonlinear_arith)
            requires
                v == a * (2 * two_to(less)),
                h == a * two_to(less),
        ;
        lemma_shifted_is_spaced(a, less);
        lemma_spacing(h);
        let g = spacing(h);
        vstd::arithmetic::div_mod::lemma_fundamental_div_mod(h, g);
        let c = h / g;
        assert(2 * h == (2 * g) * c + 0) by (nonlinear_arith)
            requires
                h == g * c,
        ;
        vstd::arithmetic::div_mod::lemma_fundamental_div_mod_converse(2 * h, 2 * g, c, 0);
    }
}

// === Doubles ===

/// A number that is a multiple of its spacing is a double.
pub proof fn lemma_double_exact(v: int, d: int)
    requires
        v >= 0,
        d > 0,
        v % spacing(v) == 0,
    ensures
        nearest_double(v * d, d) == v,
{
    let g = spacing(v);
    lemma_spacing(v);
    vstd::arithmetic::div_mod::lemma_fundamental_div_mod_converse(v * d, d, v, 0);
    assert(v * d == d * v) by (nonlinear_arith);
    vstd::arithmetic::div_mod::lemma_fundamental_div_mod(v, g);
    let c = v / g;
    assert(v * d == c * (d * g) && d * g > 0 && c * g == v) by (nonlinear_arith)
        requires
            v == g * c,
            d > 0,
            g > 0,
    ;
    lemma_half_even_whole(c, d * g);
}

/// The double nearest to a larger quotient is no smaller.
pub proof fn lemma_double_order(a: int, b: int, d: int)
    requires
        0 <= a <= b,
        d > 0,
    ensures
        0 <= nearest_double(a, d) <= nearest_double(b, d),
{
    let (x, y) = (a / d, b / d);
    vstd::arithmetic::div_mod::lemma_fundamental_div_mod(a, d);
    vstd::arithmetic::div_mod::lemma_fundamental_div_mod(b, d);
    vstd::arithmetic::div_mod::lemma_mod_bound(a, d);
    vstd::arithmetic::div_mod::lemma_mod_bound(b, d);
    vstd::arithmetic::div_mod::lemma_div_is_ordered(a, b, d);
    vstd::arithmetic::div_mod::lemma_div_pos_is_pos(a, d);
    lemma_spacing(x);
    lemma_spacing(y);
    lemma_spacing_order(x, y);
    let (g, h) = (spacing(x), spacing(y));
    assert(d * g > 0 && d * h > 0) by (nonlinear_arith)
        requires
            d > 0,
            g >= 1,
            h >= 1,
    ;
    let low = half_even(a, d * g);
    let high = half_even(b, d * h);
    lemma_half_even_order(0, a, d * g);
    lemma_half_even_whole(0, d * g);
    assert(0 * (d * g) == 0);
    if g == h {
        lemma_half_even_order(a, b, d * g);
        assert(0 <= low * g <= high * g) by (nonlinear_arith)
            requires
                0 <= low <= high,
                g >= 1,
        ;
    } else {
        let full = LIMIT as int;
        let half = (LIMIT / 2) as int;
        assert(a <= full * (d * g)) by (nonlinear_arith)
            requires
                a < d * x + d,
                x < full * g,
                d > 0,
        ;
        assert(half * (d * h) <= b) by (nonlinear_arith)
            requires
                b >= d * y,
                y >= half * h,
                d > 0,
        ;
        lemma_half_even_order(a, full * (d * g), d * g);
        lemma_half_even_whole(full, d * g);
        lemma_half_even_order(half * (d * h), b, d * h);
        lemma_half_even_whole(half, d * h);
        assert(0 <= low * g <= high * h) by (nonlinear_arith)
            requires
                0 <= low <= full,
                half <= high,
                full == 2 * half,
                2 * g <= h,
                g >= 1,
                half > 0,
        ;
    }
}

/// Doubling a number doubles its double.
proof fn lemma_double_twice(n: int)
    requires
        n >= 0,
    ensures
        nearest_double(2 * n, 1) == 2 * nearest_double(n, 1),
{
    assert(n / 1 == n && (2 * n) / 1 == 2 * n);
    lemma_spacing(n);
    let g = spacing(n);
    if 2 * n < LIMIT {
        assert(spacing(2 * n) == 1);
        lemma_half_even_whole(n, 1);
        lemma_half_even_whole(2 * n, 1);
    } else {
        assert(spacing(2 * n) == 2 * g);
        lemma_half_even_scaled(n, g, 2);
        assert(half_even(n, g) * (2 * g) == 2 * (half_even(n, g) * g)) by (nonlinear_arith);
        assert(n * 2 == 2 * n && 1 * g == g && 1 * (2 * g) == g * 2);
    }
}

/// Scaling by the spacing of any number scales the double.
pub proof fn lemma_double_scaled(n: int, m: int)
    requires
        n >= 0,
        m >= 0,
    ensures
        nearest_double(n * spacing(m), 1) == nearest_double(n, 1) * spacing(m),
    decreases m,
{
    if m < LIMIT {
        assert(n * 1 == n);
    } else {
        let g = spacing(m / 2);
        lemma_double_scaled(n, m / 2);
        lemma_spacing(m / 2);
        assert(n * g >= 0) by (nonlinear_arith)
            requires
                n >= 0,
                g >= 1,
        ;
        lemma_double_twice(n * g);
        let r = nearest_double(n, 1);
        assert(n * (2 * g) == 2 * (n * g) && r * (2 * g) == 2 * (r * g)) by (nonlinear_arith);
    }
}

/// A quotient up to `LIMIT` times a power of two lies within half that power of its
/// double.
pub proof fn lemma_double_close(n: int, d: int, k: nat)
    requires
        d > 0,
        0 <= n < d * (LIMIT * two_to(k)),
    ensures
        2 * n - d * two_to(k) <= 2 * (nearest_double(n, d) * d) <= 2 * n + d * two_to(k),
{
    let x = n / d;
    let g = spacing(x);
    let w = two_to(k);
    vstd::arithmetic::div_mod::lemma_fundamental_div_mod(n, d);
    vstd::arithmetic::div_mod::lemma_mod_bound(n, d);
    vstd::arithmetic::div_mod::lemma_div_pos_is_pos(n, d);
    let bound = LIMIT * w;
    assert(x < bound) by (nonlinear_arith)
        requires
            d * x <= n,
            n < d * bound,
            d > 0,
    ;
    lemma_spacing_divides(x, k);
    let r = half_even(n, d * g);
    assert(d * g > 0 && d * g <= d * w && r * (d * g) == (r * g) * d) by (nonlinear_arith)
        requires
            d > 0,
            1 <= g <= w,
    ;
    lemma_half_even_close(n, d * g);
}

// === Executables ===

/// `n / d` rounded to the nearest whole number, halves to the even one.
pub fn round_half_even(n: u128, d: u128) -> (r: u128)
    requires
        d > 0,
    ensures
        r == half_even(n as int, d as int),
{
    let q: u128 = n / d;
    let r: u128 = n % d;
    let down = r < d - r || r == d - r && q % 2 == 0;
    if down {
        q
    } else {
        proof {
            vstd::arithmetic::div_mod::lemma_fundamental_div_mod(n as int, d as int);
            assert(q < n) by (nonlinear_arith)
                requires
                    n == d * q + r,
                    r > 0,
                    d > 0,
            ;
        }
        q + 1
    }
}

/// The place value of the last of the 53 binary digits of `n`.
pub fn spacing_of(n: u128) -> (r: u128)
    ensures
        r == spacing(n as int),
{
    let mut rest: u128 = n;
    let mut gap: u128 = 1;
    while rest >= LIMIT
        invariant
            spacing(n as int) == gap * spacing(rest as int),
            gap >= 1,
            gap * rest <= n,
        decreases rest,
    {
        proof {
            let (g, m) = (gap as int, rest as int);
            let s = spacing(m / 2);
            assert(g * (2 * s) == (2 * g) * s) by (nonlinear_arith);
            assert(2 * g <= g * m) by (nonlinear_arith)
                requires
                    g >= 1,
                    m >= 2,
            ;
            assert((2 * g) * (m / 2) <= g * m) by (nonlinear_arith)
                requires
                    2 * (m / 2) <= m,
                    g >= 1,
            ;
        }
        rest = rest / 2;
        gap = 2 * gap;
    }
    assert(gap * 1 == gap);
    gap
}

/// `n / d` rounded to 53 binary digits.
pub fn to_double(n: u128, d: u128) -> (r: u128)
    requires
        d > 0,
        n <= d * 0x100_0000_0000_0000_0000_0000_0000_0000,
    ensures
        r == nearest_double(n as int, d as int),
{
    let whole: u128 = n / d;
    let gap: u128 = spacing_of(whole);
    proof {
        let (a, b) = (n as int, d as int);
        let (x, g) = (whole as int, gap as int);
        let top = 0x100_0000_0000_0000_0000_0000_0000_0000int;
        vstd::arithmetic::div_mod::lemma_fundamental_div_mod(a, b);
        vstd::arithmetic::div_mod::lemma_mod_bound(a, b);
        lemma_spacing(x);
        assert(x <= top) by (nonlinear_arith)
            requires
                b * x <= a,
                a <= b * top,
                b > 0,
        ;
        assert(b * g <= a || g == 1) by (nonlinear_arith)
            requires
                g == 1 || 2 * x >= 0x20_0000_0000_0000 * g,
                a >= b * x,
                b > 0,
                g >= 1,
        ;
        assert(b * 1 == b);
        assert(b * g > 0) by (nonlinear_arith)
            requires
                b > 0,
                g >= 1,
        ;
        let full = LIMIT as int;
        assert(a <= full * (b * g)) by (nonlinear_arith)
            requires
                a < b * x + b,
                x < full * g,
                b > 0,
        ;
        lemma_half_even_order(a, full * (b * g), b * g);
        lemma_half_even_whole(full, b * g);
        let r = half_even(a, b * g);
        assert(r * g <= full * g) by (nonlinear_arith)
            requires
                r <= full,
                g >= 1,
        ;
        lemma_double_order(0, a, b);
    }
    round_half_even(n, d * gap) * gap
}

} // verus!
