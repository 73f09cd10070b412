//! Integer arithmetic under the value type: powers of ten and rounding of a
//! quotient half away from zero.
use vstd::prelude::*;
use vstd::arithmetic::div_mod::{lemma_div_multiples_vanish_fancy, lemma_div_multiples_vanish_quotient};

verus! {

/// Bound on the magnitude of a numerator handed to [`round_div`].
pub const ROUND_LIMIT: i128 = 1_000_000_000_000_000_000_000_000_000_000_000_000;

/// Ten to the power `n`.
pub open spec fn pow10_spec(n: nat) -> int
    decreases n,
{
    if n == 0 {
        1
    } else {
        10 * pow10_spec((n - 1) as nat)
    }
}

/// Magnitude of an integer.
pub open spec fn abs(x: int) -> int {
    if x < 0 {
        -x
    } else {
        x
    }
}

/// `n / d` rounded to the nearest integer, ties away from zero (`2.5 -> 3`,
/// `-2.5 -> -3`).
pub open spec fn round_div_spec(n: int, d: int) -> int
    recommends
        d > 0,
{
    if n >= 0 {
        (2 * n + d) / (2 * d)
    } else {
        -((-2 * n + d) / (2 * d))
    }
}

pub proof fn lemma_pow10_positive(n: nat)
    ensures
        pow10_spec(n) >= 1,
    decreases n,
{
    if n > 0 {
        lemma_pow10_positive((n - 1) as nat);
    }
}

pub proof fn lemma_pow10_add(a: nat, b: nat)
    ensures
        pow10_spec(a + b) == pow10_spec(a) * pow10_spec(b),
    decreases a,
{
    if a > 0 {
        let a1 = (a - 1) as nat;
        lemma_pow10_add(a1, b);
        assert((a + b - 1) as nat == a1 + b);
        assert(pow10_spec(a + b) == 10 * pow10_spec(a1 + b));
        let x = pow10_spec(a1);
        let y = pow10_spec(b);
        assert(10 * (x * y) == (10 * x) * y) by (nonlinear_arith);
    }
}

pub proof fn lemma_pow10_monotone(a: nat, b: nat)
    requires
        a <= b,
    ensures
        pow10_spec(a) <= pow10_spec(b),
    decreases b,
{
    if a < b {
        lemma_pow10_monotone(a, (b - 1) as nat);
        lemma_pow10_positive((b - 1) as nat);
    }
}

proof fn lemma_pow10_36()
    ensures
        pow10_spec(36) == 1_000_000_000_000_000_000_000_000_000_000_000_000int,
{
    reveal_with_fuel(pow10_spec, 37);
}

/// Ten to the power `n`, for exponents whose power fits.
pub fn pow10(n: u32) -> (r: i128)
    requires
        n <= 36,
    ensures
        r == pow10_spec(n as nat),
{
    let mut r: i128 = 1;
    let mut i: u32 = 0;
    while i < n
        invariant
            i <= n <= 36,
            r == pow10_spec(i as nat),
        decreases n - i,
    {
        proof {
            lemma_pow10_monotone((i + 1) as nat, 36);
            lemma_pow10_36();
            assert(pow10_spec((i + 1) as nat) == 10 * pow10_spec(i as nat));
            lemma_pow10_positive(i as nat);
        }
        r = r * 10;
        i = i + 1;
    }
    r
}

/// Bounds the rounded quotient by the numerator.
pub proof fn lemma_round_div_bound(n: int, d: int)
    requires
        d >= 1,
    ensures
        -abs(n) <= round_div_spec(n, d) <= abs(n),
        n >= 0 ==> round_div_spec(n, d) >= 0,
        n <= 0 ==> round_div_spec(n, d) <= 0,
{
    if n >= 0 {
        assert((2 * n + d) / (2 * d) <= n) by (nonlinear_arith)
            requires
                n >= 0,
                d >= 1,
        ;
        assert((2 * n + d) / (2 * d) >= 0) by (nonlinear_arith)
            requires
                n >= 0,
                d >= 1,
        ;
    } else {
        assert((-2 * n + d) / (2 * d) <= -n) by (nonlinear_arith)
            requires
                n < 0,
                d >= 1,
        ;
        assert((-2 * n + d) / (2 * d) >= 0) by (nonlinear_arith)
            requires
                n < 0,
                d >= 1,
        ;
    }
}

/// `n / d` rounded half away from zero.
pub fn round_div(n: i128, d: i128) -> (r: i128)
    requires
        d > 0,
        -ROUND_LIMIT <= n <= ROUND_LIMIT,
        d <= ROUND_LIMIT,
    ensures
        r == round_div_spec(n as int, d as int),
{
    proof {
        lemma_round_div_bound(n as int, d as int);
        assert(ROUND_LIMIT == 1_000_000_000_000_000_000_000_000_000_000_000_000int);
    }
    if n >= 0 {
        (2 * n + d) / (2 * d)
    } else {
        -((-2 * n + d) / (2 * d))
    }
}

} // verus!

verus! {

/// Bound on the magnitude of a numerator handed to [`scale_round`].
pub const SCALE_LIMIT: i128 = 100_000_000_000_000_000_000_000_000_000_000;

/// An amount already scaled to smallest units, `num / den`, made a whole
/// number of units. Unless the amount is in cents, it is first rounded to
/// four decimal places and then to a whole unit; both roundings go half away
/// from zero.
pub open spec fn scale_round_spec(num: int, den: int, cents: bool) -> int {
    if cents {
        round_div_spec(num, den)
    } else {
        round_div_spec(round_div_spec(num * 10000, den), 10000)
    }
}

pub proof fn lemma_pow10_values()
    ensures
        pow10_spec(4) == 10_000,
        pow10_spec(12) == 1_000_000_000_000,
        pow10_spec(24) == 1_000_000_000_000_000_000_000_000,
{
    reveal_with_fuel(pow10_spec, 25);
}

/// Whole units of `num / den`, see [`scale_round_spec`].
pub fn scale_round(num: i128, den: i128, cents: bool) -> (r: i128)
    requires
        -SCALE_LIMIT <= num <= SCALE_LIMIT,
        0 < den <= ROUND_LIMIT,
    ensures
        r == scale_round_spec(num as int, den as int, cents),
        -abs(num as int) <= r <= abs(num as int),
{
    proof {
        assert(SCALE_LIMIT == 100_000_000_000_000_000_000_000_000_000_000int);
        assert(ROUND_LIMIT == 1_000_000_000_000_000_000_000_000_000_000_000_000int);
        lemma_round_div_bound(num as int, den as int);
        lemma_round_div_bound(num * 10000, den as int);
        lemma_round_div_bound(round_div_spec(num * 10000, den as int), 10000);
        if cents {
        } else {
            let x = round_div_spec(num * 10000, den as int);
            let y = round_div_spec(x, 10000);
            assert(-abs(num as int) <= y <= abs(num as int)) by {
                if x >= 0 {
                    assert((2 * x + 10000) / 20000 <= abs(num as int)) by (nonlinear_arith)
                        requires
                            0 <= x <= abs(num * 10000),
                            abs(num * 10000) == 10000 * abs(num as int),
                    ;
                } else {
                    assert((-2 * x + 10000) / 20000 <= abs(num as int)) by (nonlinear_arith)
                        requires
                            0 < -x <= abs(num * 10000),
                            abs(num * 10000) == 10000 * abs(num as int),
                    ;
                }
            }
        }
    }
    if cents {
        round_div(num, den)
    } else {
        let x = round_div(num * 10000, den);
        round_div(x, 10000)
    }
}

/// Scaling numerator and denominator alike leaves a rounded quotient as it is.
pub proof fn lemma_round_div_cancel(n: int, d: int, c: int)
    requires
        d >= 1,
        c >= 1,
    ensures
        round_div_spec(n * c, d * c) == round_div_spec(n, d),
{
    assert(c * (2 * d) == 2 * (d * c)) by (nonlinear_arith);
    if n >= 0 {
        lemma_div_multiples_vanish_quotient(c, 2 * n + d, 2 * d);
        assert(c * (2 * n + d) == 2 * (n * c) + d * c) by (nonlinear_arith);
        assert(n * c >= 0) by (nonlinear_arith)
            requires
                n >= 0,
                c >= 1,
        ;
    } else {
        lemma_div_multiples_vanish_quotient(c, -2 * n + d, 2 * d);
        assert(c * (-2 * n + d) == -2 * (n * c) + d * c) by (nonlinear_arith);
        assert(n * c < 0) by (nonlinear_arith)
            requires
                n < 0,
                c >= 1,
        ;
    }
}

/// An exact quotient needs no rounding.
pub proof fn lemma_round_div_exact(x: int, d: int)
    requires
        d >= 1,
    ensures
        round_div_spec(x * d, d) == x,
{
    lemma_round_div_cancel(x, 1, d);
    assert(1 * d == d);
    if x >= 0 {
        lemma_div_multiples_vanish_fancy(x, 1, 2);
        assert(2 * x + 1 == 2 * x + 1);
    } else {
        lemma_div_multiples_vanish_fancy(-x, 1, 2);
    }
}

/// When the amount has at most four more fractional digits than it is
/// scaled by, the four-decimal cleanup is exact, and the whole units are
/// `m * 10^p / 10^s` rounded half away from zero.
pub proof fn lemma_cleanup_exact(m: int, p: nat, s: nat)
    requires
        s <= p + 4,
    ensures
        scale_round_spec(m * pow10_spec(p), pow10_spec(s), false) == round_div_spec(
            m * pow10_spec(p),
            pow10_spec(s),
        ),
{
    let z = m * pow10_spec((p + 4 - s) as nat);
    assert(pow10_spec(4) == 10000) by {
        reveal_with_fuel(pow10_spec, 5);
    }
    lemma_pow10_positive(s);
    lemma_pow10_add(p, 4);
    lemma_pow10_add((p + 4 - s) as nat, s);
    assert(((p + 4 - s) + s) as nat == p + 4);
    assert(m * pow10_spec(p) * 10000 == z * pow10_spec(s)) by (nonlinear_arith)
        requires
            pow10_spec(p + 4) == pow10_spec(p) * 10000,
            pow10_spec(p + 4) == pow10_spec((p + 4 - s) as nat) * pow10_spec(s),
            z == m * pow10_spec((p + 4 - s) as nat),
    ;
    lemma_round_div_exact(z, pow10_spec(s));
    if s <= 4 {
        let c = pow10_spec((4 - s) as nat);
        lemma_pow10_positive((4 - s) as nat);
        lemma_pow10_add((4 - s) as nat, s);
        lemma_pow10_add(p, (4 - s) as nat);
        assert(((4 - s) + s) as nat == 4);
        assert((p + (4 - s)) as nat == (p + 4 - s) as nat);
        assert(z == m * pow10_spec(p) * c) by (nonlinear_arith)
            requires
                z == m * pow10_spec((p + 4 - s) as nat),
                pow10_spec((p + 4 - s) as nat) == pow10_spec(p) * c,
        ;
        assert(pow10_spec(s) * c == 10000);
        lemma_round_div_cancel(m * pow10_spec(p), pow10_spec(s), c);
    } else {
        let c = pow10_spec((s - 4) as nat);
        lemma_pow10_positive((s - 4) as nat);
        lemma_pow10_add(4, (s - 4) as nat);
        lemma_pow10_add((p + 4 - s) as nat, (s - 4) as nat);
        assert((4 + (s - 4)) as nat == s);
        assert(((p + 4 - s) + (s - 4)) as nat == p);
        assert(z * c == m * pow10_spec(p)) by (nonlinear_arith)
            requires
                z == m * pow10_spec((p + 4 - s) as nat),
                pow10_spec(p) == pow10_spec((p + 4 - s) as nat) * c,
        ;
        lemma_round_div_cancel(z, 10000, c);
    }
}

} // verus!
