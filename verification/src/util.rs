//! Integer arithmetic helpers shared by the unit conversions and encoders:
//! division rounded half away from zero, truncating division, euclidean
//! remainder and a rounded integer square root.

use vstd::arithmetic::div_mod::{
    lemma_fundamental_div_mod, lemma_mod_multiples_vanish, lemma_small_mod,
};
use vstd::arithmetic::mul::{
    lemma_mul_basics, lemma_mul_inequality, lemma_mul_is_commutative,
    lemma_mul_is_distributive_sub, lemma_mul_unary_negation,
};
use vstd::prelude::*;

verus! {

/// Quotient `n / d` rounded to the nearest integer, ties away from zero.
pub open spec fn round_div(n: int, d: int) -> int
    recommends
        d >= 1,
{
    if n >= 0 {
        (n + d / 2) / d
    } else {
        -(((-n) + d / 2) / d)
    }
}

/// Quotient `n / d` truncated toward zero, as Rust's signed `/` computes it.
pub open spec fn trunc_div(n: int, d: int) -> int
    recommends
        d >= 1,
{
    if n >= 0 {
        n / d
    } else {
        -((-n) / d)
    }
}

proof fn lemma_round_div_le(n: int, d: int)
    requires
        n >= 0,
        d >= 1,
    ensures
        0 <= (n + d / 2) / d <= n,
{
    let h = d / 2;
    lemma_fundamental_div_mod(d, 2);
    assert(h < d);
    let q = (n + h) / d;
    lemma_fundamental_div_mod(n + h, d);
    if q < 0 {
        lemma_mul_inequality(q, -1, d);
        lemma_mul_is_commutative(q, d);
        lemma_mul_is_commutative(-1, d);
        lemma_mul_basics(d);
    }
    if q > n {
        lemma_mul_inequality(n + 1, q, d);
        lemma_mul_is_commutative(q, d);
        lemma_mul_is_commutative(n + 1, d);
        lemma_mul_is_distributive_sub(d, n + 1, 1);
        lemma_mul_basics(d);
        lemma_mul_inequality(1, d, n);
        lemma_mul_is_commutative(d, n);
        lemma_mul_basics(n);
        assert(false);
    }
}

/// `round_div`, executable.
pub fn div_round(n: i64, d: i64) -> (r: i64)
    requires
        1 <= d <= 0x1_0000_0000,
        -0x2000_0000_0000_0000 <= n <= 0x2000_0000_0000_0000,
    ensures
        r == round_div(n as int, d as int),
        n >= 0 ==> 0 <= r <= n,
        n < 0 ==> n <= r <= 0,
{
    let h: i64 = d / 2;
    if n >= 0 {
        proof {
            lemma_round_div_le(n as int, d as int);
        }
        (n + h) / d
    } else {
        proof {
            lemma_round_div_le(-(n as int), d as int);
        }
        -((-n + h) / d)
    }
}

/// `trunc_div`, executable.
pub fn div_trunc(n: i64, d: i64) -> (r: i64)
    requires
        1 <= d,
        n > i64::MIN,
    ensures
        r == trunc_div(n as int, d as int),
        n >= 0 ==> 0 <= r <= n,
        n < 0 ==> n <= r <= 0,
{
    proof {
        if n >= 0 {
            lemma_round_div_le(n as int, 1);
            lemma_div_le_self(n as int, d as int);
        } else {
            lemma_div_le_self(-(n as int), d as int);
        }
    }
    n / d
}

proof fn lemma_div_le_self(n: int, d: int)
    requires
        n >= 0,
        d >= 1,
    ensures
        0 <= n / d <= n,
{
    let q = n / d;
    lemma_fundamental_div_mod(n, d);
    if q < 0 {
        lemma_mul_inequality(q, -1, d);
        lemma_mul_is_commutative(q, d);
        lemma_mul_is_commutative(-1, d);
        lemma_mul_basics(d);
    }
    if q > n {
        lemma_mul_inequality(n + 1, q, d);
        lemma_mul_is_commutative(q, d);
        lemma_mul_is_commutative(n + 1, d);
        lemma_mul_is_distributive_sub(d, n + 1, 1);
        lemma_mul_basics(d);
        lemma_mul_inequality(1, d, n);
        lemma_mul_is_commutative(d, n);
        lemma_mul_basics(n);
        assert(false);
    }
}

/// Euclidean remainder of `n` by a positive divisor; always in `[0, d)`.
pub fn rem_euclid(n: i64, d: i64) -> (r: i64)
    requires
        1 <= d,
        n > i64::MIN,
    ensures
        r == (n as int) % (d as int),
        0 <= r < d,
{
    let m: i64 = n % d;
    proof {
        let ni = n as int;
        let di = d as int;
        if ni < 0 {
            let rm = (-ni) % di;
            let q = (-ni) / di;
            lemma_fundamental_div_mod(-ni, di);
            lemma_mul_unary_negation(di, q);
            if rm == 0 {
                lemma_mod_multiples_vanish(-q, 0, di);
            } else {
                lemma_mul_is_distributive_sub(di, -q, 1);
                lemma_mul_basics(di);
                lemma_mod_multiples_vanish(-q - 1, di - rm, di);
                lemma_small_mod((di - rm) as nat, di as nat);
            }
        }
    }
    if m < 0 {
        m + d
    } else {
        m
    }
}

/// Holds when `r` is `sqrt(x)` rounded to the nearest integer.
pub open spec fn is_rounded_sqrt(x: int, r: int) -> bool {
    &&& r >= 0
    &&& 4 * x < (2 * r + 1) * (2 * r + 1)
    &&& (r == 0 || (2 * r - 1) * (2 * r - 1) <= 4 * x)
}

/// `sqrt(x)` rounded to the nearest integer, for `x` small enough that the
/// intermediate squares fit.
pub fn sqrt_round(x: u64) -> (r: u64)
    requires
        x < 0x100000000,
    ensures
        is_rounded_sqrt(x as int, r as int),
        r <= x,
{
    let mut f: u64 = 0;
    loop
        invariant
            x < 0x100000000,
            f <= 0x10000,
            f * f <= x,
        ensures
            f <= 0x10000,
            f * f <= x,
            x < (f + 1) * (f + 1),
        decreases x - f * f,
    {
        proof {
            assert(f < 0x10000 && (f + 1) * (f + 1) < 0x200000000 && f * f < (f + 1) * (f + 1))
                by (nonlinear_arith)
                requires
                    f * f <= x && x < 0x100000000,
            ;
        }
        let g: u64 = f + 1;
        let sq: u64 = g * g;
        if sq <= x {
            f = g;
        } else {
            break ;
        }
    }
    proof {
        assert(f <= x) by (nonlinear_arith)
            requires
                f * f <= x,
        ;
        assert((2 * f + 1) * (2 * f + 1) < 0x500000000) by (nonlinear_arith)
            requires
                f <= 0x10000,
        ;
    }
    let t: u64 = 2 * f + 1;
    // f is floor(sqrt(x)); round up when the fractional part is at least one half
    if 4 * x >= t * t {
        proof {
            assert(4 * x < (2 * (f + 1) + 1) * (2 * (f + 1) + 1)) by (nonlinear_arith)
                requires
                    x < (f + 1) * (f + 1),
            ;
            assert(f + 1 <= x) by (nonlinear_arith)
                requires
                    4 * x >= (2 * f + 1) * (2 * f + 1),
            ;
        }
        f + 1
    } else {
        proof {
            assert(f == 0 || (2 * f - 1) * (2 * f - 1) <= 4 * x) by (nonlinear_arith)
                requires
                    f * f <= x,
            ;
        }
        f
    }
}

/// How many ticks of a `freq` Hz pipeline make up one period of a task that
/// runs `hz_tenths / 10` times a second: `freq / hz` rounded down, with a
/// floor of one tick.
pub open spec fn run_every_ticks(freq: u16, hz_tenths: u16) -> u32
    recommends
        hz_tenths >= 1,
{
    let t = (10 * (freq as int)) / (hz_tenths as int);
    if t < 1 {
        1u32
    } else {
        t as u32
    }
}

/// Executable form of `run_every_ticks`.
pub fn ticks_for(freq: u16, hz_tenths: u16) -> (r: u32)
    requires
        1 <= hz_tenths,
    ensures
        r == run_every_ticks(freq, hz_tenths),
        1 <= r <= 655350,
{
    proof {
        lemma_div_le_self(10 * (freq as int), hz_tenths as int);
    }
    let t: u32 = (10 * (freq as u32)) / (hz_tenths as u32);
    if t < 1 {
        1
    } else {
        t
    }
}

/// Relies on `String::push`: appends exactly one character to the string.
#[verifier::external_body]
pub fn push_char(s: &mut String, c: char)
    ensures
        final (s)@ == old(s)@.push(c),
{
    s.push(c);
}

} // verus!
