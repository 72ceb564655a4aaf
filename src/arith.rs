//! Floor division and true modulo on machine integers.
//!
//! In specifications `a / b` and `a % b` on `int` with `b > 0` are the
//! mathematical floor division and the non-negative modulo; Rust's operators on
//! signed integers truncate toward zero instead. The helpers here bridge the two.
use vstd::arithmetic::div_mod::{lemma_fundamental_div_mod, lemma_fundamental_div_mod_converse};
use vstd::prelude::*;

verus! {

/// `x / d` is the floor of the quotient and `x % d` the non-negative rest.
pub proof fn lemma_floor_bounds(x: int, d: int)
    requires
        d > 0,
    ensures
        (x / d) * d <= x < (x / d) * d + d,
        x % d == x - (x / d) * d,
        0 <= x % d < d,
{
    lemma_fundamental_div_mod(x, d);
    assert(d * (x / d) == (x / d) * d) by (nonlinear_arith);
}

/// The quotient is the only `q` with `q * d <= x < q * d + d`.
pub proof fn lemma_floor_unique(x: int, d: int, q: int)
    requires
        d > 0,
        q * d <= x < q * d + d,
    ensures
        x / d == q,
        x % d == x - q * d,
{
    lemma_fundamental_div_mod_converse(x, d, q, x - q * d);
}

/// How the floor quotient and true modulo of a negative `a` follow from
/// those of `-a`, which Rust's truncating operators compute.
pub proof fn lemma_negative_floor(a: int, b: int)
    requires
        b > 0,
        a < 0,
    ensures
        (-a) % b == 0 ==> a / b == -((-a) / b) && a % b == 0,
        (-a) % b != 0 ==> a / b == -((-a) / b) - 1 && a % b == b - (-a) % b,
{
    let n = -a;
    let q = n / b;
    lemma_floor_bounds(n, b);
    assert((-q) * b == -(q * b)) by (nonlinear_arith);
    assert((-q - 1) * b == -(q * b) - b) by (nonlinear_arith);
    if n % b == 0 {
        lemma_floor_unique(a, b, -q);
    } else {
        lemma_floor_unique(a, b, -q - 1);
    }
}

/// Floor of `a / b`.
pub fn floor_div_i64(a: i64, b: i64) -> (q: i64)
    requires
        b > 0,
        a > i64::MIN,
    ensures
        q == a as int / b as int,
{
    let t = a / b;
    let r = a % b;
    proof {
        if a < 0 {
            lemma_negative_floor(a as int, b as int);
        }
    }
    if r < 0 {
        t - 1
    } else {
        t
    }
}

/// `a` modulo `b`, always in `[0, b)`.
pub fn floor_mod_i64(a: i64, b: i64) -> (m: i64)
    requires
        b > 0,
        a > i64::MIN,
    ensures
        m == a as int % b as int,
        0 <= m < b,
{
    let r = a % b;
    proof {
        lemma_floor_bounds(a as int, b as int);
        if a < 0 {
            lemma_negative_floor(a as int, b as int);
        }
    }
    if r < 0 {
        r + b
    } else {
        r
    }
}

} // verus!
