//! Fixed-point numbers in units of `UNIT` (one millionth of 1.0).
//!
//! Every per-tile attribute (altitude, temperature, rainfall) and every
//! threshold is an `i64` holding `value * UNIT`; normalized attributes lie in
//! `[-UNIT, UNIT]`.

use vstd::prelude::*;

verus! {

/// The fixed-point representation of 1.0.
pub const UNIT: i64 = 1_000_000;

/// `v` limited to the normalized range `[-UNIT, UNIT]`.
pub open spec fn clamp_unit_spec(v: int) -> int {
    if v < -UNIT {
        -UNIT as int
    } else if v > UNIT {
        UNIT as int
    } else {
        v
    }
}

/// Absolute value over the integers.
pub open spec fn abs_int(v: int) -> int {
    if v < 0 {
        -v
    } else {
        v
    }
}

/// Limits `v` to `[-UNIT, UNIT]`.
pub fn clamp_unit(v: i128) -> (r: i64)
    ensures
        r == clamp_unit_spec(v as int),
{
    if v < -(UNIT as i128) {
        -UNIT
    } else if v > UNIT as i128 {
        UNIT
    } else {
        v as i64
    }
}

/// Magnitude bound on the operands of `floor_div`.
pub const WIDE: i128 = 0x1000_0000_0000_0000_0000_0000_0000;

/// Division rounded towards negative infinity (`a / d` in spec code), for a
/// positive divisor.
pub fn floor_div(a: i128, d: i128) -> (q: i128)
    requires
        0 < d <= WIDE,
        -WIDE <= a <= WIDE,
    ensures
        q == a / d,
{
    if a >= 0 {
        let au: u128 = a as u128;
        let du: u128 = d as u128;
        let qu: u128 = au / du;
        proof {
            assert(qu <= au) by (nonlinear_arith)
                requires qu == au / du, du > 0, au >= 0;
        }
        qu as i128
    } else {
        let m: u128 = (-a) as u128;
        let du: u128 = d as u128;
        let c: u128 = (m + (du - 1)) / du;
        proof {
            assert(c <= m + du) by (nonlinear_arith)
                requires c as int == (m + du - 1) / (du as int), du > 0, m >= 0;
            let ai = a as int;
            let di = d as int;
            let ci = c as int;
            assert(ci == (-ai + di - 1) / di);
            lemma_neg_floor(ai, di);
        }
        -(c as i128)
    }
}

proof fn lemma_neg_floor(a: int, d: int)
    requires
        a < 0,
        d > 0,
    ensures
        a / d == -((-a + d - 1) / d),
{
    let q = a / d;
    let r = a % d;
    vstd::arithmetic::div_mod::lemma_fundamental_div_mod(a, d);
    assert(a == d * q + r && 0 <= r < d);
    if r == 0 {
        assert(-a + d - 1 == d * (-q) + (d - 1)) by (nonlinear_arith)
            requires a == d * q + r, r == 0;
        vstd::arithmetic::div_mod::lemma_fundamental_div_mod_converse(-a + d - 1, d, -q, d - 1);
    } else {
        assert(-a + d - 1 == d * (-q) + (d - 1 - r)) by (nonlinear_arith)
            requires a == d * q + r;
        vstd::arithmetic::div_mod::lemma_fundamental_div_mod_converse(-a + d - 1, d, -q, d - 1 - r);
    }
}

} // verus!
