use vstd::arithmetic::div_mod::{lemma_fundamental_div_mod, lemma_fundamental_div_mod_converse_div};
use vstd::prelude::*;

verus! {

/// Quantities are fixed-point numbers counted in thousandths.
pub const UNITS: i64 = 1000;

/// Rounds `x / d` down, for a positive `d`.
pub fn floor_div(x: i128, d: i128) -> (r: i128)
    requires
        d > 0,
    ensures
        r == x / d,
{
    if x >= 0 {
        x / d
    } else {
        let m = -(x + 1);
        let a = m / d;
        proof {
            lemma_fundamental_div_mod(m as int, d as int);
            let b = m % d;
            assert(x == (-a - 1) * d + (d - b - 1)) by (nonlinear_arith)
                requires
                    m == d * a + b,
                    m == -(x + 1),
            ;
            lemma_fundamental_div_mod_converse_div(x as int, d as int, -a - 1, d - b - 1);
        }
        -a - 1
    }
}

/// The nutrient amount in `weight` of a food holding `per100` per 100 units of weight,
/// all in thousandths, rounded down.
pub open spec fn scaled_amount(weight: i64, per100: i64) -> int {
    (weight * per100) / (100 * UNITS)
}

pub fn scale(weight: i64, per100: i64) -> (r: i128)
    ensures
        r == scaled_amount(weight, per100),
{
    proof {
        let w = weight as int;
        let n = per100 as int;
        let w_abs = if w >= 0 { w } else { -w };
        let n_abs = if n >= 0 { n } else { -n };
        assert(w_abs * n_abs <= 0x8000_0000_0000_0000 * 0x8000_0000_0000_0000) by (nonlinear_arith)
            requires
                0 <= w_abs <= 0x8000_0000_0000_0000,
                0 <= n_abs <= 0x8000_0000_0000_0000,
        ;
        assert(-(w_abs * n_abs) <= w * n <= w_abs * n_abs) by (nonlinear_arith)
            requires
                w_abs == if w >= 0 { w } else { -w },
                n_abs == if n >= 0 { n } else { -n },
        ;
    }
    let p: i128 = (weight as i128) * (per100 as i128);
    floor_div(p, 100000)
}

} // verus!
