//! Truncated integer division and fixed-point arithmetic: the quantised
//! counterparts of the float operations the simulation and its geometry
//! helpers use. A fixed-point value counts units of `1 / FX_ONE`.

use vstd::arithmetic::div_mod::{lemma_div_pos_is_pos, lemma_multiply_divide_le};
use vstd::prelude::*;

verus! {

/// One, in fixed-point units.
pub const FX_ONE: i64 = 65536;

/// Largest magnitude of a fixed-point value the geometry helpers accept:
/// products of two such values, and small sums of those products, stay
/// well inside the machine range.
pub const FX_LIM: i64 = 0x4000_0000;

/// Integer division truncated toward zero.
pub open spec fn div_trunc(a: int, b: int) -> int {
    if a >= 0 {
        a / b
    } else {
        -((-a) / b)
    }
}

/// The fixed-point product: the wide product scaled back down, truncated
/// toward zero.
pub open spec fn fx_mul(a: int, b: int) -> int {
    div_trunc(a * b, FX_ONE as int)
}

/// Truncated division keeps a magnitude bound: if `|a| <= b * m` then
/// `|div_trunc(a, b)| <= m`.
pub proof fn lemma_div_trunc_bound(a: int, b: int, m: int)
    requires
        0 < b,
        0 <= m,
        -(b * m) <= a <= b * m,
    ensures
        -m <= div_trunc(a, b) <= m,
{
    if a >= 0 {
        lemma_multiply_divide_le(a, b, m);
        lemma_div_pos_is_pos(a, b);
    } else {
        lemma_multiply_divide_le(-a, b, m);
        lemma_div_pos_is_pos(-a, b);
    }
}

/// Truncated division of an `i64` by a positive `u64`.
pub fn div_trunc_i64(a: i64, b: u64) -> (r: i64)
    requires
        0 < b,
        -0x7fff_ffff_ffff_ffff <= a,
    ensures
        r == div_trunc(a as int, b as int),
{
    if a >= 0 {
        ((a as u64) / b) as i64
    } else {
        let q = ((-a) as u64) / b;
        proof {
            assert((-a) as u64 / b <= (-a) as u64) by {
                vstd::arithmetic::div_mod::lemma_div_nonincreasing((-a) as int, b as int);
                lemma_div_pos_is_pos((-a) as int, b as int);
            }
        }
        -(q as i64)
    }
}

/// The fixed-point product of two bounded values.
pub fn fx_mul_i64(a: i64, b: i64) -> (r: i64)
    requires
        -FX_LIM <= a <= FX_LIM,
        -FX_LIM <= b <= FX_LIM,
    ensures
        r == fx_mul(a as int, b as int),
        -0x1000_0000_0000 <= r <= 0x1000_0000_0000,
{
    proof {
        assert(-0x1000_0000_0000_0000 <= a * b <= 0x1000_0000_0000_0000) by (nonlinear_arith)
            requires
                -0x4000_0000 <= a <= 0x4000_0000,
                -0x4000_0000 <= b <= 0x4000_0000,
        ;
        lemma_div_trunc_bound(a as int * b as int, FX_ONE as int, 0x1000_0000_0000);
        assert(FX_ONE as int * 0x1000_0000_0000 == 0x1000_0000_0000_0000);
    }
    div_trunc_i64(a * b, 65536)
}

} // verus!
