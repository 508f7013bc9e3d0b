//! Products of a 128-bit and a 64-bit number, held in 192 bits, and their
//! comparison: enough to compare two fractions of such numbers exactly.

use vstd::prelude::*;

verus! {

/// 2^64.
pub open spec fn two64() -> int {
    0x1_0000_0000_0000_0000
}

/// The number that a high part and a low 64-bit part stand for.
pub open spec fn wide_value(w: (u128, u64)) -> int {
    w.0 * two64() + w.1
}

/// `a * b`, as a high part and a low 64-bit part.
pub fn mul_wide(a: u128, b: u64) -> (r: (u128, u64))
    ensures
        wide_value(r) == a * b,
{
    let a1: u128 = a / 0x1_0000_0000_0000_0000;
    let a0: u128 = a % 0x1_0000_0000_0000_0000;
    let b0: u128 = b as u128;
    assert(a0 * b0 < 0x1_0000_0000_0000_0000 * 0x1_0000_0000_0000_0000) by (nonlinear_arith)
        requires
            a0 < 0x1_0000_0000_0000_0000,
            b0 < 0x1_0000_0000_0000_0000,
    ;
    let low: u128 = a0 * b0;
    let c1: u128 = low / 0x1_0000_0000_0000_0000;
    let c0: u128 = low % 0x1_0000_0000_0000_0000;
    assert(a1 < 0x1_0000_0000_0000_0000);
    assert(a1 * b0 <= 0xffff_ffff_ffff_ffff * 0xffff_ffff_ffff_ffff) by (nonlinear_arith)
        requires
            a1 < 0x1_0000_0000_0000_0000,
            b0 < 0x1_0000_0000_0000_0000,
    ;
    let high: u128 = a1 * b0 + c1;
    assert(a == a1 * 0x1_0000_0000_0000_0000 + a0);
    assert(low == c1 * 0x1_0000_0000_0000_0000 + c0);
    assert(a * b0 == a1 * b0 * 0x1_0000_0000_0000_0000 + low) by (nonlinear_arith)
        requires
            a == a1 * 0x1_0000_0000_0000_0000 + a0,
            low == a0 * b0,
    ;
    assert(high * 0x1_0000_0000_0000_0000 + c0 == a * b0) by (nonlinear_arith)
        requires
            high == a1 * b0 + c1,
            low == c1 * 0x1_0000_0000_0000_0000 + c0,
            a * b0 == a1 * b0 * 0x1_0000_0000_0000_0000 + low,
    ;
    (high, c0 as u64)
}

/// Whether the first wide number is the larger.
pub fn wide_gt(x: (u128, u64), y: (u128, u64)) -> (r: bool)
    ensures
        r == (wide_value(x) > wide_value(y)),
{
    proof {
        if x.0 > y.0 {
            assert(wide_value(x) >= (y.0 + 1) * two64()) by (nonlinear_arith)
                requires
                    x.0 >= y.0 + 1,
                    wide_value(x) == x.0 * two64() + x.1,
                    x.1 >= 0,
                    two64() > 0,
            ;
        } else if x.0 < y.0 {
            assert(wide_value(y) >= (x.0 + 1) * two64()) by (nonlinear_arith)
                requires
                    y.0 >= x.0 + 1,
                    wide_value(y) == y.0 * two64() + y.1,
                    y.1 >= 0,
                    two64() > 0,
            ;
        }
    }
    x.0 > y.0 || (x.0 == y.0 && x.1 > y.1)
}

} // verus!
