//! Products of two numbers that no machine integer holds, kept as two halves.

use vstd::prelude::*;

verus! {

/// Two to the power of 64.
pub open spec fn limb() -> int {
    0x1_0000_0000_0000_0000
}

/// The number that the two halves stand for: the upper half counts
/// multiples of two to the power of 128.
pub open spec fn wide(hi: u128, lo: u128) -> int {
    hi * limb() * limb() + lo
}

/// Multiplies two numbers without losing the upper half of the product.
pub fn wide_mul(a: u128, b: u128) -> (r: (u128, u128))
    ensures
        wide(r.0, r.1) == a * b,
{
    let base: u128 = 0x1_0000_0000_0000_0000;
    let a1: u128 = a / base;
    let a0: u128 = a % base;
    let b1: u128 = b / base;
    let b0: u128 = b % base;
    assert(a0 * b0 <= 0xffff_ffff_ffff_ffff * 0xffff_ffff_ffff_ffff) by (nonlinear_arith)
        requires
            a0 <= 0xffff_ffff_ffff_ffff,
            b0 <= 0xffff_ffff_ffff_ffff,
    ;
    assert(a1 * b0 <= 0xffff_ffff_ffff_ffff * 0xffff_ffff_ffff_ffff) by (nonlinear_arith)
        requires
            a1 <= 0xffff_ffff_ffff_ffff,
            b0 <= 0xffff_ffff_ffff_ffff,
    ;
    assert(a0 * b1 <= 0xffff_ffff_ffff_ffff * 0xffff_ffff_ffff_ffff) by (nonlinear_arith)
        requires
            b1 <= 0xffff_ffff_ffff_ffff,
            a0 <= 0xffff_ffff_ffff_ffff,
    ;
    assert(a1 * b1 <= 0xffff_ffff_ffff_ffff * 0xffff_ffff_ffff_ffff) by (nonlinear_arith)
        requires
            a1 <= 0xffff_ffff_ffff_ffff,
            b1 <= 0xffff_ffff_ffff_ffff,
    ;
    let low: u128 = a0 * b0;
    let left: u128 = a1 * b0;
    let right: u128 = a0 * b1;
    let high: u128 = a1 * b1;
    // the second limb with what it carries into the third
    let mid: u128 = low / base + left % base + right % base;
    let lo: u128 = (mid % base) * base + low % base;
    let hi: u128 = high + left / base + right / base + mid / base;
    proof {
        let bb = limb();
        assert(a * b == (a1 * bb + a0) * (b1 * bb + b0));
        assert((a1 * bb + a0) * (b1 * bb + b0) == (a1 * b1) * bb * bb + (a1 * b0) * bb + (a0 * b1)
            * bb + a0 * b0) by (nonlinear_arith);
        assert(((left / base) * bb + left % base) * bb == (left / base) * bb * bb + (left % base)
            * bb) by (nonlinear_arith);
        assert(((right / base) * bb + right % base) * bb == (right / base) * bb * bb + (right
            % base) * bb) by (nonlinear_arith);
        assert(((mid / base) * bb + mid % base) * bb == (mid / base) * bb * bb + (mid % base) * bb)
            by (nonlinear_arith);
        assert((low / base + left % base + right % base) * bb == (low / base) * bb + (left % base)
            * bb + (right % base) * bb) by (nonlinear_arith);
        assert((high + left / base + right / base + mid / base) * bb * bb == high * bb * bb + (left
            / base) * bb * bb + (right / base) * bb * bb + (mid / base) * bb * bb)
            by (nonlinear_arith);
    }
    (hi, lo)
}

/// Whether the first number is at least the second, both given in halves.
pub fn wide_ge(a: (u128, u128), b: (u128, u128)) -> (r: bool)
    ensures
        r == (wide(a.0, a.1) >= wide(b.0, b.1)),
{
    proof {
        let bb = limb();
        assert(bb * bb == 0x1_0000_0000_0000_0000_0000_0000_0000_0000) by (nonlinear_arith)
            requires
                bb == 0x1_0000_0000_0000_0000,
        ;
        if a.0 > b.0 {
            assert(a.0 * bb * bb >= (b.0 + 1) * bb * bb) by (nonlinear_arith)
                requires
                    a.0 >= b.0 + 1,
                    bb > 0,
            ;
            assert((b.0 + 1) * bb * bb == b.0 * bb * bb + bb * bb) by (nonlinear_arith);
        }
        if a.0 < b.0 {
            assert(b.0 * bb * bb >= (a.0 + 1) * bb * bb) by (nonlinear_arith)
                requires
                    b.0 >= a.0 + 1,
                    bb > 0,
            ;
            assert((a.0 + 1) * bb * bb == a.0 * bb * bb + bb * bb) by (nonlinear_arith);
        }
    }
    a.0 > b.0 || (a.0 == b.0 && a.1 >= b.1)
}

} // verus!
