//! Field elements of the 128-bit prime field, held as their canonical integer.
use vstd::prelude::*;
use winter_math::fields::f128::BaseElement;
use winter_math::StarkField;

verus! {

/// The field modulus, 2^128 - 45 * 2^40 + 1.
pub const MODULUS: u128 = 340282366920938463463374557953744961537;

/// A canonical representative of a field element.
pub open spec fn is_felt(x: int) -> bool {
    0 <= x < MODULUS
}

/// The field element that an integer stands for.
pub open spec fn fe(x: int) -> int {
    x % (MODULUS as int)
}

pub open spec fn fadd(a: int, b: int) -> int {
    fe(a + b)
}

pub open spec fn fsub(a: int, b: int) -> int {
    fe(a - b)
}

pub open spec fn fmul(a: int, b: int) -> int {
    fe(a * b)
}

/// Relies on winter_math's `BaseElement::new`: a value at or above the modulus
/// is reduced by it, and `as_int` gives the canonical value back.
#[verifier::external_body]
pub(crate) fn felt_from_u128(x: u128) -> (r: u128)
    ensures
        r == fe(x as int),
{
    BaseElement::new(x).as_int()
}

/// Relies on winter_math's `Add` for `BaseElement`: (a + b) mod the modulus.
#[verifier::external_body]
pub(crate) fn felt_add(a: u128, b: u128) -> (r: u128)
    requires
        is_felt(a as int),
        is_felt(b as int),
    ensures
        r == fadd(a as int, b as int),
{
    (BaseElement::new(a) + BaseElement::new(b)).as_int()
}

/// Relies on winter_math's `Sub` for `BaseElement`: (a - b) mod the modulus.
#[verifier::external_body]
pub(crate) fn felt_sub(a: u128, b: u128) -> (r: u128)
    requires
        is_felt(a as int),
        is_felt(b as int),
    ensures
        r == fsub(a as int, b as int),
{
    (BaseElement::new(a) - BaseElement::new(b)).as_int()
}

/// Relies on winter_math's `Mul` for `BaseElement`: (a * b) mod the modulus.
#[verifier::external_body]
pub(crate) fn felt_mul(a: u128, b: u128) -> (r: u128)
    requires
        is_felt(a as int),
        is_felt(b as int),
    ensures
        r == fmul(a as int, b as int),
{
    (BaseElement::new(a) * BaseElement::new(b)).as_int()
}

/// Every reduced value is a canonical representative.
pub proof fn lemma_fe_is_felt(x: int)
    ensures
        is_felt(fe(x)),
        is_felt(x) ==> fe(x) == x,
{
}

/// A difference in the field is zero exactly when the two elements are equal.
pub proof fn lemma_fsub_zero(a: int, b: int)
    requires
        is_felt(a),
        is_felt(b),
    ensures
        fsub(a, b) == 0 <==> a == b,
{
    if a != b {
        assert(fsub(a, b) != 0) by {
            if a > b {
                assert(0 < a - b < MODULUS);
            } else {
                assert(0 < MODULUS + (a - b) < MODULUS);
                vstd::arithmetic::div_mod::lemma_mod_add_multiples_vanish(a - b, MODULUS as int);
            }
        }
    }
}

} // verus!
