//! The ring laws of the secure field that the LogUp bookkeeping relies on.

use crate::field::m31_add;
use crate::field::m31_mul;
use crate::field::m31_neg;
use crate::field::m31_sub;
use crate::field::BaseField;
use crate::field::ComplexField;
use crate::field::SecureField;
use crate::field::P;
use vstd::arithmetic::div_mod::lemma_add_mod_noop;
use vstd::arithmetic::div_mod::lemma_mod_multiples_vanish;
use vstd::arithmetic::div_mod::lemma_sub_mod_noop;
use vstd::prelude::*;

verus! {

/// Addition modulo `P` is associative.
proof fn lemma_m31_add_assoc(a: u32, b: u32, c: u32)
    ensures
        m31_add(m31_add(a, b), c) == m31_add(a, m31_add(b, c)),
{
    let p = P as int;
    lemma_add_mod_noop(a + b, c as int, p);
    lemma_add_mod_noop(a as int, b + c, p);
    lemma_add_mod_noop((a + b) % p, c as int, p);
    lemma_add_mod_noop(a as int, (b + c) % p, p);
}

/// A residue and its negation add up to zero modulo `P`.
proof fn lemma_m31_add_neg(a: u32)
    ensures
        m31_add(a, m31_neg(a)) == 0,
{
    let p = P as int;
    lemma_add_mod_noop(a as int, 0 - a, p);
    lemma_add_mod_noop(a as int, (0 - a) % p, p);
}

/// Negation modulo `P` distributes over addition.
proof fn lemma_m31_neg_add(a: u32, b: u32)
    ensures
        m31_neg(m31_add(a, b)) == m31_add(m31_neg(a), m31_neg(b)),
{
    let p = P as int;
    lemma_sub_mod_noop(0, a + b, p);
    lemma_add_mod_noop(0 - a, 0 - b, p);
}

/// Multiplying by `P - 1` negates modulo `P`.
proof fn lemma_m31_mul_neg_one(e: u32)
    ensures
        m31_mul((P - 1) as u32, e) == m31_neg(m31_mul(1, e)),
{
    let p = P as int;
    assert((p - 1) * e == p * e + (0 - e)) by (nonlinear_arith);
    lemma_mod_multiples_vanish(e as int, 0 - e, p);
    lemma_sub_mod_noop(0, e as int, p);
}

/// Addition is associative.
pub proof fn lemma_add_associates(x: SecureField, y: SecureField, z: SecureField)
    ensures
        x.add_spec(y).add_spec(z) == x.add_spec(y.add_spec(z)),
{
    lemma_m31_add_assoc(x.lo.re.value, y.lo.re.value, z.lo.re.value);
    lemma_m31_add_assoc(x.lo.im.value, y.lo.im.value, z.lo.im.value);
    lemma_m31_add_assoc(x.hi.re.value, y.hi.re.value, z.hi.re.value);
    lemma_m31_add_assoc(x.hi.im.value, y.hi.im.value, z.hi.im.value);
}

/// Two elements can be added onto a third in either order.
pub proof fn lemma_add_swaps(r: SecureField, x: SecureField, y: SecureField)
    ensures
        r.add_spec(x).add_spec(y) == r.add_spec(y).add_spec(x),
{
    lemma_add_associates(r, x, y);
    lemma_add_associates(r, y, x);
    assert(x.add_spec(y) == y.add_spec(x));
}

/// Zero is neutral for the addition of canonical elements.
pub proof fn lemma_add_zero(x: SecureField)
    requires
        x.wf(),
    ensures
        x.add_spec(SecureField::zero_spec()) == x,
        SecureField::zero_spec().add_spec(x) == x,
{
}

/// An element and its negation add up to zero.
pub proof fn lemma_add_negation(x: SecureField)
    ensures
        x.add_spec(x.neg_spec()) == SecureField::zero_spec(),
{
    lemma_m31_add_neg(x.lo.re.value);
    lemma_m31_add_neg(x.lo.im.value);
    lemma_m31_add_neg(x.hi.re.value);
    lemma_m31_add_neg(x.hi.im.value);
}

/// Negation distributes over addition.
pub proof fn lemma_negation_of_sum(x: SecureField, y: SecureField)
    ensures
        x.add_spec(y).neg_spec() == x.neg_spec().add_spec(y.neg_spec()),
{
    lemma_m31_neg_add(x.lo.re.value, y.lo.re.value);
    lemma_m31_neg_add(x.lo.im.value, y.lo.im.value);
    lemma_m31_neg_add(x.hi.re.value, y.hi.re.value);
    lemma_m31_neg_add(x.hi.im.value, y.hi.im.value);
}

/// The products of a complex element with one and with minus one.
proof fn lemma_complex_mul_by_unit(e: ComplexField)
    ensures
        (ComplexField { re: BaseField { value: 1 }, im: BaseField { value: 0 } }).mul_spec(e) == (
        ComplexField {
            re: BaseField { value: m31_mul(1, e.re.value) },
            im: BaseField { value: m31_mul(1, e.im.value) },
        }),
        (ComplexField { re: BaseField { value: (P - 1) as u32 }, im: BaseField { value: 0 } }).mul_spec(
            e,
        ) == (ComplexField {
            re: BaseField { value: m31_neg(m31_mul(1, e.re.value)) },
            im: BaseField { value: m31_neg(m31_mul(1, e.im.value)) },
        }),
{
    lemma_m31_mul_neg_one(e.re.value);
    lemma_m31_mul_neg_one(e.im.value);
    assert(m31_mul(0, e.re.value) == 0);
    assert(m31_mul(0, e.im.value) == 0);
}

/// Products with the complex zero are zero.
proof fn lemma_complex_mul_by_zero(e: ComplexField)
    ensures
        (ComplexField { re: BaseField { value: 0 }, im: BaseField { value: 0 } }).mul_spec(e) == (
        ComplexField { re: BaseField { value: 0 }, im: BaseField { value: 0 } }),
        ComplexField::generator_square().mul_spec(
            ComplexField { re: BaseField { value: 0 }, im: BaseField { value: 0 } },
        ) == (ComplexField { re: BaseField { value: 0 }, im: BaseField { value: 0 } }),
{
    assert(m31_mul(0, e.re.value) == 0);
    assert(m31_mul(0, e.im.value) == 0);
}

/// Multiplying by minus one negates the product with one.
pub proof fn lemma_mul_minus_one(y: SecureField)
    ensures
        SecureField::one_spec().neg_spec().mul_spec(y) == SecureField::one_spec().mul_spec(
            y,
        ).neg_spec(),
{
    let zero = ComplexField { re: BaseField { value: 0 }, im: BaseField { value: 0 } };
    let unit = ComplexField { re: BaseField { value: 1 }, im: BaseField { value: 0 } };
    let minus_unit = ComplexField { re: BaseField { value: (P - 1) as u32 }, im: BaseField { value: 0 } };
    assert(SecureField::one_spec() == SecureField { lo: unit, hi: zero });
    assert(SecureField::one_spec().neg_spec() == SecureField { lo: minus_unit, hi: zero });
    lemma_complex_mul_by_unit(y.lo);
    lemma_complex_mul_by_unit(y.hi);
    lemma_complex_mul_by_zero(y.lo);
    lemma_complex_mul_by_zero(y.hi);
    let plus = SecureField::one_spec().mul_spec(y);
    let minus = SecureField::one_spec().neg_spec().mul_spec(y);
    assert(plus.lo == unit.mul_spec(y.lo).add_spec(zero));
    assert(plus.hi == unit.mul_spec(y.hi).add_spec(zero));
    assert(minus.lo == minus_unit.mul_spec(y.lo).add_spec(zero));
    assert(minus.hi == minus_unit.mul_spec(y.hi).add_spec(zero));
}

} // verus!
