//! The Mersenne-31 base field, its complex extension and the degree-four
//! secure field, held as plain integers.
//!
//! Every element is kept in canonical form: each coordinate lies in `[0, P)`.
//! The arithmetic itself is done by the `stwo` field kernels; the functions
//! here state, coordinate by coordinate, what those kernels compute.

use vstd::prelude::*;

verus! {

/// The modulus of the base field, `2^31 - 1`.
pub const P: u32 = 2147483647;

/// Sum of two residues modulo `P`.
pub open spec fn m31_add(a: u32, b: u32) -> u32 {
    ((a + b) % (P as int)) as u32
}

/// Difference of two residues modulo `P`.
pub open spec fn m31_sub(a: u32, b: u32) -> u32 {
    ((a - b) % (P as int)) as u32
}

/// Additive inverse of a residue modulo `P`.
pub open spec fn m31_neg(a: u32) -> u32 {
    ((0 - a) % (P as int)) as u32
}

/// Product of two residues modulo `P`.
pub open spec fn m31_mul(a: u32, b: u32) -> u32 {
    ((a * b) % (P as int)) as u32
}

/// An element of the base field.
#[derive(Clone, Copy, Debug, PartialEq, Eq, Structural)]
pub struct BaseField {
    pub value: u32,
}

/// An element `re + im * i` of the complex extension, where `i * i = -1`.
#[derive(Clone, Copy, Debug, PartialEq, Eq, Structural)]
pub struct ComplexField {
    pub re: BaseField,
    pub im: BaseField,
}

/// An element `lo + hi * u` of the secure field, where `u * u = 2 + i`.
#[derive(Clone, Copy, Debug, PartialEq, Eq, Structural)]
pub struct SecureField {
    pub lo: ComplexField,
    pub hi: ComplexField,
}

impl BaseField {
    /// The element is in canonical form.
    pub open spec fn wf(self) -> bool {
        self.value < P
    }

    /// The sum in the base field.
    pub open spec fn add_spec(self, rhs: BaseField) -> BaseField {
        BaseField { value: m31_add(self.value, rhs.value) }
    }

    /// The difference in the base field.
    pub open spec fn sub_spec(self, rhs: BaseField) -> BaseField {
        BaseField { value: m31_sub(self.value, rhs.value) }
    }

    /// The additive inverse in the base field.
    pub open spec fn neg_spec(self) -> BaseField {
        BaseField { value: m31_neg(self.value) }
    }

    /// The product in the base field.
    pub open spec fn mul_spec(self, rhs: BaseField) -> BaseField {
        BaseField { value: m31_mul(self.value, rhs.value) }
    }

    /// The element with the given residue, if the residue is canonical.
    pub fn new(value: u32) -> (r: Option<BaseField>)
        ensures
            r == (if value < P {
                Some(BaseField { value })
            } else {
                None
            }),
    {
        if value < P {
            Some(BaseField { value })
        } else {
            None
        }
    }

    /// Reads a machine word that is already known to lie below the modulus
    /// as a field element, without reducing it.
    pub fn from_canonical(value: u32) -> (r: BaseField)
        requires
            value < P,
        ensures
            r == (BaseField { value }),
            r.wf(),
    {
        BaseField { value }
    }

    /// The residue, in `[0, P)` for a canonical element.
    pub fn value(&self) -> (r: u32)
        ensures
            r == self.value,
    {
        self.value
    }
}

impl ComplexField {
    /// Both parts are canonical.
    pub open spec fn wf(self) -> bool {
        self.re.wf() && self.im.wf()
    }

    /// The sum, part by part.
    pub open spec fn add_spec(self, rhs: ComplexField) -> ComplexField {
        ComplexField { re: self.re.add_spec(rhs.re), im: self.im.add_spec(rhs.im) }
    }

    /// The additive inverse, part by part.
    pub open spec fn neg_spec(self) -> ComplexField {
        ComplexField { re: self.re.neg_spec(), im: self.im.neg_spec() }
    }

    /// `(a + bi)(c + di) = (ac - bd) + (ad + bc)i`.
    pub open spec fn mul_spec(self, rhs: ComplexField) -> ComplexField {
        ComplexField {
            re: self.re.mul_spec(rhs.re).sub_spec(self.im.mul_spec(rhs.im)),
            im: self.re.mul_spec(rhs.im).add_spec(self.im.mul_spec(rhs.re)),
        }
    }

    /// The constant `2 + i` whose square root generates the secure field.
    pub open spec fn generator_square() -> ComplexField {
        ComplexField { re: BaseField { value: 2 }, im: BaseField { value: 1 } }
    }
}

impl SecureField {
    /// All four coordinates are canonical.
    pub open spec fn wf(self) -> bool {
        self.lo.wf() && self.hi.wf()
    }

    /// The element `(a + bi) + (c + di)u`.
    pub open spec fn from_coords(a: u32, b: u32, c: u32, d: u32) -> SecureField {
        SecureField {
            lo: ComplexField { re: BaseField { value: a }, im: BaseField { value: b } },
            hi: ComplexField { re: BaseField { value: c }, im: BaseField { value: d } },
        }
    }

    /// The additive identity.
    pub open spec fn zero_spec() -> SecureField {
        SecureField::from_coords(0, 0, 0, 0)
    }

    /// The multiplicative identity.
    pub open spec fn one_spec() -> SecureField {
        SecureField::from_coords(1, 0, 0, 0)
    }

    /// The sum, coordinate by coordinate.
    pub open spec fn add_spec(self, rhs: SecureField) -> SecureField {
        SecureField { lo: self.lo.add_spec(rhs.lo), hi: self.hi.add_spec(rhs.hi) }
    }

    /// The additive inverse, coordinate by coordinate.
    pub open spec fn neg_spec(self) -> SecureField {
        SecureField { lo: self.lo.neg_spec(), hi: self.hi.neg_spec() }
    }

    /// The difference: the sum with the additive inverse.
    pub open spec fn sub_spec(self, rhs: SecureField) -> SecureField {
        self.add_spec(rhs.neg_spec())
    }

    /// `(a + bu)(c + du) = (ac + (2 + i)bd) + (ad + bc)u`.
    pub open spec fn mul_spec(self, rhs: SecureField) -> SecureField {
        SecureField {
            lo: self.lo.mul_spec(rhs.lo).add_spec(
                ComplexField::generator_square().mul_spec(self.hi).mul_spec(rhs.hi),
            ),
            hi: self.lo.mul_spec(rhs.hi).add_spec(self.hi.mul_spec(rhs.lo)),
        }
    }

    /// The base-field element `x` seen as an element of the secure field.
    pub open spec fn from_base_spec(x: BaseField) -> SecureField {
        SecureField::from_coords(x.value, 0, 0, 0)
    }

    /// The element with the given coordinates, if all four are canonical.
    pub fn new(a: u32, b: u32, c: u32, d: u32) -> (r: Option<SecureField>)
        ensures
            r == (if a < P && b < P && c < P && d < P {
                Some(SecureField::from_coords(a, b, c, d))
            } else {
                None
            }),
    {
        if a < P && b < P && c < P && d < P {
            Some(
                SecureField {
                    lo: ComplexField { re: BaseField { value: a }, im: BaseField { value: b } },
                    hi: ComplexField { re: BaseField { value: c }, im: BaseField { value: d } },
                },
            )
        } else {
            None
        }
    }

    /// The four coordinates `[a, b, c, d]` of `(a + bi) + (c + di)u`.
    pub fn coords(&self) -> (r: [u32; 4])
        ensures
            r@ == seq![self.lo.re.value, self.lo.im.value, self.hi.re.value, self.hi.im.value],
    {
        [self.lo.re.value, self.lo.im.value, self.hi.re.value, self.hi.im.value]
    }

    /// The additive identity.
    pub fn zero() -> (r: SecureField)
        ensures
            r == SecureField::zero_spec(),
            r.wf(),
    {
        SecureField {
            lo: ComplexField { re: BaseField { value: 0 }, im: BaseField { value: 0 } },
            hi: ComplexField { re: BaseField { value: 0 }, im: BaseField { value: 0 } },
        }
    }

    /// The multiplicative identity.
    pub fn one() -> (r: SecureField)
        ensures
            r == SecureField::one_spec(),
            r.wf(),
    {
        SecureField {
            lo: ComplexField { re: BaseField { value: 1 }, im: BaseField { value: 0 } },
            hi: ComplexField { re: BaseField { value: 0 }, im: BaseField { value: 0 } },
        }
    }

    /// The base-field element `x` seen as an element of the secure field.
    pub fn from_base(x: BaseField) -> (r: SecureField)
        requires
            x.wf(),
        ensures
            r == SecureField::from_base_spec(x),
            r.wf(),
    {
        SecureField {
            lo: ComplexField { re: x, im: BaseField { value: 0 } },
            hi: ComplexField { re: BaseField { value: 0 }, im: BaseField { value: 0 } },
        }
    }

    /// All four coordinates are canonical.
    pub fn is_canonical(&self) -> (r: bool)
        ensures
            r == self.wf(),
    {
        self.lo.re.value < P && self.lo.im.value < P && self.hi.re.value < P && self.hi.im.value
            < P
    }

    /// The element is the additive identity.
    pub fn is_zero(&self) -> (r: bool)
        ensures
            r == (*self == SecureField::zero_spec()),
    {
        self.lo.re.value == 0 && self.lo.im.value == 0 && self.hi.re.value == 0
            && self.hi.im.value == 0
    }

    /// The sum of two elements.
    pub fn add(self, rhs: SecureField) -> (r: SecureField)
        requires
            self.wf(),
            rhs.wf(),
        ensures
            r == self.add_spec(rhs),
            r.wf(),
    {
        proof {
            lemma_add_wf(self, rhs);
        }
        qm31_add(self, rhs)
    }

    /// The additive inverse of an element.
    pub fn neg(self) -> (r: SecureField)
        requires
            self.wf(),
        ensures
            r == self.neg_spec(),
            r.wf(),
    {
        proof {
            lemma_neg_wf(self);
        }
        qm31_neg(self)
    }

    /// The difference of two elements.
    pub fn sub(self, rhs: SecureField) -> (r: SecureField)
        requires
            self.wf(),
            rhs.wf(),
        ensures
            r == self.sub_spec(rhs),
            r.wf(),
    {
        let minus_rhs = rhs.neg();
        self.add(minus_rhs)
    }

    /// The product of two elements.
    pub fn mul(self, rhs: SecureField) -> (r: SecureField)
        requires
            self.wf(),
            rhs.wf(),
        ensures
            r == self.mul_spec(rhs),
            r.wf(),
    {
        proof {
            lemma_mul_wf(self, rhs);
        }
        qm31_mul(self, rhs)
    }

    /// The multiplicative inverse of a non-zero element.
    pub fn inverse(self) -> (r: SecureField)
        requires
            self.wf(),
            self != SecureField::zero_spec(),
        ensures
            r == secure_inverse(self),
            r.wf(),
            r.mul_spec(self) == SecureField::one_spec(),
    {
        qm31_inverse(self)
    }

    /// The multiplicative inverse, or `None` for zero.
    pub fn checked_inverse(self) -> (r: Option<SecureField>)
        requires
            self.wf(),
        ensures
            r.is_none() <==> self == SecureField::zero_spec(),
            r matches Some(inv) ==> inv == secure_inverse(self) && inv.wf() && inv.mul_spec(self)
                == SecureField::one_spec(),
    {
        if self.is_zero() {
            None
        } else {
            Some(self.inverse())
        }
    }

    /// Adds `numerator * inverse` to `self`: one term of a sum of fractions,
    /// given the inverse of the term's denominator.
    pub fn add_scaled(self, numerator: SecureField, inverse: SecureField) -> (r: SecureField)
        requires
            self.wf(),
            numerator.wf(),
            inverse.wf(),
        ensures
            r == self.add_spec(numerator.mul_spec(inverse)),
            r.wf(),
    {
        let term = numerator.mul(inverse);
        self.add(term)
    }
}

/// The secure field of `stwo`, which does the arithmetic.
type Kernel = stwo::core::fields::qm31::QM31;

/// The multiplicative inverse that the field kernel computes for an element
/// of the secure field.
pub uninterp spec fn secure_inverse(x: SecureField) -> SecureField;

/// `Add::add` of `stwo::core::fields::qm31::QM31`, written `+`. Not proved
/// here: on canonical elements it adds coordinate by coordinate modulo `P`.
#[verifier::external_body]
fn qm31_add(x: SecureField, y: SecureField) -> (r: SecureField)
    requires
        x.wf(),
        y.wf(),
    ensures
        r == x.add_spec(y),
{
    let a = Kernel::from_u32_unchecked(x.lo.re.value, x.lo.im.value, x.hi.re.value, x.hi.im.value);
    let b = Kernel::from_u32_unchecked(y.lo.re.value, y.lo.im.value, y.hi.re.value, y.hi.im.value);
    let [r0, r1, r2, r3] = (a + b).to_m31_array();
    SecureField {
        lo: ComplexField { re: BaseField { value: r0.0 }, im: BaseField { value: r1.0 } },
        hi: ComplexField { re: BaseField { value: r2.0 }, im: BaseField { value: r3.0 } },
    }
}

/// `Neg::neg` of `stwo::core::fields::qm31::QM31`, written `-`. Not proved
/// here: on a canonical element it negates coordinate by coordinate modulo
/// `P`.
#[verifier::external_body]
fn qm31_neg(x: SecureField) -> (r: SecureField)
    requires
        x.wf(),
    ensures
        r == x.neg_spec(),
{
    let a = Kernel::from_u32_unchecked(x.lo.re.value, x.lo.im.value, x.hi.re.value, x.hi.im.value);
    let [r0, r1, r2, r3] = (-a).to_m31_array();
    SecureField {
        lo: ComplexField { re: BaseField { value: r0.0 }, im: BaseField { value: r1.0 } },
        hi: ComplexField { re: BaseField { value: r2.0 }, im: BaseField { value: r3.0 } },
    }
}

/// `Mul::mul` of `stwo::core::fields::qm31::QM31`, written `*`. Not proved
/// here: on canonical elements it is the product in
/// `CM31[u] / (u^2 - 2 - i)`, where `CM31` is `M31[i] / (i^2 + 1)` and every
/// base-field operation is taken modulo `P`.
#[verifier::external_body]
fn qm31_mul(x: SecureField, y: SecureField) -> (r: SecureField)
    requires
        x.wf(),
        y.wf(),
    ensures
        r == x.mul_spec(y),
{
    let a = Kernel::from_u32_unchecked(x.lo.re.value, x.lo.im.value, x.hi.re.value, x.hi.im.value);
    let b = Kernel::from_u32_unchecked(y.lo.re.value, y.lo.im.value, y.hi.re.value, y.hi.im.value);
    let [r0, r1, r2, r3] = (a * b).to_m31_array();
    SecureField {
        lo: ComplexField { re: BaseField { value: r0.0 }, im: BaseField { value: r1.0 } },
        hi: ComplexField { re: BaseField { value: r2.0 }, im: BaseField { value: r3.0 } },
    }
}

/// `FieldExpOps::inverse` of `stwo::core::fields` on `QM31`. It panics on
/// zero. Not proved here: on any other canonical element it returns a
/// canonical element whose product with the argument is one, and the same
/// element for the same argument.
#[verifier::external_body]
fn qm31_inverse(x: SecureField) -> (r: SecureField)
    requires
        x.wf(),
        x != SecureField::zero_spec(),
    ensures
        r == secure_inverse(x),
        r.wf(),
        r.mul_spec(x) == SecureField::one_spec(),
{
    let a = Kernel::from_u32_unchecked(x.lo.re.value, x.lo.im.value, x.hi.re.value, x.hi.im.value);
    let [r0, r1, r2, r3] = stwo::core::fields::FieldExpOps::inverse(&a).to_m31_array();
    SecureField {
        lo: ComplexField { re: BaseField { value: r0.0 }, im: BaseField { value: r1.0 } },
        hi: ComplexField { re: BaseField { value: r2.0 }, im: BaseField { value: r3.0 } },
    }
}

/// Sums are canonical.
pub proof fn lemma_add_wf(x: SecureField, y: SecureField)
    ensures
        x.add_spec(y).wf(),
{
}

/// Negations are canonical.
pub proof fn lemma_neg_wf(x: SecureField)
    ensures
        x.neg_spec().wf(),
{
}

/// Products are canonical.
pub proof fn lemma_mul_wf(x: SecureField, y: SecureField)
    ensures
        x.mul_spec(y).wf(),
{
}

} // verus!
