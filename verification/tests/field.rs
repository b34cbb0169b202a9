use sha256_air::field::BaseField;
use sha256_air::field::SecureField;
use sha256_air::field::P;

fn q(a: u32, b: u32, c: u32, d: u32) -> SecureField {
    SecureField::new(a, b, c, d).unwrap()
}

#[test]
fn base_field_accepts_only_residues_below_the_modulus() {
    assert_eq!(BaseField::new(0).map(|x| x.value()), Some(0));
    assert_eq!(BaseField::new(P - 1).map(|x| x.value()), Some(P - 1));
    assert!(BaseField::new(P).is_none());
    assert!(BaseField::new(u32::MAX).is_none());
    assert_eq!(BaseField::from_canonical(17).value(), 17);
}

#[test]
fn modulus_is_the_modulus_of_the_field_kernel() {
    assert_eq!(P, stwo::core::fields::m31::P);
    assert_eq!(P, (1u32 << 31) - 1);
}

#[test]
fn secure_field_rejects_non_canonical_coordinates() {
    assert!(SecureField::new(P, 0, 0, 0).is_none());
    assert!(SecureField::new(0, P, 0, 0).is_none());
    assert!(SecureField::new(0, 0, P, 0).is_none());
    assert!(SecureField::new(0, 0, 0, P + 5).is_none());
    assert!(SecureField::new(P - 1, P - 1, P - 1, P - 1).is_some());
}

#[test]
fn secure_field_coordinates_come_back_in_order() {
    assert_eq!(q(1, 2, 3, 4).coords(), [1, 2, 3, 4]);
    assert_eq!(SecureField::zero().coords(), [0, 0, 0, 0]);
    assert_eq!(SecureField::one().coords(), [1, 0, 0, 0]);
    assert_eq!(SecureField::from_base(BaseField::from_canonical(9)).coords(), [9, 0, 0, 0]);
}

#[test]
fn secure_field_zero_test() {
    assert!(SecureField::zero().is_zero());
    assert!(!SecureField::one().is_zero());
    assert!(!q(0, 0, 0, 1).is_zero());
}

#[test]
fn secure_field_addition_wraps_at_the_modulus() {
    let x = q(P - 1, 5, 0, 7);
    let y = q(2, P - 5, 0, 1);
    assert_eq!(x.add(y), q(1, 0, 0, 8));
    assert_ne!(x.add(y), x);
}

#[test]
fn secure_field_negation_of_zero_is_zero() {
    assert_eq!(SecureField::zero().neg(), SecureField::zero());
    assert_eq!(q(1, 2, 3, 4).neg(), q(P - 1, P - 2, P - 3, P - 4));
}

#[test]
fn secure_field_subtraction_adds_the_negation() {
    assert_eq!(q(1, 2, 3, 4).sub(q(2, 2, 5, 0)), q(P - 1, 0, P - 2, 4));
    assert_eq!(q(9, 9, 9, 9).sub(q(9, 9, 9, 9)), SecureField::zero());
}

#[test]
fn secure_field_product_follows_the_extension_rule() {
    // u * u = 2 + i
    let u = q(0, 0, 1, 0);
    assert_eq!(u.mul(u), q(2, 1, 0, 0));
    // i * i = -1
    let i = q(0, 1, 0, 0);
    assert_eq!(i.mul(i), q(P - 1, 0, 0, 0));
    let x = q(1, 2, 3, 4);
    let y = q(5, 6, 7, 8);
    assert_eq!(x.mul(y), q(P - 81, 109, P - 18, 60));
    assert_eq!(y.mul(x), q(P - 81, 109, P - 18, 60));
}

#[test]
fn secure_field_product_with_one_and_minus_one() {
    let y = q(11, 22, 33, 44);
    assert_eq!(SecureField::one().mul(y), y);
    assert_eq!(SecureField::one().neg().mul(y), y.neg());
    assert_eq!(SecureField::one().neg(), q(P - 1, 0, 0, 0));
}

#[test]
fn secure_field_inverse_times_element_is_one() {
    let x = q(1, 2, 3, 4);
    let inv = x.inverse();
    assert_eq!(inv, q(1855247052, 856841008, 1588674294, 1863525709));
    assert_eq!(inv.mul(x), SecureField::one());
    assert!(SecureField::zero().checked_inverse().is_none());
    assert_eq!(x.checked_inverse(), Some(inv));
}

#[test]
fn secure_field_add_scaled_adds_one_term() {
    let acc = q(1, 1, 1, 1);
    let n = q(2, 0, 0, 0);
    let inv = q(0, 3, 0, 0);
    assert_eq!(acc.add_scaled(n, inv), q(1, 7, 1, 1));
}

#[test]
fn secure_field_agrees_with_the_field_kernel() {
    let xs = [q(1, 2, 3, 4), q(P - 1, 0, 17, P - 2), q(123456, 7, 0, 99)];
    for x in xs {
        for y in xs {
            let [a, b, c, d] = x.coords();
            let [e, f, g, h] = y.coords();
            let kx = stwo::core::fields::qm31::QM31::from_u32_unchecked(a, b, c, d);
            let ky = stwo::core::fields::qm31::QM31::from_u32_unchecked(e, f, g, h);
            let sum = (kx + ky).to_m31_array().map(|m| m.0);
            let product = (kx * ky).to_m31_array().map(|m| m.0);
            let difference = (kx - ky).to_m31_array().map(|m| m.0);
            assert_eq!(x.add(y).coords(), sum);
            assert_eq!(x.mul(y).coords(), product);
            assert_eq!(x.sub(y).coords(), difference);
        }
    }
}

#[test]
fn canonical_test_reads_every_coordinate() {
    assert!(q(P - 1, 0, 0, 0).is_canonical());
    let mut x = q(1, 2, 3, 4);
    x.hi.im.value = P;
    assert!(!x.is_canonical());
    let mut y = q(1, 2, 3, 4);
    y.lo.re.value = u32::MAX;
    assert!(!y.is_canonical());
}
