use sha256_air::field::BaseField;
use sha256_air::field::SecureField;
use sha256_air::field::P;
use sha256_air::relation::Relation;
use sha256_air::relation::RelationError;
use stwo_constraint_framework::logup::LookupElements;

type M31 = stwo::core::fields::m31::M31;
type QM31 = stwo::core::fields::qm31::QM31;

fn q(a: u32, b: u32, c: u32, d: u32) -> SecureField {
    SecureField::new(a, b, c, d).unwrap()
}

fn b(v: u32) -> BaseField {
    BaseField::new(v).unwrap()
}

fn relation(arity: usize) -> Relation {
    Relation::new("range".to_string(), arity, q(1, 2, 3, 4), q(4, 3, 2, 1))
}

#[test]
fn relation_holds_the_powers_of_alpha() {
    let r = relation(4);
    assert_eq!(r.name(), "range");
    assert_eq!(r.arity(), 4);
    assert_eq!(r.z, q(1, 2, 3, 4));
    assert_eq!(r.alpha, q(4, 3, 2, 1));
    assert_eq!(
        r.alpha_powers,
        vec![
            q(1, 0, 0, 0),
            q(4, 3, 2, 1),
            q(9, 35, 10, 20),
            q(2147483528, 267, 2147483610, 189),
        ]
    );
}

#[test]
fn relation_of_arity_zero_has_no_powers() {
    let r = relation(0);
    assert_eq!(r.arity(), 0);
    assert!(r.alpha_powers.is_empty());
}

#[test]
fn combine_is_the_weighted_sum_less_z() {
    let r = relation(3);
    assert_eq!(
        r.combine(&[b(123), b(456), b(789)]),
        Ok(q(9047, 28981, 8799, 16232))
    );
}

#[test]
fn combine_accepts_fewer_values_than_the_arity() {
    let r = relation(3);
    assert_eq!(r.combine(&[b(5)]), Ok(q(4, P - 2, P - 3, P - 4)));
    assert_eq!(r.combine(&[]), Ok(q(P - 1, P - 2, P - 3, P - 4)));
}

#[test]
fn combine_refuses_more_values_than_the_arity() {
    let r = relation(2);
    assert_eq!(
        r.combine(&[b(1), b(2), b(3)]),
        Err(RelationError::TooManyValues { count: 3, arity: 2 })
    );
}

#[test]
fn combine_agrees_with_the_lookup_elements_of_the_framework() {
    let elements = LookupElements::<3>::dummy();
    let [z0, z1, z2, z3] = elements.z.to_m31_array().map(|m| m.0);
    let [a0, a1, a2, a3] = elements.alpha.to_m31_array().map(|m| m.0);
    let r = Relation::new("dummy".to_string(), 3, q(z0, z1, z2, z3), q(a0, a1, a2, a3));
    let powers: Vec<[u32; 4]> = r.alpha_powers.iter().map(|p| p.coords()).collect();
    let expected_powers: Vec<[u32; 4]> = elements
        .alpha_powers
        .iter()
        .map(|p| p.to_m31_array().map(|m| m.0))
        .collect();
    assert_eq!(powers, expected_powers);
    let rows: [[u32; 3]; 3] = [[123, 456, 789], [0, 0, 0], [P - 1, 1, P - 2]];
    for row in rows {
        let values: Vec<BaseField> = row.iter().map(|v| b(*v)).collect();
        let kernel_values: Vec<M31> = row.iter().map(|v| M31::from_u32_unchecked(*v)).collect();
        let expected: QM31 = elements.combine::<M31, QM31>(&kernel_values);
        assert_eq!(
            r.combine(&values).unwrap().coords(),
            expected.to_m31_array().map(|m| m.0)
        );
    }
}

#[test]
fn combine_rows_combines_row_by_row() {
    let r = relation(2);
    let columns = vec![vec![1u32, 2], vec![3u32, 4]];
    assert_eq!(
        r.combine_rows(&columns),
        Ok(vec![q(12, 7, 3, P - 1), q(17, 10, 5, 0)])
    );
}

#[test]
fn combine_rows_takes_the_row_count_from_the_first_column() {
    let r = relation(2);
    let columns = vec![vec![1u32], vec![3u32, 4, 5]];
    assert_eq!(r.combine_rows(&columns), Ok(vec![q(12, 7, 3, P - 1)]));
    let none = vec![vec![], vec![3u32, 4, 5]];
    assert_eq!(r.combine_rows(&none), Ok(vec![]));
}

#[test]
fn combine_rows_refuses_no_columns() {
    let r = relation(2);
    assert_eq!(r.combine_rows(&[]), Err(RelationError::NoColumns));
}

#[test]
fn combine_rows_refuses_too_many_columns() {
    let r = relation(1);
    let columns = vec![vec![1u32], vec![2u32]];
    assert_eq!(
        r.combine_rows(&columns),
        Err(RelationError::TooManyValues { count: 2, arity: 1 })
    );
}

#[test]
fn combine_rows_refuses_a_column_shorter_than_the_first() {
    let r = relation(3);
    let columns = vec![vec![1u32, 2], vec![3u32, 4], vec![5u32]];
    assert_eq!(
        r.combine_rows(&columns),
        Err(RelationError::ShortColumn { column: 2 })
    );
}

#[test]
fn draw_takes_z_then_alpha_from_the_channel() {
    let mut channel = stwo::core::channel::Blake2sChannel::default();
    stwo::core::channel::Channel::mix_u64(&mut channel, 2024);
    let mut reference = channel.clone();
    let r = Relation::draw("xor".to_string(), 3, &mut channel);
    let elements = LookupElements::<3>::draw(&mut reference);
    assert_eq!(r.name(), "xor");
    assert_eq!(r.arity(), 3);
    assert_eq!(r.z.coords(), elements.z.to_m31_array().map(|m| m.0));
    assert_eq!(r.alpha.coords(), elements.alpha.to_m31_array().map(|m| m.0));
    let powers: Vec<[u32; 4]> = r.alpha_powers.iter().map(|p| p.coords()).collect();
    let expected: Vec<[u32; 4]> = elements
        .alpha_powers
        .iter()
        .map(|p| p.to_m31_array().map(|m| m.0))
        .collect();
    assert_eq!(powers, expected);
    assert_ne!(r.z, r.alpha);
    let next = stwo::core::channel::Channel::draw_secure_felt(&mut channel);
    let reference_next = stwo::core::channel::Channel::draw_secure_felt(&mut reference);
    assert_eq!(next, reference_next);
}

#[test]
fn draw_depends_on_the_transcript() {
    let mut first = stwo::core::channel::Blake2sChannel::default();
    let mut second = stwo::core::channel::Blake2sChannel::default();
    stwo::core::channel::Channel::mix_u64(&mut second, 1);
    let a = Relation::draw("xor".to_string(), 2, &mut first);
    let b = Relation::draw("xor".to_string(), 2, &mut second);
    assert_ne!(a.z, b.z);
    let again = Relation::draw("xor".to_string(), 2, &mut first);
    assert_ne!(a.z, again.z);
}
