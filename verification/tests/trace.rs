use sha256_air::field::P;
use sha256_air::trace::exact_log2;
use sha256_air::trace::pack_lanes;
use sha256_air::trace::unpack_lanes;
use sha256_air::trace::TraceColumn;
use sha256_air::trace::TraceError;
use sha256_air::trace::LOG_N_LANES;
use sha256_air::trace::N_LANES;

#[test]
fn exact_log2_finds_powers_of_two_only() {
    assert_eq!(exact_log2(0), None);
    assert_eq!(exact_log2(1), Some(0));
    assert_eq!(exact_log2(2), Some(1));
    assert_eq!(exact_log2(3), None);
    assert_eq!(exact_log2(16), Some(4));
    assert_eq!(exact_log2(24), None);
    assert_eq!(exact_log2(1 << 20), Some(20));
    assert_eq!(exact_log2((1 << 20) + 1), None);
    assert_eq!(exact_log2(usize::MAX), None);
    assert_eq!(exact_log2(1usize << (usize::BITS - 1)), Some(usize::BITS - 1));
}

#[test]
fn lanes_are_sixteen() {
    assert_eq!(N_LANES, 1usize << LOG_N_LANES);
}

#[test]
fn column_from_words_keeps_the_words() {
    let words: Vec<u32> = vec![5, 0, P - 1, 7];
    let column = TraceColumn::from_words(&words).unwrap();
    assert_eq!(column.log_size(), 2);
    assert_eq!(column.len(), 4);
    let values: Vec<u32> = column.values.iter().map(|v| v.value()).collect();
    assert_eq!(values, words);
}

#[test]
fn column_from_words_refuses_a_length_that_is_no_power_of_two() {
    let words: Vec<u32> = vec![1, 2, 3];
    assert_eq!(
        TraceColumn::from_words(&words).unwrap_err(),
        TraceError::NotPowerOfTwo { len: 3 }
    );
    let empty: Vec<u32> = vec![];
    assert_eq!(
        TraceColumn::from_words(&empty).unwrap_err(),
        TraceError::NotPowerOfTwo { len: 0 }
    );
}

#[test]
fn column_from_words_refuses_the_first_word_outside_the_field() {
    let words: Vec<u32> = vec![1, P, 3, u32::MAX];
    assert_eq!(
        TraceColumn::from_words(&words).unwrap_err(),
        TraceError::NotInField { row: 1, value: P }
    );
}

#[test]
fn column_length_is_checked_before_the_words() {
    let words: Vec<u32> = vec![P, 2, 3];
    assert_eq!(
        TraceColumn::from_words(&words).unwrap_err(),
        TraceError::NotPowerOfTwo { len: 3 }
    );
}

#[test]
fn pack_lanes_splits_rows_into_batches_of_sixteen() {
    let words: Vec<u32> = (0..48).collect();
    let packed = pack_lanes(&words).unwrap();
    assert_eq!(packed.len(), 3);
    for (i, batch) in packed.iter().enumerate() {
        let expected: Vec<u32> = (16 * i as u32..16 * i as u32 + 16).collect();
        assert_eq!(batch.to_vec(), expected);
    }
    assert_eq!(unpack_lanes(&packed), words);
}

#[test]
fn pack_lanes_refuses_an_incomplete_batch() {
    let words: Vec<u32> = (0..17).collect();
    assert!(pack_lanes(&words).is_none());
    assert!(pack_lanes(&words[..15]).is_none());
    assert_eq!(pack_lanes(&words[..16]).map(|p| p.len()), Some(1));
    assert_eq!(pack_lanes(&[]).map(|p| p.len()), Some(0));
}

#[test]
fn unpack_lanes_lays_batches_out_in_order() {
    let first: [u32; 16] = [7; 16];
    let mut second: [u32; 16] = [0; 16];
    second[15] = 9;
    let words = unpack_lanes(&[first, second]);
    assert_eq!(words.len(), 32);
    assert_eq!(&words[..16], &first);
    assert_eq!(&words[16..], &second);
    assert!(unpack_lanes(&[]).is_empty());
}
