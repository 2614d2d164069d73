use paxos_replication::byte_order::{le_decode, le_encode, reversed};

#[test]
fn integers_are_written_least_significant_first() {
    assert_eq!(le_encode(0, 4), vec![0, 0, 0, 0]);
    assert_eq!(le_encode(2, 4), vec![2, 0, 0, 0]);
    assert_eq!(le_encode(0x0102_0304, 4), vec![4, 3, 2, 1]);
    assert_eq!(le_encode(1024, 8), vec![0, 4, 0, 0, 0, 0, 0, 0]);
    assert_eq!(le_encode(u64::MAX as u128, 8), vec![255; 8]);
    assert_eq!(le_encode(u128::MAX, 16), vec![255; 16]);
    assert_eq!(le_encode(7, 0), Vec::<u8>::new());
}

#[test]
fn a_value_that_does_not_fit_loses_its_upper_part() {
    assert_eq!(le_encode(0x0102_0304, 2), vec![4, 3]);
    assert_eq!(le_encode(256, 1), vec![0]);
}

#[test]
fn a_wider_field_is_padded_with_zeros() {
    let mut expected = vec![255u8; 16];
    expected.extend(vec![0u8; 4]);
    assert_eq!(le_encode(u128::MAX, 20), expected);
}

#[test]
fn integers_are_read_back() {
    assert_eq!(le_decode(&[]), 0);
    assert_eq!(le_decode(&[4, 3, 2, 1]), 0x0102_0304);
    assert_eq!(le_decode(&[0, 4, 0, 0, 0, 0, 0, 0]), 1024);
    assert_eq!(le_decode(&[255; 16]), u128::MAX);
    for value in [0u128, 1, 255, 256, 65535, 1 << 64, u128::MAX - 1] {
        assert_eq!(le_decode(&le_encode(value, 16)), value);
    }
}

#[test]
fn reversal_turns_the_bytes_round() {
    assert_eq!(reversed(&[1, 2, 3]), vec![3, 2, 1]);
    assert_eq!(reversed(&[]), Vec::<u8>::new());
    assert_eq!(reversed(&reversed(&[9, 8, 7, 6])), vec![9, 8, 7, 6]);
}
