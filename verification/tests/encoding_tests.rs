use airdrop_merkle::encoding::encode_record;

#[test]
fn encodes_length_prefixed_fields() {
    let bytes = encode_record(&b"alice".to_vec(), &b"100".to_vec());
    let expected = vec![
        5u8, 0, 0, 0, b'a', b'l', b'i', b'c', b'e', 3, 0, 0, 0, b'1', b'0', b'0',
    ];
    assert_eq!(bytes, expected);
}

#[test]
fn encodes_empty_fields() {
    let bytes = encode_record(&Vec::new(), &Vec::new());
    assert_eq!(bytes, vec![0u8, 0, 0, 0, 0, 0, 0, 0]);
}

#[test]
fn length_prefix_is_little_endian() {
    let account = vec![b'a'; 300];
    let bytes = encode_record(&account, &b"1".to_vec());
    assert_eq!(&bytes[0..4], &[44u8, 1, 0, 0]);
}

#[test]
fn shifted_field_boundaries_do_not_collide() {
    // Without length prefixes these two records would concatenate alike.
    let one = encode_record(&b"ab".to_vec(), &b"c1".to_vec());
    let other = encode_record(&b"a".to_vec(), &b"bc1".to_vec());
    assert_ne!(one, other);
}
