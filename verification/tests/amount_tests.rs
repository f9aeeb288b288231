use airdrop_merkle::amount::parse_amount;

#[test]
fn parses_simple_numerals() {
    assert_eq!(parse_amount(&b"0".to_vec()), Some(0));
    assert_eq!(parse_amount(&b"7".to_vec()), Some(7));
    assert_eq!(parse_amount(&b"200".to_vec()), Some(200));
    assert_eq!(parse_amount(&b"1000000000000000000000000".to_vec()), Some(10u128.pow(24)));
}

#[test]
fn leading_zeroes_are_plain_digits() {
    assert_eq!(parse_amount(&b"007".to_vec()), Some(7));
}

#[test]
fn rejects_empty_and_non_digits() {
    assert_eq!(parse_amount(&b"".to_vec()), None);
    assert_eq!(parse_amount(&b"12x".to_vec()), None);
    assert_eq!(parse_amount(&b"x12".to_vec()), None);
    assert_eq!(parse_amount(&b"+12".to_vec()), None);
    assert_eq!(parse_amount(&b"-12".to_vec()), None);
    assert_eq!(parse_amount(&b"1 2".to_vec()), None);
}

#[test]
fn handles_the_128_bit_boundary() {
    let max = b"340282366920938463463374607431768211455".to_vec();
    assert_eq!(parse_amount(&max), Some(u128::MAX));
    let over = b"340282366920938463463374607431768211456".to_vec();
    assert_eq!(parse_amount(&over), None);
    let way_over = b"9999999999999999999999999999999999999999999".to_vec();
    assert_eq!(parse_amount(&way_over), None);
}
