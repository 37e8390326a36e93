use tictactoe::text::u16_to_string;

#[test]
fn renders_single_digits() {
    assert_eq!(u16_to_string(0), "0");
    assert_eq!(u16_to_string(7), "7");
    assert_eq!(u16_to_string(9), "9");
}

#[test]
fn renders_multi_digit_numbers() {
    assert_eq!(u16_to_string(10), "10");
    assert_eq!(u16_to_string(100), "100");
    assert_eq!(u16_to_string(999), "999");
    assert_eq!(u16_to_string(65535), "65535");
}
