use immutability::format::digits;
use immutability::format::elapsed;

#[test]
fn digits_render_decimal() {
    assert_eq!(digits(0), b"0".to_vec());
    assert_eq!(digits(7), b"7".to_vec());
    assert_eq!(digits(907), b"907".to_vec());
    assert_eq!(digits(18446744073709551615), b"18446744073709551615".to_vec());
}

#[test]
fn elapsed_renders_seconds_with_two_decimals() {
    assert_eq!(elapsed(1234), b"[12.34s]".to_vec());
    assert_eq!(elapsed(0), b"[0.00s]".to_vec());
    assert_eq!(elapsed(5), b"[0.05s]".to_vec());
    assert_eq!(elapsed(100), b"[1.00s]".to_vec());
    assert_eq!(elapsed(99), b"[0.99s]".to_vec());
}
