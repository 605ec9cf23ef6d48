use luster::chars::{from_digit, from_hex_digit, is_alpha, is_digit, is_newline, is_space};

#[test]
fn newline_bytes() {
    assert!(is_newline(b'\n'));
    assert!(is_newline(b'\r'));
    assert!(!is_newline(b' '));
}

#[test]
fn space_bytes() {
    for c in [b' ', b'\t', 0x0b, 0x0c, b'\n', b'\r'] {
        assert!(is_space(c));
    }
    assert!(!is_space(b'a'));
    assert!(!is_space(0));
}

#[test]
fn alpha_bytes() {
    assert!(is_alpha(b'a') && is_alpha(b'z') && is_alpha(b'A') && is_alpha(b'Z') && is_alpha(b'_'));
    assert!(!is_alpha(b'0') && !is_alpha(b'[') && !is_alpha(b'`') && !is_alpha(b'{') && !is_alpha(b'@'));
}

#[test]
fn decimal_digits() {
    assert_eq!(from_digit(b'0'), Some(0));
    assert_eq!(from_digit(b'9'), Some(9));
    assert_eq!(from_digit(b'/'), None);
    assert_eq!(from_digit(b':'), None);
    assert!(is_digit(b'5'));
    assert!(!is_digit(b'a'));
}

#[test]
fn hexadecimal_digits() {
    assert_eq!(from_hex_digit(b'0'), Some(0));
    assert_eq!(from_hex_digit(b'9'), Some(9));
    assert_eq!(from_hex_digit(b'a'), Some(10));
    assert_eq!(from_hex_digit(b'f'), Some(15));
    assert_eq!(from_hex_digit(b'A'), Some(10));
    assert_eq!(from_hex_digit(b'F'), Some(15));
    assert_eq!(from_hex_digit(b'g'), None);
    assert_eq!(from_hex_digit(b'G'), None);
    assert_eq!(from_hex_digit(b'@'), None);
    assert_eq!(from_hex_digit(b'`'), None);
}
