use hexasm::from_hexstring;
use hexasm::to_hexstring;

fn text(s: &str) -> Vec<char> {
    s.chars().collect()
}

#[test]
fn encodes_lowercase_space_joined() {
    assert_eq!(to_hexstring(&[0x55, 0xc3]), text("55 c3"));
    assert_eq!(to_hexstring(&[0x0f, 0xa0, 0x07]), text("0f a0 07"));
    assert_eq!(to_hexstring(&[0x00]), text("00"));
    assert_eq!(to_hexstring(&[0xff]), text("ff"));
    assert_eq!(to_hexstring(&[]), text(""));
}

#[test]
fn decode_inverts_encode() {
    let samples: Vec<Vec<u8>> = vec![
        vec![],
        vec![0x00],
        vec![0xff],
        vec![0x55, 0xc3],
        vec![0x90, 0x0a, 0x7f, 0x80, 0x01],
    ];
    for bytes in samples {
        assert_eq!(from_hexstring(&to_hexstring(&bytes)), bytes);
    }
}

#[test]
fn decode_skips_arbitrary_whitespace() {
    assert_eq!(from_hexstring(&text(" 5 5\tc3\n")), vec![0x55, 0xc3]);
    assert_eq!(from_hexstring(&text("55   c3")), vec![0x55, 0xc3]);
    assert_eq!(from_hexstring(&text("\r\n")), vec![]);
}

#[test]
fn decode_accepts_uppercase() {
    assert_eq!(from_hexstring(&text("AB cD")), vec![0xab, 0xcd]);
}

#[test]
fn malformed_group_decodes_to_zero() {
    assert_eq!(from_hexstring(&text("5g")), vec![0x00]);
    assert_eq!(from_hexstring(&text("zz 90")), vec![0x00, 0x90]);
    assert_eq!(from_hexstring(&text("+5")), vec![0x00]);
}

#[test]
fn trailing_odd_digit_is_its_own_value() {
    assert_eq!(from_hexstring(&text("555")), vec![0x55, 0x05]);
    assert_eq!(from_hexstring(&text("5")), vec![0x05]);
    assert_eq!(from_hexstring(&text("g")), vec![0x00]);
}
