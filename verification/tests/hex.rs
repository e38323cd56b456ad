use bytepack::hex::{
    encode_as_hex_string, hexchar_repr, u8_to_hex_string, HexStringError, IntoHexString,
};

#[test]
fn hex_digits_by_value() {
    let digits = "0123456789abcdef";
    for (value, digit) in digits.chars().enumerate() {
        assert_eq!(hexchar_repr(&(value as u8)), Ok(digit));
    }
}

#[test]
fn values_from_sixteen_have_no_digit() {
    assert_eq!(hexchar_repr(&16), Err(HexStringError::InvalidHexChar(16)));
    assert_eq!(hexchar_repr(&255), Err(HexStringError::InvalidHexChar(255)));
}

#[test]
fn byte_as_two_digits() {
    assert_eq!(u8_to_hex_string(&0x00), ['0', '0']);
    assert_eq!(u8_to_hex_string(&0x0f), ['0', 'f']);
    assert_eq!(u8_to_hex_string(&0xa5), ['a', '5']);
    assert_eq!(u8_to_hex_string(&0xff), ['f', 'f']);
}

#[test]
fn bytes_as_hex_text() {
    assert_eq!(encode_as_hex_string(&[]), "");
    assert_eq!(encode_as_hex_string(&[0x05, 0x08, 0xAB, 0x00, 0xFF]), "0508ab00ff");
    assert_eq!([0xDEu8, 0xAD, 0xBE, 0xEF][..].into_hex_string(), "deadbeef");
    for b in 0..=255u8 {
        assert_eq!(encode_as_hex_string(&[b]), format!("{:02x}", b));
    }
}
