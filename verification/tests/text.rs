use bytepack::base::ByteSize;
use bytepack::error::Error;
use bytepack::pack::{copy_into, pack_value, BytePack};
use bytepack::unpack::ByteUnpack;

#[test]
fn text_layout() {
    let text = "ab".to_string();
    assert_eq!(text.byte_size(), 6);
    let buf = pack_value(&text).unwrap();
    assert_eq!(buf, vec![0x00, 0x00, 0x00, 0x02, 0x61, 0x62]);
    assert_eq!(String::unpack(&buf).unwrap(), "ab");
}

#[test]
fn text_with_invalid_utf8_is_refused() {
    let buf = [0x00, 0x00, 0x00, 0x02, 0xFF, 0xFE];
    assert_eq!(String::unpack(&buf), Err(Error::InvalidEncoding));
    // A scalar cut in half is no text either.
    assert_eq!(String::unpack(&[0, 0, 0, 1, 0xC3, 0xA9]), Err(Error::InvalidEncoding));
}

#[test]
fn text_of_several_bytes_per_character() {
    let text = "h\u{e9}\u{20ac}\u{1f600}".to_string();
    assert_eq!(text.byte_size(), 4 + 1 + 2 + 3 + 4);
    let buf = pack_value(&text).unwrap();
    assert_eq!(&buf[..4], &[0, 0, 0, 10]);
    assert_eq!(&buf[4..], text.as_bytes());
    assert_eq!(String::unpack(&buf).unwrap(), text);
}

#[test]
fn text_edges() {
    assert_eq!(pack_value(&String::new()).unwrap(), vec![0, 0, 0, 0]);
    assert_eq!(String::unpack(&[0, 0, 0, 0]).unwrap(), "");
    assert_eq!(String::unpack(&[0, 0, 0]), Err(Error::Truncated));
    assert_eq!(String::unpack(&[0, 0, 0, 3, b'a', b'b']), Err(Error::Truncated));
    // What follows the text is not looked at.
    assert_eq!(String::unpack(&[0, 0, 0, 1, b'a', 0xFF]).unwrap(), "a");
    let mut region = [0xEEu8; 5];
    assert_eq!("ab".to_string().pack(&mut region), Err(Error::BufferTooSmall));
    assert_eq!(region, [0xEE; 5]);
    let mut region = [0xEEu8; 7];
    assert_eq!("ab".to_string().pack(&mut region), Ok(()));
    assert_eq!(region, [0, 0, 0, 2, b'a', b'b', 0xEE]);
}

#[test]
fn copy_into_the_middle() {
    let mut region = [0u8; 6];
    copy_into(&[1, 2, 3], &mut region, 2);
    assert_eq!(region, [0, 0, 1, 2, 3, 0]);
    copy_into(&[], &mut region, 6);
    assert_eq!(region, [0, 0, 1, 2, 3, 0]);
}
