use bytepack::base::{
    ByteSize, ConstByteSize, LEi128, LEi16, LEi32, LEi64, LEu128, LEu16, LEu32, LEu64,
};
use bytepack::endian::{get_be, get_le, i16_from_bits, i16_to_bits, put_be, put_le};
use bytepack::error::Error;
use bytepack::pack::{pack_value, BytePack};
use bytepack::unpack::ByteUnpack;

#[test]
fn endian_law_u16() {
    assert_eq!(pack_value(&0x0102u16).unwrap(), vec![0x01, 0x02]);
    assert_eq!(pack_value(&LEu16(0x0102)).unwrap(), vec![0x02, 0x01]);
}

#[test]
fn big_endian_unsigned_layouts() {
    assert_eq!(pack_value(&0xABu8).unwrap(), vec![0xAB]);
    assert_eq!(pack_value(&0xFF00AB08u32).unwrap(), vec![0xFF, 0x00, 0xAB, 0x08]);
    assert_eq!(
        pack_value(&0x0102030405060708u64).unwrap(),
        vec![1, 2, 3, 4, 5, 6, 7, 8]
    );
    assert_eq!(
        pack_value(&0x0102030405060708090A0B0C0D0E0F10u128).unwrap(),
        vec![1, 2, 3, 4, 5, 6, 7, 8, 9, 10, 11, 12, 13, 14, 15, 16]
    );
}

#[test]
fn little_endian_unsigned_layouts() {
    assert_eq!(pack_value(&LEu32(0xFF00AB08)).unwrap(), vec![0x08, 0xAB, 0x00, 0xFF]);
    assert_eq!(
        pack_value(&LEu64(0x0102030405060708)).unwrap(),
        vec![8, 7, 6, 5, 4, 3, 2, 1]
    );
    assert_eq!(
        pack_value(&LEu128(0x0102030405060708090A0B0C0D0E0F10)).unwrap(),
        vec![16, 15, 14, 13, 12, 11, 10, 9, 8, 7, 6, 5, 4, 3, 2, 1]
    );
}

#[test]
fn signed_integers_are_twos_complement() {
    assert_eq!(pack_value(&-1i8).unwrap(), vec![0xFF]);
    assert_eq!(pack_value(&i8::MIN).unwrap(), vec![0x80]);
    assert_eq!(pack_value(&-2i16).unwrap(), vec![0xFF, 0xFE]);
    assert_eq!(pack_value(&i32::MIN).unwrap(), vec![0x80, 0, 0, 0]);
    assert_eq!(pack_value(&-1i64).unwrap(), vec![0xFF; 8]);
    assert_eq!(pack_value(&i128::MIN).unwrap()[0], 0x80);
    assert_eq!(pack_value(&LEi16(-2)).unwrap(), vec![0xFE, 0xFF]);
    assert_eq!(pack_value(&LEi32(-256)).unwrap(), vec![0x00, 0xFF, 0xFF, 0xFF]);
    assert_eq!(pack_value(&LEi64(1)).unwrap(), vec![1, 0, 0, 0, 0, 0, 0, 0]);
    assert_eq!(pack_value(&LEi128(-1)).unwrap(), vec![0xFF; 16]);
}

#[test]
fn integers_match_the_standard_conversions() {
    for x in [0u64, 1, 0xFF, 0x100, 0xDEADBEEF, u64::MAX] {
        assert_eq!(pack_value(&x).unwrap(), x.to_be_bytes().to_vec());
        assert_eq!(pack_value(&LEu64(x)).unwrap(), x.to_le_bytes().to_vec());
        assert_eq!(u64::unpack(&x.to_be_bytes()).unwrap(), x);
        assert_eq!(LEu64::unpack(&x.to_le_bytes()).unwrap(), LEu64(x));
    }
    for x in [i128::MIN, -1, 0, 1, i128::MAX, -0x1234_5678_9ABC] {
        assert_eq!(pack_value(&x).unwrap(), x.to_be_bytes().to_vec());
        assert_eq!(pack_value(&LEi128(x)).unwrap(), x.to_le_bytes().to_vec());
        assert_eq!(i128::unpack(&x.to_be_bytes()).unwrap(), x);
        assert_eq!(LEi128::unpack(&x.to_le_bytes()).unwrap(), LEi128(x));
    }
    for x in [i16::MIN, -1, 0, 1, i16::MAX] {
        assert_eq!(pack_value(&x).unwrap(), x.to_be_bytes().to_vec());
        assert_eq!(i16::unpack(&x.to_be_bytes()).unwrap(), x);
        assert_eq!(LEi16::unpack(&x.to_le_bytes()).unwrap(), LEi16(x));
    }
    for x in [i32::MIN, -1, 0, 1, i32::MAX] {
        assert_eq!(i32::unpack(&x.to_be_bytes()).unwrap(), x);
        assert_eq!(LEi32::unpack(&x.to_le_bytes()).unwrap(), LEi32(x));
    }
    for x in [i64::MIN, -1, 0, 1, i64::MAX] {
        assert_eq!(i64::unpack(&x.to_be_bytes()).unwrap(), x);
        assert_eq!(LEi64::unpack(&x.to_le_bytes()).unwrap(), LEi64(x));
    }
    for x in [i8::MIN, -1, 0, 1, i8::MAX] {
        assert_eq!(i8::unpack(&x.to_be_bytes()).unwrap(), x);
    }
    for x in [0u128, 1, u128::MAX, 1 << 127] {
        assert_eq!(u128::unpack(&x.to_be_bytes()).unwrap(), x);
        assert_eq!(LEu128::unpack(&x.to_le_bytes()).unwrap(), LEu128(x));
    }
}

#[test]
fn integer_round_trips() {
    assert_eq!(u8::unpack(&pack_value(&0xABu8).unwrap()).unwrap(), 0xAB);
    assert_eq!(u16::unpack(&pack_value(&0xABCDu16).unwrap()).unwrap(), 0xABCD);
    assert_eq!(u32::unpack(&pack_value(&0xFF00AB08u32).unwrap()).unwrap(), 0xFF00AB08);
    assert_eq!(LEu16::unpack(&pack_value(&LEu16(0x0102)).unwrap()).unwrap(), LEu16(0x0102));
    assert_eq!(LEu32::unpack(&pack_value(&LEu32(0xFF00AB08)).unwrap()).unwrap(), LEu32(0xFF00AB08));
    assert_eq!(i16::unpack(&pack_value(&-12345i16).unwrap()).unwrap(), -12345);
}

#[test]
fn constant_sizes() {
    assert_eq!(u8::const_byte_size(), 1);
    assert_eq!(u16::const_byte_size(), 2);
    assert_eq!(u32::const_byte_size(), 4);
    assert_eq!(u64::const_byte_size(), 8);
    assert_eq!(u128::const_byte_size(), 16);
    assert_eq!(i8::const_byte_size(), 1);
    assert_eq!(i16::const_byte_size(), 2);
    assert_eq!(i32::const_byte_size(), 4);
    assert_eq!(i64::const_byte_size(), 8);
    assert_eq!(i128::const_byte_size(), 16);
    assert_eq!(LEu16::const_byte_size(), 2);
    assert_eq!(LEu32::const_byte_size(), 4);
    assert_eq!(LEu64::const_byte_size(), 8);
    assert_eq!(LEu128::const_byte_size(), 16);
    assert_eq!(LEi16::const_byte_size(), 2);
    assert_eq!(LEi32::const_byte_size(), 4);
    assert_eq!(LEi64::const_byte_size(), 8);
    assert_eq!(LEi128::const_byte_size(), 16);
    assert_eq!(7u32.byte_size(), 4);
    assert_eq!(LEi64(7).byte_size(), 8);
}

#[test]
fn write_touches_exactly_the_size() {
    let mut buf = [0xEEu8; 6];
    assert_eq!(0x0102u16.pack(&mut buf), Ok(()));
    assert_eq!(buf, [0x01, 0x02, 0xEE, 0xEE, 0xEE, 0xEE]);
    assert_eq!(LEu32(0x0A0B0C0D).pack(&mut buf), Ok(()));
    assert_eq!(buf, [0x0D, 0x0C, 0x0B, 0x0A, 0xEE, 0xEE]);
}

#[test]
fn write_into_short_region_is_refused() {
    let mut buf = [0xEEu8; 3];
    assert_eq!(0x01020304u32.pack(&mut buf), Err(Error::BufferTooSmall));
    assert_eq!(buf, [0xEE; 3]);
    assert_eq!(LEu64(1).pack(&mut buf), Err(Error::BufferTooSmall));
    assert_eq!(1u8.pack(&mut buf[..0]), Err(Error::BufferTooSmall));
    assert_eq!(buf, [0xEE; 3]);
}

#[test]
fn read_from_short_region_is_truncated() {
    assert_eq!(u8::unpack(&[]), Err(Error::Truncated));
    assert_eq!(u16::unpack(&[1]), Err(Error::Truncated));
    assert_eq!(u32::unpack(&[1, 2, 3]), Err(Error::Truncated));
    assert_eq!(LEu64::unpack(&[1, 2, 3, 4, 5, 6, 7]), Err(Error::Truncated));
    assert_eq!(i128::unpack(&[0; 15]), Err(Error::Truncated));
}

#[test]
fn read_ignores_what_follows() {
    assert_eq!(u16::unpack(&[0x01, 0x02, 0xFF, 0xFF]), Ok(0x0102));
    assert_eq!(LEu16::unpack(&[0x01, 0x02, 0xFF, 0xFF]), Ok(LEu16(0x0201)));
}

#[test]
fn raw_digit_access() {
    let mut buf = [0u8; 5];
    put_be(0x010203, 3, &mut buf);
    assert_eq!(buf, [1, 2, 3, 0, 0]);
    put_le(0x010203, 3, &mut buf);
    assert_eq!(buf, [3, 2, 1, 0, 0]);
    // The digits above the width are dropped.
    put_be(0xAABBCC, 2, &mut buf);
    assert_eq!(buf, [0xBB, 0xCC, 1, 0, 0]);
    assert_eq!(get_be(&[1, 2, 3, 9], 3), 0x010203);
    assert_eq!(get_le(&[1, 2, 3, 9], 3), 0x030201);
    assert_eq!(get_be(&[9], 0), 0);
    assert_eq!(i16_to_bits(-1), 0xFFFF);
    assert_eq!(i16_to_bits(5), 5);
    assert_eq!(i16_from_bits(0x8000), i16::MIN);
    assert_eq!(i16_from_bits(0x7FFF), i16::MAX);
}
