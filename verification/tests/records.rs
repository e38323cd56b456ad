use std::rc::Rc;

use bytepack::base::{ByteSize, DrainVec, LEu32, SplatVec};
use bytepack::hex::IntoHexString;
use bytepack::pack::pack_value;
use bytepack::unpack::ByteUnpack;

//  | HEX               | DECIMAL
//  | ----------------- | -----------------
//  | 0xFF00AB08        | 4278233864
//  | 0x08AB00FF        | 145424639
//  | 0x0102            | 258
//  | 0xFF00            | 65280

/// A record that is only read: `u8_field`, `u32_field`, `drain_vec_field`.
type TestUnpack = (u8, u32, DrainVec<u16>);

/// A record that is only written: `u8_field`, `u32_field`, `splat_vec_field`.
type TestPack = (u8, LEu32, SplatVec<u8>);

/// A record that is written and read: `u8_field`, `leu32_field`,
/// `arr3_u32_field`, `box2_u16_field`.
type TestStruct = (u8, LEu32, [u32; 3], Rc<[u16; 2]>);

fn new_test_struct() -> TestStruct {
    (0x05, LEu32(0xFF00AB08), [1, 2, 3], Rc::new([5, 6]))
}

#[test]
fn test_main() {
    let test_struct = new_test_struct();
    println!(
        "{}, {}, {}, {}",
        &test_struct.0.byte_size(),
        &test_struct.1.byte_size(),
        &test_struct.2.byte_size(),
        &test_struct.3.byte_size(),
    );

    println!("{:?}", &test_struct);

    let buf = pack_value(&test_struct).unwrap();

    println!("{:?}", &buf);
    println!("{:?}", buf.into_hex_string());

    let test_unpacked = TestStruct::unpack(&buf).unwrap();

    println!("{:?}", &test_unpacked);

    assert_eq!(test_struct, test_unpacked);
}

#[test]
fn test_pack() {
    let test_pack: TestPack = (0x05, LEu32(0xFF00AB08), SplatVec(vec![0x01, 0x02, 0xFF, 0x00]));

    let buf = pack_value(&test_pack).unwrap();
    println!("{:?}", &buf);
    assert_eq!(buf, vec![0x05, 0x08, 0xAB, 0x00, 0xFF, 0x01, 0x02, 0xFF, 0x00]);

    let test_unpacked = TestUnpack::unpack(&buf).unwrap();

    println!("{:?}", test_pack);
    println!("{:?}", test_unpacked);
    assert_eq!(test_unpacked.0, 0x05);
    assert_eq!(test_unpacked.1, 0x08AB00FF);
    assert_eq!(test_unpacked.2 .0, vec![0x0102, 0xFF00]);
}

#[test]
fn test_unpack() {
    let test_struct = new_test_struct();

    let buf = pack_value(&test_struct).unwrap();

    let test_unpacked = TestUnpack::unpack(&buf).unwrap();

    println!("{:?}", test_struct);
    println!("{:?}", test_unpacked);
    assert_eq!(test_unpacked.0, 0x05);
    assert_eq!(test_unpacked.1, 0x08AB00FF);
    assert_eq!(test_unpacked.2 .0, vec![0, 1, 0, 2, 0, 3, 5, 6]);
}

#[test]
fn composite_record_layout() {
    let record: (u8, LEu32, [u32; 3], [u16; 2]) = (0x05, LEu32(0xFF00AB08), [1, 2, 3], [5, 6]);
    assert_eq!(record.byte_size(), 21);
    let buf = pack_value(&record).unwrap();
    assert_eq!(
        buf,
        vec![
            0x05, // u8
            0x08, 0xAB, 0x00, 0xFF, // little-endian u32
            0, 0, 0, 1, 0, 0, 0, 2, 0, 0, 0, 3, // three big-endian u32
            0, 5, 0, 6, // two big-endian u16
        ]
    );
    let back = <(u8, LEu32, [u32; 3], [u16; 2])>::unpack(&buf).unwrap();
    assert_eq!(back, record);
    assert_eq!(buf.into_hex_string(), "0508ab00ff00000001000000020000000300050006");
}
