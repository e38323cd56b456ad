use std::rc::Rc;
use std::sync::Arc;

use bytepack::base::{
    ByteSize, ConstByteSize, DrainVec, LEu16, SizedVec, SplatDrain, SplatVec, Throw,
};
use bytepack::error::Error;
use bytepack::pack::{all_can_pack, pack_all, pack_field, pack_value, write_all, BytePack};
use bytepack::unpack::{unpack_count, unpack_field, unpack_to_end, ByteUnpack};

#[test]
fn sized_vec_layout() {
    let v: SizedVec<u8> = SizedVec(vec![0x01, 0x02, 0xFF]);
    assert_eq!(v.byte_size(), 7);
    let buf = pack_value(&v).unwrap();
    assert_eq!(buf, vec![0x00, 0x00, 0x00, 0x03, 0x01, 0x02, 0xFF]);
    let back = SizedVec::<u8>::unpack(&buf).unwrap();
    assert_eq!(back.0, vec![0x01, 0x02, 0xFF]);
}

#[test]
fn sized_vec_truncated_input() {
    let buf = [0x00, 0x00, 0x00, 0x03, 0x01, 0x02, 0xFF];
    assert!(matches!(SizedVec::<u8>::unpack(&buf[..5]), Err(Error::Truncated)));
    assert!(matches!(SizedVec::<u8>::unpack(&buf[..3]), Err(Error::Truncated)));
    assert!(matches!(SizedVec::<u16>::unpack(&buf), Err(Error::Truncated)));
}

#[test]
fn sized_vec_of_wider_elements() {
    let v: SizedVec<LEu16> = SizedVec(vec![LEu16(0x0102), LEu16(0x0304)]);
    let buf = pack_value(&v).unwrap();
    assert_eq!(buf, vec![0, 0, 0, 2, 0x02, 0x01, 0x04, 0x03]);
    assert_eq!(SizedVec::<LEu16>::unpack(&buf).unwrap().0, v.0);
    let empty: SizedVec<u32> = SizedVec(vec![]);
    assert_eq!(pack_value(&empty).unwrap(), vec![0, 0, 0, 0]);
    assert_eq!(SizedVec::<u32>::unpack(&[0, 0, 0, 0, 9, 9]).unwrap().0, Vec::<u32>::new());
}

#[test]
fn sized_vec_nested() {
    let v: SizedVec<SizedVec<u8>> =
        SizedVec(vec![SizedVec(vec![7]), SizedVec(vec![]), SizedVec(vec![8, 9])]);
    assert_eq!(v.byte_size(), 4 + 5 + 4 + 6);
    let buf = pack_value(&v).unwrap();
    assert_eq!(buf, vec![0, 0, 0, 3, 0, 0, 0, 1, 7, 0, 0, 0, 0, 0, 0, 0, 2, 8, 9]);
    let back = SizedVec::<SizedVec<u8>>::unpack(&buf).unwrap();
    assert_eq!(back.0.len(), 3);
    assert_eq!(back.0[0].0, vec![7]);
    assert_eq!(back.0[1].0, Vec::<u8>::new());
    assert_eq!(back.0[2].0, vec![8, 9]);
}

#[test]
fn drain_collection() {
    // A drained sequence is written in its splat form.
    let drain = DrainVec(vec![0x0102u16, 0xFF00]);
    let written = pack_value(&SplatVec(drain.0)).unwrap();
    assert_eq!(written, vec![0x01, 0x02, 0xFF, 0x00]);
    let read = DrainVec::<u16>::unpack(&written).unwrap();
    assert_eq!(read.0, vec![0x0102, 0xFF00]);
    for input in [[0u8, 0, 0, 0], [1, 2, 3, 4], [0xFF, 0xFF, 0xFF, 0xFF]] {
        let read = DrainVec::<u16>::unpack(&input).unwrap();
        assert_eq!(read.0.len(), 2);
        assert_eq!(read.0[0], u16::from_be_bytes([input[0], input[1]]));
        assert_eq!(read.0[1], u16::from_be_bytes([input[2], input[3]]));
    }
}

#[test]
fn drain_sizes_and_edges() {
    let d: DrainVec<u16> = DrainVec(vec![1, 2, 3]);
    assert_eq!(d.byte_size(), 0);
    assert_eq!(DrainVec::<u16>::unpack(&[]).unwrap().0, Vec::<u16>::new());
    assert!(matches!(DrainVec::<u16>::unpack(&[1, 2, 3]), Err(Error::Truncated)));
    assert_eq!(unpack_to_end::<u8>(&[4, 5, 6]).unwrap(), vec![4, 5, 6]);
}

#[test]
fn drain_of_empty_elements_stalls() {
    assert!(matches!(DrainVec::<Throw<u8, 0>>::unpack(&[1]), Err(Error::Stalled)));
    assert!(matches!(SplatDrain::<Throw<u8, 0>>::unpack(&[1, 2]), Err(Error::Stalled)));
    assert_eq!(DrainVec::<Throw<u8, 0>>::unpack(&[]).unwrap().0.len(), 0);
}

#[test]
fn splat_vec_layout() {
    let v = SplatVec(vec![0x0102u16, 0x0304, 0x0506]);
    assert_eq!(v.byte_size(), 6);
    assert_eq!(pack_value(&v).unwrap(), vec![1, 2, 3, 4, 5, 6]);
    let mut small = [0u8; 5];
    assert_eq!(v.pack(&mut small), Err(Error::BufferTooSmall));
    assert_eq!(small, [0; 5]);
    let empty: SplatVec<u64> = SplatVec(vec![]);
    assert_eq!(empty.byte_size(), 0);
    assert_eq!(pack_value(&empty).unwrap(), Vec::<u8>::new());
}

#[test]
fn splat_drain_states() {
    let splat = SplatDrain::Splat(vec![0x0102u16, 0xFF00]);
    assert_eq!(splat.byte_size(), 4);
    let buf = pack_value(&splat).unwrap();
    assert_eq!(buf, vec![0x01, 0x02, 0xFF, 0x00]);
    let read = SplatDrain::<u16>::unpack(&buf).unwrap();
    assert!(matches!(read, SplatDrain::Drain(_)));
    assert_eq!(read.byte_size(), 0);
    assert_eq!(&read[..], &[0x0102, 0xFF00]);
    // The drain state cannot be written.
    let mut region = [0u8; 8];
    assert_eq!(read.pack(&mut region), Err(Error::InvalidState));
    assert_eq!(region, [0; 8]);
    assert!(matches!(pack_value(&read), Err(Error::InvalidState)));
    // Back in the splat state it can.
    let again = read.into_splat();
    assert!(matches!(again, SplatDrain::Splat(_)));
    assert_eq!(pack_value(&again).unwrap(), buf);
    let drained = again.into_drain();
    assert!(matches!(drained, SplatDrain::Drain(_)));
    assert_eq!(drained.into_vec(), vec![0x0102, 0xFF00]);
}

#[test]
fn invalid_state_inside_a_composite() {
    let record = (1u8, [SplatDrain::Splat(vec![2u8]), SplatDrain::Drain(vec![3u8])]);
    assert_eq!(record.byte_size(), 2);
    assert!(matches!(pack_value(&record), Err(Error::InvalidState)));
    assert!(!record.can_pack());
    // A write that fails leaves the region as it was.
    let mut region = [0xEEu8; 4];
    assert_eq!(record.pack(&mut region), Err(Error::InvalidState));
    assert_eq!(region, [0xEE; 4]);
    assert_eq!(pack_field(&record, &mut region, 1), Err(Error::InvalidState));
    assert_eq!(region, [0xEE; 4]);
    let mut small = [0xEEu8; 1];
    assert_eq!(record.pack(&mut small), Err(Error::BufferTooSmall));
    assert_eq!(small, [0xEE]);
}

#[test]
fn throw_reserves_without_writing() {
    let t: Throw<u32, 3> = Throw::new();
    assert_eq!(t.byte_size(), 12);
    assert_eq!(Throw::<u32, 3>::const_byte_size(), 12);
    assert_eq!(Throw::<u16, 0>::const_byte_size(), 0);
    assert_eq!(Throw::<Throw<u64, 2>, 5>::const_byte_size(), 80);
    let mut region = [0xEEu8; 14];
    assert_eq!(t.pack(&mut region), Ok(()));
    assert_eq!(region, [0xEE; 14]);
    assert_eq!(t.pack(&mut region[..11]), Err(Error::BufferTooSmall));
    assert_eq!(pack_value(&t).unwrap(), vec![0; 12]);
    assert!(Throw::<u32, 3>::unpack(&region).is_ok());
    assert!(matches!(Throw::<u32, 3>::unpack(&region[..11]), Err(Error::Truncated)));
}

#[test]
fn throw_size_saturates() {
    assert_eq!(Throw::<u16, { usize::MAX }>::const_byte_size(), usize::MAX);
    assert_eq!(Throw::<u8, { usize::MAX }>::const_byte_size(), usize::MAX);
    assert!(matches!(Throw::<u16, { usize::MAX }>::unpack(&[0; 16]), Err(Error::Truncated)));
}

#[test]
fn throw_between_fields() {
    let record: (u8, Throw<u16, 2>, u8) = (0xAA, Throw::new(), 0xBB);
    assert_eq!(record.byte_size(), 6);
    assert_eq!(pack_value(&record).unwrap(), vec![0xAA, 0, 0, 0, 0, 0xBB]);
    let mut region = [0x11u8; 7];
    assert_eq!(record.pack(&mut region), Ok(()));
    assert_eq!(region, [0xAA, 0x11, 0x11, 0x11, 0x11, 0xBB, 0x11]);
    let back = <(u8, Throw<u16, 2>, u8)>::unpack(&region).unwrap();
    assert_eq!(back.0, 0xAA);
    assert_eq!(back.2, 0xBB);
}

#[test]
fn arrays_have_no_framing() {
    let a = [0x0102u16, 0x0304];
    assert_eq!(a.byte_size(), 4);
    assert_eq!(pack_value(&a).unwrap(), vec![1, 2, 3, 4]);
    assert_eq!(<[u16; 2]>::unpack(&[1, 2, 3, 4, 5]).unwrap(), [0x0102, 0x0304]);
    assert_eq!(<[u16; 2]>::unpack(&[1, 2, 3]), Err(Error::Truncated));
    assert_eq!(<[u16; 0]>::unpack(&[]).unwrap(), [0u16; 0]);
    let nested = [[1u8, 2], [3, 4], [5, 6]];
    assert_eq!(pack_value(&nested).unwrap(), vec![1, 2, 3, 4, 5, 6]);
    let mut small = [0u8; 3];
    assert_eq!(a.pack(&mut small), Err(Error::BufferTooSmall));
    assert_eq!(small, [0; 3]);
}

#[test]
fn owning_wrappers_pass_through() {
    let boxed = Box::new(0x0102u16);
    let shared = Rc::new(LEu16(0x0102));
    let atomic = Arc::new([1u8, 2, 3]);
    assert_eq!(boxed.byte_size(), 2);
    assert_eq!(shared.byte_size(), 2);
    assert_eq!(atomic.byte_size(), 3);
    assert_eq!(pack_value(&boxed).unwrap(), vec![1, 2]);
    assert_eq!(pack_value(&shared).unwrap(), vec![2, 1]);
    assert_eq!(pack_value(&atomic).unwrap(), vec![1, 2, 3]);
    assert_eq!(*Box::<u16>::unpack(&[1, 2]).unwrap(), 0x0102);
    assert_eq!(*Rc::<LEu16>::unpack(&[2, 1]).unwrap(), LEu16(0x0102));
    assert_eq!(*Arc::<[u8; 3]>::unpack(&[1, 2, 3]).unwrap(), [1, 2, 3]);
    assert!(matches!(Box::<u16>::unpack(&[1]), Err(Error::Truncated)));
    let mut small = [0u8; 1];
    assert_eq!(boxed.pack(&mut small), Err(Error::BufferTooSmall));
}

#[test]
fn views_as_slices() {
    let mut splat = SplatVec(vec![1u8, 2, 3]);
    assert_eq!(splat.len(), 3);
    splat[1] = 9;
    assert_eq!(splat.0, vec![1, 9, 3]);
    let mut drain = DrainVec(vec![1u16]);
    drain[0] = 5;
    assert_eq!(&drain[..], &[5]);
    let mut sized = SizedVec(vec![1u32, 2]);
    sized[0] = 7;
    assert_eq!(sized.iter().sum::<u32>(), 9);
    let mut both = SplatDrain::Drain(vec![1u8, 2]);
    both[1] = 4;
    assert_eq!(&both[..], &[1, 4]);
    assert!(matches!(both, SplatDrain::Drain(_)));
}

#[test]
fn fields_one_after_the_other() {
    let mut region = [0xEEu8; 8];
    let at = pack_field(&0x01u8, &mut region, 0).unwrap();
    assert_eq!(at, 1);
    let at = pack_field(&LEu16(0x0203), &mut region, at).unwrap();
    assert_eq!(at, 3);
    let at = pack_field(&[4u8, 5], &mut region, at).unwrap();
    assert_eq!(at, 5);
    assert_eq!(region, [1, 3, 2, 4, 5, 0xEE, 0xEE, 0xEE]);
    assert_eq!(pack_field(&0u32, &mut region, 5), Err(Error::BufferTooSmall));
    assert_eq!(pack_field(&0u8, &mut region, 8), Err(Error::BufferTooSmall));
    assert_eq!(region, [1, 3, 2, 4, 5, 0xEE, 0xEE, 0xEE]);

    let (a, at) = unpack_field::<u8>(&region, 0).unwrap();
    let (b, at) = unpack_field::<LEu16>(&region, at).unwrap();
    let (c, at) = unpack_field::<[u8; 2]>(&region, at).unwrap();
    assert_eq!((a, b, c, at), (1, LEu16(0x0203), [4, 5], 5));
    assert!(matches!(unpack_field::<u32>(&region, 5), Err(Error::Truncated)));
    assert_eq!(unpack_count::<u16>(&region, 2).unwrap(), vec![0x0103, 0x0204]);
    assert!(matches!(unpack_count::<u16>(&region, 5), Err(Error::Truncated)));
}

#[test]
fn records_of_two_and_three_fields() {
    let pair = (0x01u8, 0x0203u16);
    assert_eq!(pair.byte_size(), 3);
    assert_eq!(pack_value(&pair).unwrap(), vec![1, 2, 3]);
    assert_eq!(<(u8, u16)>::unpack(&[1, 2, 3]).unwrap(), pair);
    assert_eq!(<(u8, u16)>::unpack(&[1, 2]), Err(Error::Truncated));
    let triple = (SizedVec(vec![1u8]), LEu16(2), "hi".to_string());
    assert_eq!(triple.byte_size(), 5 + 2 + 6);
    let buf = pack_value(&triple).unwrap();
    assert_eq!(buf, vec![0, 0, 0, 1, 1, 2, 0, 0, 0, 0, 2, b'h', b'i']);
    let back = <(SizedVec<u8>, LEu16, String)>::unpack(&buf).unwrap();
    assert_eq!(back.0 .0, vec![1]);
    assert_eq!(back.1, LEu16(2));
    assert_eq!(back.2, "hi");
    let mut small = [0u8; 12];
    assert_eq!(triple.pack(&mut small), Err(Error::BufferTooSmall));
    assert_eq!(small, [0; 12]);
}

#[test]
fn sequences_of_elements() {
    let mut region = [0xEEu8; 6];
    assert_eq!(pack_all(&[0x0102u16, 0x0304], &mut region), Ok(()));
    assert_eq!(region, [1, 2, 3, 4, 0xEE, 0xEE]);
    assert_eq!(pack_all(&[0u32, 0], &mut region), Err(Error::BufferTooSmall));
    assert_eq!(region, [1, 2, 3, 4, 0xEE, 0xEE]);
    let mixed = [SplatDrain::Splat(vec![7u8, 8]), SplatDrain::Drain(vec![9u8])];
    assert!(!all_can_pack(&mixed));
    assert_eq!(pack_all(&mixed, &mut region), Err(Error::InvalidState));
    assert_eq!(region, [1, 2, 3, 4, 0xEE, 0xEE]);
    assert!(all_can_pack(&mixed[..1]));
    assert_eq!(write_all(&mixed[..1], &mut region), Ok(()));
    assert_eq!(region, [7, 8, 3, 4, 0xEE, 0xEE]);
    assert!(0x01u8.can_pack());
    assert!("text".to_string().can_pack());
    assert!(SizedVec(vec![1u8]).can_pack());
    assert!(!SizedVec(vec![SplatDrain::Drain(vec![1u8])]).can_pack());
}
