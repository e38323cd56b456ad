//! The reader capability.
//!
//! What a reader makes of a byte sequence is a function of the bytes alone:
//! either the value that the sequence starts with, or the reason why it
//! starts with none.
use crate::base::{
    lemma_total_size_first, models, saturating_product, total_size, ByteSize, ConstByteSize,
    DrainVec, LEi128, LEi16, LEi32, LEi64, LEu128, LEu16, LEu32, LEu64, SizedVec, SplatDrain,
    SplatDrainModel, Throw, SIZE_FIELD_WIDTH,
};
use crate::endian::{
    be_value, get_be, get_le, i128_from_bits, i16_from_bits, i32_from_bits, i64_from_bits,
    i8_from_bits, le_value, lemma_pow256_values, lemma_value_bound, pow256, to_signed,
};
use crate::error::Error;
use crate::laws::RoundTrip;
use std::rc::Rc;
use std::sync::Arc;
use vstd::prelude::*;
use vstd::utf8::{decode_utf8, decode_utf8_encode_utf8, valid_utf8};

verus! {

/// The reader capability: makes a value of the bytes at the front of a
/// region.
pub trait ByteUnpack: ByteSize + Sized + 'static {
    /// The value that `buf` starts with, or why it starts with none.
    spec fn parse(buf: Seq<u8>) -> Result<Self::Model, Error>;

    /// A value that was read occupies no more bytes than there were.
    proof fn parse_within(buf: Seq<u8>)
        ensures
            Self::parse(buf) matches Ok(m) ==> Self::size_of(m) <= buf.len(),
    ;

    /// Reads a value from the front of `buf`.
    fn unpack(buf: &[u8]) -> (r: Result<Self, Error>)
        ensures
            match r {
                Ok(v) => Self::parse(buf@) == Ok::<Self::Model, Error>(v.model()),
                Err(e) => Self::parse(buf@) == Err::<Self::Model, Error>(e),
            },
    ;
}

/// The number that `buf` starts with in `width` bytes, most significant
/// first.
pub fn unpack_be(buf: &[u8], width: usize) -> (r: Result<u128, Error>)
    requires
        width <= 16,
    ensures
        buf@.len() < width ==> r == Err::<u128, Error>(Error::Truncated),
        buf@.len() >= width ==> r is Ok,
        r matches Ok(v) ==> v == be_value(buf@.take(width as int)) && v < pow256(width as nat),
{
    if buf.len() < width {
        return Err(Error::Truncated);
    }
    proof {
        lemma_value_bound(buf@.take(width as int));
    }
    Ok(get_be(buf, width))
}

/// The number that `buf` starts with in `width` bytes, least significant
/// first.
pub fn unpack_le(buf: &[u8], width: usize) -> (r: Result<u128, Error>)
    requires
        width <= 16,
    ensures
        buf@.len() < width ==> r == Err::<u128, Error>(Error::Truncated),
        buf@.len() >= width ==> r is Ok,
        r matches Ok(v) ==> v == le_value(buf@.take(width as int)) && v < pow256(width as nat),
{
    if buf.len() < width {
        return Err(Error::Truncated);
    }
    proof {
        lemma_value_bound(buf@.take(width as int));
    }
    Ok(get_le(buf, width))
}

/// `head` in front of what `tail` holds, or the failure of `tail`.
pub open spec fn prepend<M>(head: Seq<M>, tail: Result<Seq<M>, Error>) -> Result<Seq<M>, Error> {
    match tail {
        Ok(t) => Ok(head + t),
        Err(e) => Err(e),
    }
}

/// The `count` values that `buf` starts with, each read where the one
/// before it ends.
pub open spec fn parse_count<T: ByteUnpack>(buf: Seq<u8>, count: nat) -> Result<
    Seq<T::Model>,
    Error,
>
    decreases count,
{
    if count == 0 {
        Ok(Seq::empty())
    } else {
        match T::parse(buf) {
            Ok(m) => prepend(
                seq![m],
                parse_count::<T>(buf.skip(T::size_of(m) as int), (count - 1) as nat),
            ),
            Err(e) => Err(e),
        }
    }
}

/// The values that make up all of `buf`, each read where the one before it
/// ends, until no byte is left. A value that occupies no byte would never
/// use up the input: the read then fails.
pub open spec fn parse_to_end<T: ByteUnpack>(buf: Seq<u8>) -> Result<Seq<T::Model>, Error>
    decreases buf.len(),
{
    if buf.len() == 0 {
        Ok(Seq::empty())
    } else {
        match T::parse(buf) {
            Ok(m) => if 0 < T::size_of(m) <= buf.len() {
                prepend(seq![m], parse_to_end::<T>(buf.skip(T::size_of(m) as int)))
            } else {
                Err(Error::Stalled)
            },
            Err(e) => Err(e),
        }
    }
}

/// `count` values that were read occupy no more bytes than there were, and
/// there are `count` of them.
pub proof fn lemma_parse_count_within<T: ByteUnpack>(buf: Seq<u8>, count: nat)
    ensures
        parse_count::<T>(buf, count) matches Ok(ms) ==> ms.len() == count
            && total_size::<T>(ms) <= buf.len(),
    decreases count,
{
    if count > 0 {
        if let Ok(m) = T::parse(buf) {
            T::parse_within(buf);
            let rest = buf.skip(T::size_of(m) as int);
            lemma_parse_count_within::<T>(rest, (count - 1) as nat);
            if let Ok(tail) = parse_count::<T>(rest, (count - 1) as nat) {
                let ms = seq![m] + tail;
                lemma_total_size_first::<T>(ms);
                assert(ms.drop_first() =~= tail);
            }
        }
    }
}

/// Reads `count` values from the front of `buf`, each where the one
/// before it ends.
pub fn unpack_count<T: ByteUnpack>(buf: &[u8], count: usize) -> (r: Result<Vec<T>, Error>)
    ensures
        match r {
            Ok(v) => parse_count::<T>(buf@, count as nat) == Ok::<Seq<T::Model>, Error>(
                models(v@),
            ),
            Err(e) => parse_count::<T>(buf@, count as nat) == Err::<Seq<T::Model>, Error>(e),
        },
{
    let total = buf.len();
    let mut vec: Vec<T> = Vec::new();
    let mut at: usize = 0;
    let mut k: usize = 0;
    proof {
        assert(buf@.skip(0) =~= buf@);
    }
    while k < count
        invariant
            k <= count,
            total == buf@.len(),
            at <= buf@.len(),
            parse_count::<T>(buf@, count as nat) == prepend(
                models(vec@),
                parse_count::<T>(buf@.skip(at as int), (count - k) as nat),
            ),
        decreases count - k,
    {
        let (_, rest) = buf.split_at(at);
        let ghost done = models::<T>(vec@);
        match T::unpack(rest) {
            Err(e) => {
                return Err(e);
            },
            Ok(val) => {
                proof {
                    T::parse_within(rest@);
                    let m = val.model();
                    let after = parse_count::<T>(
                        rest@.skip(T::size_of(m) as int),
                        (count - k - 1) as nat,
                    );
                    assert(rest@.skip(T::size_of(m) as int) =~= buf@.skip(at + T::size_of(m)));
                    assert(models::<T>(vec@.push(val)) =~= done.push(m));
                    if let Ok(t) = after {
                        assert(done + (seq![m] + t) =~= done.push(m) + t);
                    }
                }
                at = at + val.byte_size();
                vec.push(val);
            },
        }
        k += 1;
    }
    Ok(vec)
}

/// Reads values from `buf` until no byte is left, each where the one
/// before it ends.
pub fn unpack_to_end<T: ByteUnpack>(buf: &[u8]) -> (r: Result<Vec<T>, Error>)
    ensures
        match r {
            Ok(v) => parse_to_end::<T>(buf@) == Ok::<Seq<T::Model>, Error>(models(v@)),
            Err(e) => parse_to_end::<T>(buf@) == Err::<Seq<T::Model>, Error>(e),
        },
{
    let mut vec: Vec<T> = Vec::new();
    let mut at: usize = 0;
    proof {
        assert(buf@.skip(0) =~= buf@);
    }
    while at < buf.len()
        invariant
            at <= buf@.len(),
            parse_to_end::<T>(buf@) == prepend(
                models(vec@),
                parse_to_end::<T>(buf@.skip(at as int)),
            ),
        decreases buf@.len() - at,
    {
        let (_, rest) = buf.split_at(at);
        let ghost done = models::<T>(vec@);
        match T::unpack(rest) {
            Err(e) => {
                return Err(e);
            },
            Ok(val) => {
                proof {
                    T::parse_within(rest@);
                }
                let n = val.byte_size();
                if n == 0 {
                    return Err(Error::Stalled);
                }
                proof {
                    let m = val.model();
                    let after = parse_to_end::<T>(rest@.skip(n as int));
                    assert(rest@.skip(n as int) =~= buf@.skip(at + n));
                    assert(models::<T>(vec@.push(val)) =~= done.push(m));
                    if let Ok(t) = after {
                        assert(done + (seq![m] + t) =~= done.push(m) + t);
                    }
                }
                at = at + n;
                vec.push(val);
            },
        }
    }
    Ok(vec)
}

impl ByteUnpack for u8 {
    open spec fn parse(buf: Seq<u8>) -> Result<u8, Error> {
        if buf.len() < 1 {
            Err(Error::Truncated)
        } else {
            Ok(be_value(buf.take(1)) as u8)
        }
    }

    proof fn parse_within(buf: Seq<u8>) {
    }

    fn unpack(buf: &[u8]) -> (r: Result<Self, Error>) {
        proof {
            lemma_pow256_values();
        }
        match unpack_be(buf, 1) {
            Ok(v) => Ok(v as u8),
            Err(e) => Err(e),
        }
    }
}

impl ByteUnpack for u16 {
    open spec fn parse(buf: Seq<u8>) -> Result<u16, Error> {
        if buf.len() < 2 {
            Err(Error::Truncated)
        } else {
            Ok(be_value(buf.take(2)) as u16)
        }
    }

    proof fn parse_within(buf: Seq<u8>) {
    }

    fn unpack(buf: &[u8]) -> (r: Result<Self, Error>) {
        proof {
            lemma_pow256_values();
        }
        match unpack_be(buf, 2) {
            Ok(v) => Ok(v as u16),
            Err(e) => Err(e),
        }
    }
}

impl ByteUnpack for u32 {
    open spec fn parse(buf: Seq<u8>) -> Result<u32, Error> {
        if buf.len() < 4 {
            Err(Error::Truncated)
        } else {
            Ok(be_value(buf.take(4)) as u32)
        }
    }

    proof fn parse_within(buf: Seq<u8>) {
    }

    fn unpack(buf: &[u8]) -> (r: Result<Self, Error>) {
        proof {
            lemma_pow256_values();
        }
        match unpack_be(buf, 4) {
            Ok(v) => Ok(v as u32),
            Err(e) => Err(e),
        }
    }
}

impl ByteUnpack for u64 {
    open spec fn parse(buf: Seq<u8>) -> Result<u64, Error> {
        if buf.len() < 8 {
            Err(Error::Truncated)
        } else {
            Ok(be_value(buf.take(8)) as u64)
        }
    }

    proof fn parse_within(buf: Seq<u8>) {
    }

    fn unpack(buf: &[u8]) -> (r: Result<Self, Error>) {
        proof {
            lemma_pow256_values();
        }
        match unpack_be(buf, 8) {
            Ok(v) => Ok(v as u64),
            Err(e) => Err(e),
        }
    }
}

impl ByteUnpack for u128 {
    open spec fn parse(buf: Seq<u8>) -> Result<u128, Error> {
        if buf.len() < 16 {
            Err(Error::Truncated)
        } else {
            Ok(be_value(buf.take(16)) as u128)
        }
    }

    proof fn parse_within(buf: Seq<u8>) {
    }

    fn unpack(buf: &[u8]) -> (r: Result<Self, Error>) {
        proof {
            lemma_pow256_values();
        }
        match unpack_be(buf, 16) {
            Ok(v) => Ok(v as u128),
            Err(e) => Err(e),
        }
    }
}

impl ByteUnpack for i8 {
    open spec fn parse(buf: Seq<u8>) -> Result<i8, Error> {
        if buf.len() < 1 {
            Err(Error::Truncated)
        } else {
            Ok(to_signed(be_value(buf.take(1)), 1) as i8)
        }
    }

    proof fn parse_within(buf: Seq<u8>) {
    }

    fn unpack(buf: &[u8]) -> (r: Result<Self, Error>) {
        proof {
            lemma_pow256_values();
        }
        match unpack_be(buf, 1) {
            Ok(v) => Ok(i8_from_bits(v)),
            Err(e) => Err(e),
        }
    }
}

impl ByteUnpack for i16 {
    open spec fn parse(buf: Seq<u8>) -> Result<i16, Error> {
        if buf.len() < 2 {
            Err(Error::Truncated)
        } else {
            Ok(to_signed(be_value(buf.take(2)), 2) as i16)
        }
    }

    proof fn parse_within(buf: Seq<u8>) {
    }

    fn unpack(buf: &[u8]) -> (r: Result<Self, Error>) {
        proof {
            lemma_pow256_values();
        }
        match unpack_be(buf, 2) {
            Ok(v) => Ok(i16_from_bits(v)),
            Err(e) => Err(e),
        }
    }
}

impl ByteUnpack for i32 {
    open spec fn parse(buf: Seq<u8>) -> Result<i32, Error> {
        if buf.len() < 4 {
            Err(Error::Truncated)
        } else {
            Ok(to_signed(be_value(buf.take(4)), 4) as i32)
        }
    }

    proof fn parse_within(buf: Seq<u8>) {
    }

    fn unpack(buf: &[u8]) -> (r: Result<Self, Error>) {
        proof {
            lemma_pow256_values();
        }
        match unpack_be(buf, 4) {
            Ok(v) => Ok(i32_from_bits(v)),
            Err(e) => Err(e),
        }
    }
}

impl ByteUnpack for i64 {
    open spec fn parse(buf: Seq<u8>) -> Result<i64, Error> {
        if buf.len() < 8 {
            Err(Error::Truncated)
        } else {
            Ok(to_signed(be_value(buf.take(8)), 8) as i64)
        }
    }

    proof fn parse_within(buf: Seq<u8>) {
    }

    fn unpack(buf: &[u8]) -> (r: Result<Self, Error>) {
        proof {
            lemma_pow256_values();
        }
        match unpack_be(buf, 8) {
            Ok(v) => Ok(i64_from_bits(v)),
            Err(e) => Err(e),
        }
    }
}

impl ByteUnpack for i128 {
    open spec fn parse(buf: Seq<u8>) -> Result<i128, Error> {
        if buf.len() < 16 {
            Err(Error::Truncated)
        } else {
            Ok(to_signed(be_value(buf.take(16)), 16) as i128)
        }
    }

    proof fn parse_within(buf: Seq<u8>) {
    }

    fn unpack(buf: &[u8]) -> (r: Result<Self, Error>) {
        proof {
            lemma_pow256_values();
        }
        match unpack_be(buf, 16) {
            Ok(v) => Ok(i128_from_bits(v)),
            Err(e) => Err(e),
        }
    }
}

impl ByteUnpack for LEu16 {
    open spec fn parse(buf: Seq<u8>) -> Result<u16, Error> {
        if buf.len() < 2 {
            Err(Error::Truncated)
        } else {
            Ok(le_value(buf.take(2)) as u16)
        }
    }

    proof fn parse_within(buf: Seq<u8>) {
    }

    fn unpack(buf: &[u8]) -> (r: Result<Self, Error>) {
        proof {
            lemma_pow256_values();
        }
        match unpack_le(buf, 2) {
            Ok(v) => Ok(LEu16(v as u16)),
            Err(e) => Err(e),
        }
    }
}

impl ByteUnpack for LEu32 {
    open spec fn parse(buf: Seq<u8>) -> Result<u32, Error> {
        if buf.len() < 4 {
            Err(Error::Truncated)
        } else {
            Ok(le_value(buf.take(4)) as u32)
        }
    }

    proof fn parse_within(buf: Seq<u8>) {
    }

    fn unpack(buf: &[u8]) -> (r: Result<Self, Error>) {
        proof {
            lemma_pow256_values();
        }
        match unpack_le(buf, 4) {
            Ok(v) => Ok(LEu32(v as u32)),
            Err(e) => Err(e),
        }
    }
}

impl ByteUnpack for LEu64 {
    open spec fn parse(buf: Seq<u8>) -> Result<u64, Error> {
        if buf.len() < 8 {
            Err(Error::Truncated)
        } else {
            Ok(le_value(buf.take(8)) as u64)
        }
    }

    proof fn parse_within(buf: Seq<u8>) {
    }

    fn unpack(buf: &[u8]) -> (r: Result<Self, Error>) {
        proof {
            lemma_pow256_values();
        }
        match unpack_le(buf, 8) {
            Ok(v) => Ok(LEu64(v as u64)),
            Err(e) => Err(e),
        }
    }
}

impl ByteUnpack for LEu128 {
    open spec fn parse(buf: Seq<u8>) -> Result<u128, Error> {
        if buf.len() < 16 {
            Err(Error::Truncated)
        } else {
            Ok(le_value(buf.take(16)) as u128)
        }
    }

    proof fn parse_within(buf: Seq<u8>) {
    }

    fn unpack(buf: &[u8]) -> (r: Result<Self, Error>) {
        proof {
            lemma_pow256_values();
        }
        match unpack_le(buf, 16) {
            Ok(v) => Ok(LEu128(v as u128)),
            Err(e) => Err(e),
        }
    }
}

impl ByteUnpack for LEi16 {
    open spec fn parse(buf: Seq<u8>) -> Result<i16, Error> {
        if buf.len() < 2 {
            Err(Error::Truncated)
        } else {
            Ok(to_signed(le_value(buf.take(2)), 2) as i16)
        }
    }

    proof fn parse_within(buf: Seq<u8>) {
    }

    fn unpack(buf: &[u8]) -> (r: Result<Self, Error>) {
        proof {
            lemma_pow256_values();
        }
        match unpack_le(buf, 2) {
            Ok(v) => Ok(LEi16(i16_from_bits(v))),
            Err(e) => Err(e),
        }
    }
}

impl ByteUnpack for LEi32 {
    open spec fn parse(buf: Seq<u8>) -> Result<i32, Error> {
        if buf.len() < 4 {
            Err(Error::Truncated)
        } else {
            Ok(to_signed(le_value(buf.take(4)), 4) as i32)
        }
    }

    proof fn parse_within(buf: Seq<u8>) {
    }

    fn unpack(buf: &[u8]) -> (r: Result<Self, Error>) {
        proof {
            lemma_pow256_values();
        }
        match unpack_le(buf, 4) {
            Ok(v) => Ok(LEi32(i32_from_bits(v))),
            Err(e) => Err(e),
        }
    }
}

impl ByteUnpack for LEi64 {
    open spec fn parse(buf: Seq<u8>) -> Result<i64, Error> {
        if buf.len() < 8 {
            Err(Error::Truncated)
        } else {
            Ok(to_signed(le_value(buf.take(8)), 8) as i64)
        }
    }

    proof fn parse_within(buf: Seq<u8>) {
    }

    fn unpack(buf: &[u8]) -> (r: Result<Self, Error>) {
        proof {
            lemma_pow256_values();
        }
        match unpack_le(buf, 8) {
            Ok(v) => Ok(LEi64(i64_from_bits(v))),
            Err(e) => Err(e),
        }
    }
}

impl ByteUnpack for LEi128 {
    open spec fn parse(buf: Seq<u8>) -> Result<i128, Error> {
        if buf.len() < 16 {
            Err(Error::Truncated)
        } else {
            Ok(to_signed(le_value(buf.take(16)), 16) as i128)
        }
    }

    proof fn parse_within(buf: Seq<u8>) {
    }

    fn unpack(buf: &[u8]) -> (r: Result<Self, Error>) {
        proof {
            lemma_pow256_values();
        }
        match unpack_le(buf, 16) {
            Ok(v) => Ok(LEi128(i128_from_bits(v))),
            Err(e) => Err(e),
        }
    }
}

/// `TryFrom<Vec<T>>` for `[T; N]` of the standard library: a vector of
/// exactly `N` elements becomes the array of these elements in their order,
/// and any other vector is handed back as it came.
#[verifier::external_body]
fn vec_into_array<T, const N: usize>(v: Vec<T>) -> (r: Result<[T; N], Vec<T>>)
    ensures
        match r {
            Ok(a) => v@.len() == N && a@ == v@,
            Err(w) => v@.len() != N && w@ == v@,
        },
{
    <[T; N]>::try_from(v)
}

impl<T: ByteUnpack + ConstByteSize, const N: usize> ByteUnpack for [T; N] {
    open spec fn parse(buf: Seq<u8>) -> Result<Seq<T::Model>, Error> {
        parse_count::<T>(buf, N as nat)
    }

    proof fn parse_within(buf: Seq<u8>) {
        lemma_parse_count_within::<T>(buf, N as nat);
    }

    fn unpack(buf: &[u8]) -> (r: Result<Self, Error>) {
        let items = unpack_count::<T>(buf, N)?;
        proof {
            lemma_parse_count_within::<T>(buf@, N as nat);
        }
        match vec_into_array(items) {
            Ok(arr) => Ok(arr),
            Err(_) => unreached(),
        }
    }
}

impl<T: ByteUnpack> ByteUnpack for Box<T> {
    open spec fn parse(buf: Seq<u8>) -> Result<T::Model, Error> {
        T::parse(buf)
    }

    proof fn parse_within(buf: Seq<u8>) {
        T::parse_within(buf);
    }

    fn unpack(buf: &[u8]) -> (r: Result<Self, Error>) {
        Ok(Box::new(T::unpack(buf)?))
    }
}

impl<T: ByteUnpack> ByteUnpack for Rc<T> {
    open spec fn parse(buf: Seq<u8>) -> Result<T::Model, Error> {
        T::parse(buf)
    }

    proof fn parse_within(buf: Seq<u8>) {
        T::parse_within(buf);
    }

    fn unpack(buf: &[u8]) -> (r: Result<Self, Error>) {
        Ok(Rc::new(T::unpack(buf)?))
    }
}

impl<T: ByteUnpack> ByteUnpack for Arc<T> {
    open spec fn parse(buf: Seq<u8>) -> Result<T::Model, Error> {
        T::parse(buf)
    }

    proof fn parse_within(buf: Seq<u8>) {
        T::parse_within(buf);
    }

    fn unpack(buf: &[u8]) -> (r: Result<Self, Error>) {
        Ok(Arc::new(T::unpack(buf)?))
    }
}

impl<T: ByteUnpack> ByteUnpack for DrainVec<T> {
    open spec fn parse(buf: Seq<u8>) -> Result<Seq<T::Model>, Error> {
        parse_to_end::<T>(buf)
    }

    proof fn parse_within(buf: Seq<u8>) {
    }

    fn unpack(buf: &[u8]) -> (r: Result<Self, Error>) {
        Ok(Self(unpack_to_end::<T>(buf)?))
    }
}

impl<T: ByteUnpack> ByteUnpack for SplatDrain<T> {
    /// Reading always yields the `Drain` state.
    open spec fn parse(buf: Seq<u8>) -> Result<SplatDrainModel<T::Model>, Error> {
        match parse_to_end::<T>(buf) {
            Ok(ms) => Ok(SplatDrainModel::Drain(ms)),
            Err(e) => Err(e),
        }
    }

    proof fn parse_within(buf: Seq<u8>) {
    }

    fn unpack(buf: &[u8]) -> (r: Result<Self, Error>) {
        Ok(Self::Drain(unpack_to_end::<T>(buf)?))
    }
}

impl<T: ByteUnpack> ByteUnpack for SizedVec<T> {
    open spec fn parse(buf: Seq<u8>) -> Result<Seq<T::Model>, Error> {
        if buf.len() < SIZE_FIELD_WIDTH {
            Err(Error::Truncated)
        } else {
            parse_count::<T>(
                buf.skip(SIZE_FIELD_WIDTH as int),
                be_value(buf.take(SIZE_FIELD_WIDTH as int)),
            )
        }
    }

    proof fn parse_within(buf: Seq<u8>) {
        if buf.len() >= SIZE_FIELD_WIDTH {
            lemma_parse_count_within::<T>(
                buf.skip(SIZE_FIELD_WIDTH as int),
                be_value(buf.take(SIZE_FIELD_WIDTH as int)),
            );
        }
    }

    fn unpack(buf: &[u8]) -> (r: Result<Self, Error>) {
        let count = unpack_be(buf, SIZE_FIELD_WIDTH)?;
        proof {
            lemma_pow256_values();
        }
        let (_, rest) = buf.split_at(SIZE_FIELD_WIDTH);
        Ok(Self(unpack_count::<T>(rest, count as usize)?))
    }
}

impl<T: ByteUnpack + ConstByteSize, const N: usize> ByteUnpack for Throw<T, N> {
    /// The region has to be there; what it holds is not looked at.
    open spec fn parse(buf: Seq<u8>) -> Result<(), Error> {
        if buf.len() < saturating_product(N, T::const_size()) {
            Err(Error::Truncated)
        } else {
            Ok(())
        }
    }

    proof fn parse_within(buf: Seq<u8>) {
    }

    fn unpack(buf: &[u8]) -> (r: Result<Self, Error>) {
        if buf.len() < Self::const_byte_size() {
            return Err(Error::Truncated);
        }
        Ok(Self::new())
    }
}

/// What `String::from_utf8` hands back for bytes that are no text.
#[verifier::external_type_specification]
#[verifier::external_body]
pub struct ExFromUtf8Error(std::string::FromUtf8Error);

/// `String::from_utf8` of the standard library: bytes that are valid UTF-8
/// become the text that they encode, and any other bytes are refused.
#[verifier::external_body]
fn string_from_utf8(bytes: Vec<u8>) -> (r: Result<String, std::string::FromUtf8Error>)
    ensures
        r is Ok <==> valid_utf8(bytes@),
        r matches Ok(s) ==> s@ == decode_utf8(bytes@),
{
    String::from_utf8(bytes)
}

impl ByteUnpack for String {
    open spec fn parse(buf: Seq<u8>) -> Result<Seq<char>, Error> {
        if buf.len() < SIZE_FIELD_WIDTH {
            Err(Error::Truncated)
        } else if buf.len() - SIZE_FIELD_WIDTH < be_value(buf.take(SIZE_FIELD_WIDTH as int)) {
            Err(Error::Truncated)
        } else {
            let text = buf.subrange(
                SIZE_FIELD_WIDTH as int,
                SIZE_FIELD_WIDTH + be_value(buf.take(SIZE_FIELD_WIDTH as int)),
            );
            if valid_utf8(text) {
                Ok(decode_utf8(text))
            } else {
                Err(Error::InvalidEncoding)
            }
        }
    }

    proof fn parse_within(buf: Seq<u8>) {
        if let Ok(m) = Self::parse(buf) {
            decode_utf8_encode_utf8(buf.subrange(
                SIZE_FIELD_WIDTH as int,
                SIZE_FIELD_WIDTH + be_value(buf.take(SIZE_FIELD_WIDTH as int)),
            ));
        }
    }

    fn unpack(buf: &[u8]) -> (r: Result<Self, Error>) {
        let len = unpack_be(buf, SIZE_FIELD_WIDTH)?;
        proof {
            lemma_pow256_values();
        }
        if ((buf.len() - SIZE_FIELD_WIDTH) as u128) < len {
            return Err(Error::Truncated);
        }
        let text = vstd::slice::slice_to_vec(
            vstd::slice::slice_subrange(
                buf,
                SIZE_FIELD_WIDTH,
                SIZE_FIELD_WIDTH + len as usize,
            ),
        );
        match string_from_utf8(text) {
            Ok(s) => Ok(s),
            Err(_) => Err(Error::InvalidEncoding),
        }
    }
}

/// Reads a value from `buf` at index `at` and returns it with the index
/// just past it: one step of reading the fields of a record in order.
pub fn unpack_field<T: ByteUnpack>(buf: &[u8], at: usize) -> (r: Result<(T, usize), Error>)
    requires
        at <= buf@.len(),
    ensures
        match r {
            Ok((v, next)) => T::parse(buf@.skip(at as int)) == Ok::<T::Model, Error>(v.model())
                && next == at + T::size_of(v.model()) && next <= buf@.len(),
            Err(e) => T::parse(buf@.skip(at as int)) == Err::<T::Model, Error>(e),
        },
{
    let total = buf.len();
    let (_, rest) = buf.split_at(at);
    let val = T::unpack(rest)?;
    proof {
        T::parse_within(rest@);
    }
    assert(at + T::size_of(val.model()) <= total);
    let next = at + val.byte_size();
    Ok((val, next))
}

/// Every field but the last is a codec whose reader stops where the value
/// ends. A field that reads to the end of the input, such as a
/// [`DrainVec`], can only stand last.
impl<A: RoundTrip, B: ByteUnpack> ByteUnpack for (A, B) {
    /// The fields in order, each read where the one before it ends.
    open spec fn parse(buf: Seq<u8>) -> Result<(A::Model, B::Model), Error> {
        match A::parse(buf) {
            Ok(a) => match B::parse(buf.skip(A::size_of(a) as int)) {
                Ok(b) => Ok((a, b)),
                Err(e) => Err(e),
            },
            Err(e) => Err(e),
        }
    }

    proof fn parse_within(buf: Seq<u8>) {
        A::parse_within(buf);
        if let Ok(a) = A::parse(buf) {
            B::parse_within(buf.skip(A::size_of(a) as int));
        }
    }

    fn unpack(buf: &[u8]) -> (r: Result<Self, Error>) {
        proof {
            assert(buf@.skip(0) =~= buf@);
        }
        let (a, at1) = unpack_field::<A>(buf, 0)?;
        let (_, rest) = buf.split_at(at1);
        let b = B::unpack(rest)?;
        Ok((a, b))
    }
}

/// Every field but the last is a codec whose reader stops where the value
/// ends. A field that reads to the end of the input, such as a
/// [`DrainVec`], can only stand last.
impl<A: RoundTrip, B: RoundTrip, C: ByteUnpack> ByteUnpack for (A, B, C) {
    /// The fields in order, each read where the one before it ends.
    open spec fn parse(buf: Seq<u8>) -> Result<(A::Model, B::Model, C::Model), Error> {
        match A::parse(buf) {
            Ok(a) => match B::parse(buf.skip(A::size_of(a) as int)) {
                Ok(b) => match C::parse(buf.skip((A::size_of(a) + B::size_of(b)) as int)) {
                    Ok(c) => Ok((a, b, c)),
                    Err(e) => Err(e),
                },
                Err(e) => Err(e),
            },
            Err(e) => Err(e),
        }
    }

    proof fn parse_within(buf: Seq<u8>) {
        A::parse_within(buf);
        if let Ok(a) = A::parse(buf) {
            B::parse_within(buf.skip(A::size_of(a) as int));
            if let Ok(b) = B::parse(buf.skip(A::size_of(a) as int)) {
                C::parse_within(buf.skip((A::size_of(a) + B::size_of(b)) as int));
            }
        }
    }

    fn unpack(buf: &[u8]) -> (r: Result<Self, Error>) {
        proof {
            assert(buf@.skip(0) =~= buf@);
        }
        let (a, at1) = unpack_field::<A>(buf, 0)?;
        let (b, at2) = unpack_field::<B>(buf, at1)?;
        let (_, rest) = buf.split_at(at2);
        let c = C::unpack(rest)?;
        Ok((a, b, c))
    }
}

/// Every field but the last is a codec whose reader stops where the value
/// ends. A field that reads to the end of the input, such as a
/// [`DrainVec`], can only stand last.
impl<A: RoundTrip, B: RoundTrip, C: RoundTrip, D: ByteUnpack> ByteUnpack for (A, B, C, D) {
    /// The fields in order, each read where the one before it ends.
    open spec fn parse(buf: Seq<u8>) -> Result<(A::Model, B::Model, C::Model, D::Model), Error> {
        match A::parse(buf) {
            Ok(a) => match B::parse(buf.skip(A::size_of(a) as int)) {
                Ok(b) => match C::parse(buf.skip((A::size_of(a) + B::size_of(b)) as int)) {
                    Ok(c) => match D::parse(
                        buf.skip((A::size_of(a) + B::size_of(b) + C::size_of(c)) as int),
                    ) {
                        Ok(d) => Ok((a, b, c, d)),
                        Err(e) => Err(e),
                    },
                    Err(e) => Err(e),
                },
                Err(e) => Err(e),
            },
            Err(e) => Err(e),
        }
    }

    proof fn parse_within(buf: Seq<u8>) {
        A::parse_within(buf);
        if let Ok(a) = A::parse(buf) {
            B::parse_within(buf.skip(A::size_of(a) as int));
            if let Ok(b) = B::parse(buf.skip(A::size_of(a) as int)) {
                C::parse_within(buf.skip((A::size_of(a) + B::size_of(b)) as int));
                if let Ok(c) = C::parse(buf.skip((A::size_of(a) + B::size_of(b)) as int)) {
                    D::parse_within(
                        buf.skip((A::size_of(a) + B::size_of(b) + C::size_of(c)) as int),
                    );
                }
            }
        }
    }

    fn unpack(buf: &[u8]) -> (r: Result<Self, Error>) {
        proof {
            assert(buf@.skip(0) =~= buf@);
        }
        let (a, at1) = unpack_field::<A>(buf, 0)?;
        let (b, at2) = unpack_field::<B>(buf, at1)?;
        let (c, at3) = unpack_field::<C>(buf, at2)?;
        let (_, rest) = buf.split_at(at3);
        let d = D::unpack(rest)?;
        Ok((a, b, c, d))
    }
}

} // verus!
