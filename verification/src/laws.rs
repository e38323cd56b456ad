//! What holds of the three capabilities together.
use crate::base::{
    lemma_total_size_const, lemma_total_size_first, total_size, ByteSize, ConstByteSize, DrainVec,
    LEi128, LEi16, LEi32, LEi64, LEu128, LEu16, LEu32, LEu64, SizedVec, SplatDrain, SplatDrainModel,
    SplatVec, Throw,
};
use crate::endian::{
    be_bytes, be_value, le_bytes, lemma_bytes_len, lemma_bytes_of_value, lemma_pow256_values,
    lemma_value_bound, lemma_value_of_bytes, to_unsigned,
};
use crate::error::Error;
use crate::pack::{all_writable, fits, layout_all, solid, stamp, zeros, BytePack};
use crate::unpack::{lemma_parse_count_within, parse_count, parse_to_end, ByteUnpack};
use std::rc::Rc;
use std::sync::Arc;
use vstd::prelude::*;
use vstd::utf8::{
    decode_utf8_encode_utf8, encode_utf8, encode_utf8_decode_utf8, encode_utf8_valid_utf8,
};

verus! {

/// Codecs whose reader undoes their writer.
pub trait RoundTrip: BytePack + ByteUnpack {
    /// Reading the encoding of a value gives the value back, whatever
    /// follows the encoding: `bytes` is any sequence that the layout of `m`
    /// describes, and `rest` is what comes after it.
    proof fn round_trip(m: Self::Model, bytes: Seq<u8>, rest: Seq<u8>)
        requires
            Self::writable(m),
            fits(Self::layout(m), bytes),
        ensures
            Self::parse(bytes + rest) == Ok::<Self::Model, Error>(m),
    ;

    /// A value that was read has an encoding, and the bytes that it was
    /// read from are one: the front of the input, as long as the value, is
    /// what a write of the value produces.
    proof fn parse_is_encoding(buf: Seq<u8>)
        ensures
            Self::parse(buf) matches Ok(m) ==> Self::writable(m) && fits(
                Self::layout(m),
                buf.take(Self::size_of(m) as int),
            ),
    ;
}

/// A reader looks at no byte behind the value that it reads: the same
/// value comes out of the bytes that the value occupies, whatever follows
/// them.
pub proof fn lemma_reads_own_bytes<T: RoundTrip>(buf: Seq<u8>, rest: Seq<u8>)
    ensures
        T::parse(buf) matches Ok(m) ==> T::parse(buf.take(T::size_of(m) as int) + rest) == Ok::<
            T::Model,
            Error,
        >(m),
{
    if let Ok(m) = T::parse(buf) {
        T::parse_is_encoding(buf);
        T::round_trip(m, buf.take(T::size_of(m) as int), rest);
    }
}

/// A write changes the first bytes of a region, as many as the value
/// occupies, into an encoding of the value, and leaves the length of the
/// region and every byte behind the value as they were.
pub proof fn lemma_write_touches_prefix<T: BytePack>(m: T::Model, region: Seq<u8>)
    requires
        T::size_of(m) <= region.len(),
    ensures
        stamp(T::layout(m), region).len() == region.len(),
        fits(T::layout(m), stamp(T::layout(m), region).take(T::size_of(m) as int)),
        stamp(T::layout(m), region).skip(T::size_of(m) as int) == region.skip(
            T::size_of(m) as int,
        ),
{
    T::layout_len(m);
}

/// Decoding what `pack_value` returns for a value gives the value back:
/// the encoding in a buffer of zeros, as long as the value, reads as the
/// value.
pub proof fn lemma_decode_encode<T: RoundTrip>(m: T::Model)
    requires
        T::writable(m),
    ensures
        T::parse(stamp(T::layout(m), zeros(T::size_of(m)))) == Ok::<T::Model, Error>(m),
{
    let bytes = stamp(T::layout(m), zeros(T::size_of(m)));
    lemma_write_touches_prefix::<T>(m, zeros(T::size_of(m)));
    T::round_trip(m, bytes, Seq::empty());
}

/// An owning wrapper adds no framing: a `Box`, an `Rc` and an `Arc` have
/// the size, the layout and the reading of what they hold.
pub proof fn lemma_wrappers_are_transparent<T: BytePack + ByteUnpack>(m: T::Model, buf: Seq<u8>)
    ensures
        <Box<T> as ByteSize>::size_of(m) == T::size_of(m),
        <Rc<T> as ByteSize>::size_of(m) == T::size_of(m),
        <Arc<T> as ByteSize>::size_of(m) == T::size_of(m),
        <Box<T> as BytePack>::writable(m) == T::writable(m),
        <Rc<T> as BytePack>::writable(m) == T::writable(m),
        <Arc<T> as BytePack>::writable(m) == T::writable(m),
        <Box<T> as BytePack>::layout(m) == T::layout(m),
        <Rc<T> as BytePack>::layout(m) == T::layout(m),
        <Arc<T> as BytePack>::layout(m) == T::layout(m),
        <Box<T> as ByteUnpack>::parse(buf) == T::parse(buf),
        <Rc<T> as ByteUnpack>::parse(buf) == T::parse(buf),
        <Arc<T> as ByteUnpack>::parse(buf) == T::parse(buf),
{
}

/// Bytes that a solid pattern describes are the bytes of the pattern.
pub proof fn lemma_fits_solid(bytes: Seq<u8>, other: Seq<u8>)
    requires
        fits(solid(bytes), other),
    ensures
        other == bytes,
{
}

/// The pattern of a sequence is the pattern of its first element followed
/// by the pattern of the rest.
pub proof fn lemma_layout_all_first<T: BytePack>(ms: Seq<T::Model>)
    requires
        ms.len() > 0,
    ensures
        layout_all::<T>(ms) == T::layout(ms.first()) + layout_all::<T>(ms.drop_first()),
    decreases ms.len(),
{
    if ms.len() == 1 {
        assert(ms.drop_last() =~= ms.drop_first());
    } else {
        lemma_layout_all_first::<T>(ms.drop_last());
        assert(ms.drop_last().drop_first() =~= ms.drop_first().drop_last());
    }
}

/// Reading as many elements as were written, from what was written, gives
/// the elements back, whatever follows.
pub proof fn lemma_round_trip_count<T: RoundTrip>(ms: Seq<T::Model>, bytes: Seq<u8>, rest: Seq<u8>)
    requires
        all_writable::<T>(ms),
        fits(layout_all::<T>(ms), bytes),
    ensures
        parse_count::<T>(bytes + rest, ms.len()) == Ok::<Seq<T::Model>, Error>(ms),
    decreases ms.len(),
{
    if ms.len() == 0 {
        assert(ms =~= Seq::empty());
    } else {
        let first = ms.first();
        let tail = ms.drop_first();
        lemma_layout_all_first::<T>(ms);
        T::layout_len(first);
        let n = T::size_of(first) as int;
        let b0 = bytes.take(n);
        let b1 = bytes.skip(n);
        assert(bytes + rest =~= b0 + (b1 + rest));
        T::round_trip(first, b0, b1 + rest);
        assert((bytes + rest).skip(n) =~= b1 + rest);
        lemma_round_trip_count::<T>(tail, b1, rest);
        assert(seq![first] + tail =~= ms);
    }
}

/// Elements that were read have encodings, and the bytes that they were
/// read from are these encodings, one after the other.
pub proof fn lemma_parse_count_is_encoding<T: RoundTrip>(buf: Seq<u8>, count: nat)
    ensures
        parse_count::<T>(buf, count) matches Ok(ms) ==> ms.len() == count && all_writable::<T>(ms)
            && fits(layout_all::<T>(ms), buf.take(total_size::<T>(ms) as int)),
    decreases count,
{
    if count > 0 {
        if let Ok(m) = T::parse(buf) {
            T::parse_within(buf);
            T::parse_is_encoding(buf);
            let n = T::size_of(m) as int;
            let rest = buf.skip(n);
            lemma_parse_count_is_encoding::<T>(rest, (count - 1) as nat);
            lemma_parse_count_within::<T>(rest, (count - 1) as nat);
            if let Ok(tail) = parse_count::<T>(rest, (count - 1) as nat) {
                let ms = seq![m] + tail;
                assert(ms.drop_first() =~= tail);
                lemma_total_size_first::<T>(ms);
                lemma_layout_all_first::<T>(ms);
                let t = total_size::<T>(tail) as int;
                assert(buf.take(n + t) =~= buf.take(n) + rest.take(t));
            }
        }
    }
}

/// Elements of constant size lie at a fixed stride: of `count` elements
/// that were read, element `k` is the one that is read `k` times the size
/// of an element into the input.
pub proof fn lemma_parse_count_stride<T: ByteUnpack + ConstByteSize>(
    buf: Seq<u8>,
    count: nat,
    k: int,
)
    requires
        0 <= k < count,
    ensures
        parse_count::<T>(buf, count) matches Ok(ms) ==> T::parse(
            buf.skip(k * T::const_size()),
        ) == Ok::<T::Model, Error>(ms[k]),
    decreases count,
{
    if let Ok(m) = T::parse(buf) {
        T::size_is_const(m);
        T::parse_within(buf);
        let rest = buf.skip(T::size_of(m) as int);
        if let Ok(tail) = parse_count::<T>(rest, (count - 1) as nat) {
            if k == 0 {
                assert(buf.skip(0) =~= buf);
            } else {
                lemma_parse_count_stride::<T>(rest, (count - 1) as nat, k - 1);
                lemma_parse_count_within::<T>(rest, (count - 1) as nat);
                lemma_total_size_const::<T>(tail);
                assert((k - 1) * T::const_size() <= (count - 1) * T::const_size())
                    by (nonlinear_arith)
                    requires
                        k <= count,
                ;
                assert(k * T::const_size() == T::const_size() + (k - 1) * T::const_size())
                    by (nonlinear_arith);
                assert(rest.skip((k - 1) * T::const_size()) =~= buf.skip(k * T::const_size()));
            }
        }
    }
}

/// Reading to the end of what a splat write produced gives the elements
/// back, as long as each of them occupies at least one byte.
pub proof fn lemma_round_trip_to_end<T: RoundTrip>(ms: Seq<T::Model>, bytes: Seq<u8>)
    requires
        all_writable::<T>(ms),
        forall|i: int| 0 <= i < ms.len() ==> T::size_of(#[trigger] ms[i]) > 0,
        fits(layout_all::<T>(ms), bytes),
    ensures
        parse_to_end::<T>(bytes) == Ok::<Seq<T::Model>, Error>(ms),
    decreases ms.len(),
{
    if ms.len() == 0 {
        assert(ms =~= Seq::empty());
    } else {
        let first = ms.first();
        let tail = ms.drop_first();
        lemma_layout_all_first::<T>(ms);
        T::layout_len(first);
        let n = T::size_of(first) as int;
        let b0 = bytes.take(n);
        let b1 = bytes.skip(n);
        assert(bytes =~= b0 + b1);
        T::round_trip(first, b0, b1);
        lemma_round_trip_to_end::<T>(tail, b1);
        assert(seq![first] + tail =~= ms);
    }
}

/// What a `SplatVec` writes, a `DrainVec` at the end of the input reads
/// back: the same elements in the same order.
pub proof fn lemma_drain_reads_splat<T: RoundTrip>(ms: Seq<T::Model>, bytes: Seq<u8>)
    requires
        <SplatVec<T> as BytePack>::writable(ms),
        forall|i: int| 0 <= i < ms.len() ==> T::size_of(#[trigger] ms[i]) > 0,
        fits(<SplatVec<T> as BytePack>::layout(ms), bytes),
    ensures
        <DrainVec<T> as ByteUnpack>::parse(bytes) == Ok::<Seq<T::Model>, Error>(ms),
{
    lemma_round_trip_to_end::<T>(ms, bytes);
}

/// What a `SplatDrain` writes in its `Splat` state, it reads back at the
/// end of the input in its `Drain` state: the same elements in the same
/// order.
pub proof fn lemma_splat_drain_round_trip<T: RoundTrip>(ms: Seq<T::Model>, bytes: Seq<u8>)
    requires
        <SplatDrain<T> as BytePack>::writable(SplatDrainModel::Splat(ms)),
        forall|i: int| 0 <= i < ms.len() ==> T::size_of(#[trigger] ms[i]) > 0,
        fits(<SplatDrain<T> as BytePack>::layout(SplatDrainModel::Splat(ms)), bytes),
    ensures
        <SplatDrain<T> as ByteUnpack>::parse(bytes) == Ok::<SplatDrainModel<T::Model>, Error>(
            SplatDrainModel::Drain(ms),
        ),
{
    lemma_round_trip_to_end::<T>(ms, bytes);
}

/// An input of `2 * k` bytes read to its end as big-endian `u16` holds
/// exactly `k` elements, element `i` being the number in bytes `2 * i` and
/// `2 * i + 1`. An input of odd length ends in half an element and is
/// refused.
pub proof fn lemma_drain_u16(buf: Seq<u8>)
    ensures
        buf.len() % 2 == 0 ==> (parse_to_end::<u16>(buf) matches Ok(ms) && ms.len() == buf.len() / 2
            && forall|i: int|
            0 <= i < ms.len() ==> #[trigger] ms[i] == be_value(buf.subrange(2 * i, 2 * i + 2))),
        buf.len() % 2 == 1 ==> parse_to_end::<u16>(buf) == Err::<Seq<u16>, Error>(Error::Truncated),
    decreases buf.len(),
{
    if buf.len() >= 2 {
        let rest = buf.skip(2);
        lemma_drain_u16(rest);
        lemma_value_bound(buf.take(2));
        lemma_pow256_values();
        if buf.len() % 2 == 0 {
            let first = be_value(buf.take(2)) as u16;
            let tail = parse_to_end::<u16>(rest)->Ok_0;
            let ms = seq![first] + tail;
            assert forall|i: int| 0 <= i < ms.len() implies #[trigger] ms[i] == be_value(
                buf.subrange(2 * i, 2 * i + 2),
            ) by {
                if i > 0 {
                    assert(rest.subrange(2 * (i - 1), 2 * (i - 1) + 2) =~= buf.subrange(
                        2 * i,
                        2 * i + 2,
                    ));
                }
            }
        }
    }
}

impl RoundTrip for u8 {
    proof fn round_trip(m: u8, bytes: Seq<u8>, rest: Seq<u8>) {
        lemma_pow256_values();
        lemma_bytes_len(m as nat, 1);
        lemma_fits_solid(be_bytes(m as nat, 1), bytes);
        lemma_value_of_bytes(m as nat, 1);
        assert((bytes + rest).take(1) =~= bytes);
    }

    proof fn parse_is_encoding(buf: Seq<u8>) {
        if buf.len() >= 1 {
            let digits = buf.take(1);
            lemma_pow256_values();
            lemma_value_bound(digits);
            lemma_bytes_of_value(digits);
        }
    }
}

impl RoundTrip for u16 {
    proof fn round_trip(m: u16, bytes: Seq<u8>, rest: Seq<u8>) {
        lemma_pow256_values();
        lemma_bytes_len(m as nat, 2);
        lemma_fits_solid(be_bytes(m as nat, 2), bytes);
        lemma_value_of_bytes(m as nat, 2);
        assert((bytes + rest).take(2) =~= bytes);
    }

    proof fn parse_is_encoding(buf: Seq<u8>) {
        if buf.len() >= 2 {
            let digits = buf.take(2);
            lemma_pow256_values();
            lemma_value_bound(digits);
            lemma_bytes_of_value(digits);
        }
    }
}

impl RoundTrip for u32 {
    proof fn round_trip(m: u32, bytes: Seq<u8>, rest: Seq<u8>) {
        lemma_pow256_values();
        lemma_bytes_len(m as nat, 4);
        lemma_fits_solid(be_bytes(m as nat, 4), bytes);
        lemma_value_of_bytes(m as nat, 4);
        assert((bytes + rest).take(4) =~= bytes);
    }

    proof fn parse_is_encoding(buf: Seq<u8>) {
        if buf.len() >= 4 {
            let digits = buf.take(4);
            lemma_pow256_values();
            lemma_value_bound(digits);
            lemma_bytes_of_value(digits);
        }
    }
}

impl RoundTrip for u64 {
    proof fn round_trip(m: u64, bytes: Seq<u8>, rest: Seq<u8>) {
        lemma_pow256_values();
        lemma_bytes_len(m as nat, 8);
        lemma_fits_solid(be_bytes(m as nat, 8), bytes);
        lemma_value_of_bytes(m as nat, 8);
        assert((bytes + rest).take(8) =~= bytes);
    }

    proof fn parse_is_encoding(buf: Seq<u8>) {
        if buf.len() >= 8 {
            let digits = buf.take(8);
            lemma_pow256_values();
            lemma_value_bound(digits);
            lemma_bytes_of_value(digits);
        }
    }
}

impl RoundTrip for u128 {
    proof fn round_trip(m: u128, bytes: Seq<u8>, rest: Seq<u8>) {
        lemma_pow256_values();
        lemma_bytes_len(m as nat, 16);
        lemma_fits_solid(be_bytes(m as nat, 16), bytes);
        lemma_value_of_bytes(m as nat, 16);
        assert((bytes + rest).take(16) =~= bytes);
    }

    proof fn parse_is_encoding(buf: Seq<u8>) {
        if buf.len() >= 16 {
            let digits = buf.take(16);
            lemma_pow256_values();
            lemma_value_bound(digits);
            lemma_bytes_of_value(digits);
        }
    }
}

impl RoundTrip for i8 {
    proof fn round_trip(m: i8, bytes: Seq<u8>, rest: Seq<u8>) {
        lemma_pow256_values();
        lemma_bytes_len(to_unsigned(m as int, 1), 1);
        lemma_fits_solid(be_bytes(to_unsigned(m as int, 1), 1), bytes);
        lemma_value_of_bytes(to_unsigned(m as int, 1), 1);
        assert((bytes + rest).take(1) =~= bytes);
    }

    proof fn parse_is_encoding(buf: Seq<u8>) {
        if buf.len() >= 1 {
            let digits = buf.take(1);
            lemma_pow256_values();
            lemma_value_bound(digits);
            lemma_bytes_of_value(digits);
        }
    }
}

impl RoundTrip for i16 {
    proof fn round_trip(m: i16, bytes: Seq<u8>, rest: Seq<u8>) {
        lemma_pow256_values();
        lemma_bytes_len(to_unsigned(m as int, 2), 2);
        lemma_fits_solid(be_bytes(to_unsigned(m as int, 2), 2), bytes);
        lemma_value_of_bytes(to_unsigned(m as int, 2), 2);
        assert((bytes + rest).take(2) =~= bytes);
    }

    proof fn parse_is_encoding(buf: Seq<u8>) {
        if buf.len() >= 2 {
            let digits = buf.take(2);
            lemma_pow256_values();
            lemma_value_bound(digits);
            lemma_bytes_of_value(digits);
        }
    }
}

impl RoundTrip for i32 {
    proof fn round_trip(m: i32, bytes: Seq<u8>, rest: Seq<u8>) {
        lemma_pow256_values();
        lemma_bytes_len(to_unsigned(m as int, 4), 4);
        lemma_fits_solid(be_bytes(to_unsigned(m as int, 4), 4), bytes);
        lemma_value_of_bytes(to_unsigned(m as int, 4), 4);
        assert((bytes + rest).take(4) =~= bytes);
    }

    proof fn parse_is_encoding(buf: Seq<u8>) {
        if buf.len() >= 4 {
            let digits = buf.take(4);
            lemma_pow256_values();
            lemma_value_bound(digits);
            lemma_bytes_of_value(digits);
        }
    }
}

impl RoundTrip for i64 {
    proof fn round_trip(m: i64, bytes: Seq<u8>, rest: Seq<u8>) {
        lemma_pow256_values();
        lemma_bytes_len(to_unsigned(m as int, 8), 8);
        lemma_fits_solid(be_bytes(to_unsigned(m as int, 8), 8), bytes);
        lemma_value_of_bytes(to_unsigned(m as int, 8), 8);
        assert((bytes + rest).take(8) =~= bytes);
    }

    proof fn parse_is_encoding(buf: Seq<u8>) {
        if buf.len() >= 8 {
            let digits = buf.take(8);
            lemma_pow256_values();
            lemma_value_bound(digits);
            lemma_bytes_of_value(digits);
        }
    }
}

impl RoundTrip for i128 {
    proof fn round_trip(m: i128, bytes: Seq<u8>, rest: Seq<u8>) {
        lemma_pow256_values();
        lemma_bytes_len(to_unsigned(m as int, 16), 16);
        lemma_fits_solid(be_bytes(to_unsigned(m as int, 16), 16), bytes);
        lemma_value_of_bytes(to_unsigned(m as int, 16), 16);
        assert((bytes + rest).take(16) =~= bytes);
    }

    proof fn parse_is_encoding(buf: Seq<u8>) {
        if buf.len() >= 16 {
            let digits = buf.take(16);
            lemma_pow256_values();
            lemma_value_bound(digits);
            lemma_bytes_of_value(digits);
        }
    }
}

impl RoundTrip for LEu16 {
    proof fn round_trip(m: u16, bytes: Seq<u8>, rest: Seq<u8>) {
        lemma_pow256_values();
        lemma_bytes_len(m as nat, 2);
        lemma_fits_solid(le_bytes(m as nat, 2), bytes);
        lemma_value_of_bytes(m as nat, 2);
        assert((bytes + rest).take(2) =~= bytes);
    }

    proof fn parse_is_encoding(buf: Seq<u8>) {
        if buf.len() >= 2 {
            let digits = buf.take(2);
            lemma_pow256_values();
            lemma_value_bound(digits);
            lemma_bytes_of_value(digits);
        }
    }
}

impl RoundTrip for LEu32 {
    proof fn round_trip(m: u32, bytes: Seq<u8>, rest: Seq<u8>) {
        lemma_pow256_values();
        lemma_bytes_len(m as nat, 4);
        lemma_fits_solid(le_bytes(m as nat, 4), bytes);
        lemma_value_of_bytes(m as nat, 4);
        assert((bytes + rest).take(4) =~= bytes);
    }

    proof fn parse_is_encoding(buf: Seq<u8>) {
        if buf.len() >= 4 {
            let digits = buf.take(4);
            lemma_pow256_values();
            lemma_value_bound(digits);
            lemma_bytes_of_value(digits);
        }
    }
}

impl RoundTrip for LEu64 {
    proof fn round_trip(m: u64, bytes: Seq<u8>, rest: Seq<u8>) {
        lemma_pow256_values();
        lemma_bytes_len(m as nat, 8);
        lemma_fits_solid(le_bytes(m as nat, 8), bytes);
        lemma_value_of_bytes(m as nat, 8);
        assert((bytes + rest).take(8) =~= bytes);
    }

    proof fn parse_is_encoding(buf: Seq<u8>) {
        if buf.len() >= 8 {
            let digits = buf.take(8);
            lemma_pow256_values();
            lemma_value_bound(digits);
            lemma_bytes_of_value(digits);
        }
    }
}

impl RoundTrip for LEu128 {
    proof fn round_trip(m: u128, bytes: Seq<u8>, rest: Seq<u8>) {
        lemma_pow256_values();
        lemma_bytes_len(m as nat, 16);
        lemma_fits_solid(le_bytes(m as nat, 16), bytes);
        lemma_value_of_bytes(m as nat, 16);
        assert((bytes + rest).take(16) =~= bytes);
    }

    proof fn parse_is_encoding(buf: Seq<u8>) {
        if buf.len() >= 16 {
            let digits = buf.take(16);
            lemma_pow256_values();
            lemma_value_bound(digits);
            lemma_bytes_of_value(digits);
        }
    }
}

impl RoundTrip for LEi16 {
    proof fn round_trip(m: i16, bytes: Seq<u8>, rest: Seq<u8>) {
        lemma_pow256_values();
        lemma_bytes_len(to_unsigned(m as int, 2), 2);
        lemma_fits_solid(le_bytes(to_unsigned(m as int, 2), 2), bytes);
        lemma_value_of_bytes(to_unsigned(m as int, 2), 2);
        assert((bytes + rest).take(2) =~= bytes);
    }

    proof fn parse_is_encoding(buf: Seq<u8>) {
        if buf.len() >= 2 {
            let digits = buf.take(2);
            lemma_pow256_values();
            lemma_value_bound(digits);
            lemma_bytes_of_value(digits);
        }
    }
}

impl RoundTrip for LEi32 {
    proof fn round_trip(m: i32, bytes: Seq<u8>, rest: Seq<u8>) {
        lemma_pow256_values();
        lemma_bytes_len(to_unsigned(m as int, 4), 4);
        lemma_fits_solid(le_bytes(to_unsigned(m as int, 4), 4), bytes);
        lemma_value_of_bytes(to_unsigned(m as int, 4), 4);
        assert((bytes + rest).take(4) =~= bytes);
    }

    proof fn parse_is_encoding(buf: Seq<u8>) {
        if buf.len() >= 4 {
            let digits = buf.take(4);
            lemma_pow256_values();
            lemma_value_bound(digits);
            lemma_bytes_of_value(digits);
        }
    }
}

impl RoundTrip for LEi64 {
    proof fn round_trip(m: i64, bytes: Seq<u8>, rest: Seq<u8>) {
        lemma_pow256_values();
        lemma_bytes_len(to_unsigned(m as int, 8), 8);
        lemma_fits_solid(le_bytes(to_unsigned(m as int, 8), 8), bytes);
        lemma_value_of_bytes(to_unsigned(m as int, 8), 8);
        assert((bytes + rest).take(8) =~= bytes);
    }

    proof fn parse_is_encoding(buf: Seq<u8>) {
        if buf.len() >= 8 {
            let digits = buf.take(8);
            lemma_pow256_values();
            lemma_value_bound(digits);
            lemma_bytes_of_value(digits);
        }
    }
}

impl RoundTrip for LEi128 {
    proof fn round_trip(m: i128, bytes: Seq<u8>, rest: Seq<u8>) {
        lemma_pow256_values();
        lemma_bytes_len(to_unsigned(m as int, 16), 16);
        lemma_fits_solid(le_bytes(to_unsigned(m as int, 16), 16), bytes);
        lemma_value_of_bytes(to_unsigned(m as int, 16), 16);
        assert((bytes + rest).take(16) =~= bytes);
    }

    proof fn parse_is_encoding(buf: Seq<u8>) {
        if buf.len() >= 16 {
            let digits = buf.take(16);
            lemma_pow256_values();
            lemma_value_bound(digits);
            lemma_bytes_of_value(digits);
        }
    }
}

impl<T: RoundTrip + ConstByteSize, const N: usize> RoundTrip for [T; N] {
    proof fn round_trip(m: Seq<T::Model>, bytes: Seq<u8>, rest: Seq<u8>) {
        lemma_round_trip_count::<T>(m, bytes, rest);
    }

    proof fn parse_is_encoding(buf: Seq<u8>) {
        lemma_parse_count_is_encoding::<T>(buf, N as nat);
    }
}

impl<T: RoundTrip> RoundTrip for Box<T> {
    proof fn round_trip(m: T::Model, bytes: Seq<u8>, rest: Seq<u8>) {
        T::round_trip(m, bytes, rest);
    }

    proof fn parse_is_encoding(buf: Seq<u8>) {
        T::parse_is_encoding(buf);
    }
}

impl<T: RoundTrip> RoundTrip for Rc<T> {
    proof fn round_trip(m: T::Model, bytes: Seq<u8>, rest: Seq<u8>) {
        T::round_trip(m, bytes, rest);
    }

    proof fn parse_is_encoding(buf: Seq<u8>) {
        T::parse_is_encoding(buf);
    }
}

impl<T: RoundTrip> RoundTrip for Arc<T> {
    proof fn round_trip(m: T::Model, bytes: Seq<u8>, rest: Seq<u8>) {
        T::round_trip(m, bytes, rest);
    }

    proof fn parse_is_encoding(buf: Seq<u8>) {
        T::parse_is_encoding(buf);
    }
}

impl<T: RoundTrip> RoundTrip for SizedVec<T> {
    proof fn round_trip(m: Seq<T::Model>, bytes: Seq<u8>, rest: Seq<u8>) {
        let prefix = be_bytes(m.len(), 4);
        lemma_pow256_values();
        lemma_bytes_len(m.len(), 4);
        lemma_fits_solid(prefix, bytes.take(4));
        lemma_value_of_bytes(m.len(), 4);
        assert((bytes + rest).take(4) =~= bytes.take(4));
        assert((bytes + rest).skip(4) =~= bytes.skip(4) + rest);
        lemma_round_trip_count::<T>(m, bytes.skip(4), rest);
    }

    proof fn parse_is_encoding(buf: Seq<u8>) {
        if buf.len() >= 4 {
            let prefix = buf.take(4);
            let count = be_value(prefix);
            let rest = buf.skip(4);
            lemma_pow256_values();
            lemma_value_bound(prefix);
            lemma_bytes_of_value(prefix);
            lemma_parse_count_is_encoding::<T>(rest, count);
            lemma_parse_count_within::<T>(rest, count);
            if let Ok(ms) = parse_count::<T>(rest, count) {
                let t = total_size::<T>(ms) as int;
                assert(buf.take(4 + t) =~= prefix + rest.take(t));
            }
        }
    }
}

impl<T: RoundTrip + ConstByteSize, const N: usize> RoundTrip for Throw<T, N> {
    proof fn round_trip(m: (), bytes: Seq<u8>, rest: Seq<u8>) {
    }

    proof fn parse_is_encoding(buf: Seq<u8>) {
    }
}

impl RoundTrip for String {
    proof fn round_trip(m: Seq<char>, bytes: Seq<u8>, rest: Seq<u8>) {
        let text = encode_utf8(m);
        let prefix = be_bytes(text.len(), 4);
        lemma_pow256_values();
        lemma_bytes_len(text.len(), 4);
        lemma_value_of_bytes(text.len(), 4);
        assert((bytes + rest).take(4) =~= prefix);
        assert((bytes + rest).subrange(4, 4 + text.len() as int) =~= text);
        encode_utf8_valid_utf8(m);
        encode_utf8_decode_utf8(m);
    }

    proof fn parse_is_encoding(buf: Seq<u8>) {
        if let Ok(m) = Self::parse(buf) {
            let prefix = buf.take(4);
            let len = be_value(prefix);
            let text = buf.subrange(4, 4 + len as int);
            lemma_pow256_values();
            lemma_value_bound(prefix);
            lemma_bytes_of_value(prefix);
            decode_utf8_encode_utf8(text);
        }
    }
}

impl<A: RoundTrip, B: RoundTrip> RoundTrip for (A, B) {
    proof fn round_trip(m: (A::Model, B::Model), bytes: Seq<u8>, rest: Seq<u8>) {
        let n = A::size_of(m.0) as int;
        let (first, second) = (bytes.take(n), bytes.skip(n));
        A::layout_len(m.0);
        A::round_trip(m.0, first, second + rest);
        B::round_trip(m.1, second, rest);
        assert(bytes + rest =~= first + (second + rest));
        assert((bytes + rest).skip(n) =~= second + rest);
    }

    proof fn parse_is_encoding(buf: Seq<u8>) {
        A::parse_within(buf);
        A::parse_is_encoding(buf);
        if let Ok(a) = A::parse(buf) {
            let n = A::size_of(a) as int;
            let behind = buf.skip(n);
            B::parse_within(behind);
            B::parse_is_encoding(behind);
            if let Ok(b) = B::parse(behind) {
                let k = B::size_of(b) as int;
                assert(buf.take(n + k) =~= buf.take(n) + behind.take(k));
            }
        }
    }
}

/// A record of three fields is its first field followed by the record of
/// the other two.
impl<A: RoundTrip, B: RoundTrip, C: RoundTrip> RoundTrip for (A, B, C) {
    proof fn round_trip(m: (A::Model, B::Model, C::Model), bytes: Seq<u8>, rest: Seq<u8>) {
        let all = bytes + rest;
        A::layout_len(m.0);
        B::layout_len(m.1);
        <(A, (B, C)) as RoundTrip>::round_trip((m.0, (m.1, m.2)), bytes, rest);
        assert(all.skip(A::size_of(m.0) as int).skip(B::size_of(m.1) as int) =~= all.skip(
            (A::size_of(m.0) + B::size_of(m.1)) as int,
        ));
    }

    proof fn parse_is_encoding(buf: Seq<u8>) {
        <(A, (B, C)) as RoundTrip>::parse_is_encoding(buf);
        if let Ok(a) = A::parse(buf) {
            let behind = buf.skip(A::size_of(a) as int);
            A::parse_within(buf);
            if let Ok(b) = B::parse(behind) {
                B::parse_within(behind);
                assert(behind.skip(B::size_of(b) as int) =~= buf.skip(
                    (A::size_of(a) + B::size_of(b)) as int,
                ));
            }
        }
    }
}

/// A record of four fields is its first field followed by the record of
/// the other three.
impl<A: RoundTrip, B: RoundTrip, C: RoundTrip, D: RoundTrip> RoundTrip for (A, B, C, D) {
    proof fn round_trip(
        m: (A::Model, B::Model, C::Model, D::Model),
        bytes: Seq<u8>,
        rest: Seq<u8>,
    ) {
        let all = bytes + rest;
        let (sa, sb, sc) = (A::size_of(m.0), B::size_of(m.1), C::size_of(m.2));
        A::layout_len(m.0);
        B::layout_len(m.1);
        C::layout_len(m.2);
        <(A, (B, C, D)) as RoundTrip>::round_trip((m.0, (m.1, m.2, m.3)), bytes, rest);
        assert(all.skip(sa as int).skip(sb as int) =~= all.skip((sa + sb) as int));
        assert(all.skip(sa as int).skip((sb + sc) as int) =~= all.skip((sa + sb + sc) as int));
    }

    proof fn parse_is_encoding(buf: Seq<u8>) {
        <(A, (B, C, D)) as RoundTrip>::parse_is_encoding(buf);
        if let Ok(a) = A::parse(buf) {
            let sa = A::size_of(a);
            let behind = buf.skip(sa as int);
            A::parse_within(buf);
            if let Ok(b) = B::parse(behind) {
                let sb = B::size_of(b);
                B::parse_within(behind);
                assert(behind.skip(sb as int) =~= buf.skip((sa + sb) as int));
                if let Ok(c) = C::parse(behind.skip(sb as int)) {
                    let sc = C::size_of(c);
                    C::parse_within(behind.skip(sb as int));
                    assert(behind.skip((sb + sc) as int) =~= buf.skip((sa + sb + sc) as int));
                }
            }
        }
    }
}

} // verus!
