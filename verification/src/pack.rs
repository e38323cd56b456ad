//! The writer capability and the top-level encoder.
//!
//! What a writer does to a region is described by a pattern: one entry for
//! each byte that the value occupies, either the byte that is written there
//! or nothing, where the writer leaves the byte as it finds it.
use crate::base::{
    lemma_total_size_prefix, models, saturating_product, sum_sizes, total_size, ByteSize,
    ConstByteSize, LEi128, LEi16, LEi32, LEi64, LEu128, LEu16, LEu32, LEu64, SizeType, SizedVec,
    SplatDrain, SplatDrainModel, SplatVec, Throw, SIZE_FIELD_WIDTH,
};
use crate::endian::{
    be_bytes, i128_to_bits, i16_to_bits, i32_to_bits, i64_to_bits, i8_to_bits, le_bytes,
    lemma_bytes_len, put_be, put_le, to_unsigned,
};
use crate::error::Error;
use std::rc::Rc;
use std::sync::Arc;
use vstd::prelude::*;
use vstd::utf8::encode_utf8;

verus! {

/// The pattern that fixes every byte of `bytes`.
pub open spec fn solid(bytes: Seq<u8>) -> Seq<Option<u8>> {
    Seq::new(bytes.len(), |i: int| Some(bytes[i]))
}

/// The pattern of `n` bytes that fixes none of them.
pub open spec fn blank(n: nat) -> Seq<Option<u8>> {
    Seq::new(n, |i: int| None)
}

/// `region` after `pattern` was written at its front: the bytes that the
/// pattern fixes are replaced, all others are kept.
pub open spec fn stamp(pattern: Seq<Option<u8>>, region: Seq<u8>) -> Seq<u8> {
    Seq::new(
        region.len(),
        |i: int|
            if i < pattern.len() && pattern[i] is Some {
                pattern[i]->0
            } else {
                region[i]
            },
    )
}

/// Whether `bytes` is an encoding that `pattern` describes: as long as the
/// pattern, and equal to it wherever the pattern fixes a byte.
pub open spec fn fits(pattern: Seq<Option<u8>>, bytes: Seq<u8>) -> bool {
    &&& bytes.len() == pattern.len()
    &&& forall|i: int| 0 <= i < pattern.len() && pattern[i] is Some ==> bytes[i] == pattern[i]->0
}

/// `n` zero bytes.
pub open spec fn zeros(n: nat) -> Seq<u8> {
    Seq::new(n, |i: int| 0u8)
}

/// What a write returns: `size` is the number of bytes that the value
/// occupies, `writable` whether it has an encoding, `len` the length of the
/// region.
pub open spec fn pack_outcome(size: nat, writable: bool, len: nat) -> Result<(), Error> {
    if len < size {
        Err(Error::BufferTooSmall)
    } else if !writable {
        Err(Error::InvalidState)
    } else {
        Ok(())
    }
}

/// The writer capability: puts the encoding of a value at the front of a
/// region.
pub trait BytePack: ByteSize {
    /// Whether `m` is a value of the type that has an encoding.
    spec fn writable(m: Self::Model) -> bool;

    /// The pattern that writing `m` leaves at the front of a region.
    spec fn layout(m: Self::Model) -> Seq<Option<u8>>;

    /// The pattern covers exactly the bytes that the value occupies.
    proof fn layout_len(m: Self::Model)
        ensures
            Self::layout(m).len() == Self::size_of(m),
    ;

    /// Whether `self` has an encoding.
    fn can_pack(&self) -> (b: bool)
        ensures
            b == Self::writable(self.model()),
    ;

    /// Writes `self` at the front of `buf`.
    ///
    /// The write succeeds exactly when `buf` has room for the value and the
    /// value has an encoding. It then changes the first `size_of` bytes as
    /// the layout says and nothing else. A write that fails leaves `buf` as
    /// it was.
    fn pack(&self, buf: &mut [u8]) -> (r: Result<(), Error>)
        requires
            Self::size_of(self.model()) <= usize::MAX,
        ensures
            r == pack_outcome(
                Self::size_of(self.model()),
                Self::writable(self.model()),
                old(buf)@.len(),
            ),
            r is Ok ==> final(buf)@ == stamp(Self::layout(self.model()), old(buf)@),
            r is Err ==> final(buf)@ == old(buf)@,
    ;
}

/// Encodes `val` into a fresh buffer of exactly its size.
///
/// The buffer starts out as zeros, so a byte that the layout of the value
/// does not fix is zero in the result.
pub fn pack_value<T: BytePack>(val: &T) -> (r: Result<Vec<u8>, Error>)
    requires
        T::size_of(val.model()) <= usize::MAX,
    ensures
        match r {
            Ok(bytes) => T::writable(val.model()) && bytes@ == stamp(
                T::layout(val.model()),
                zeros(T::size_of(val.model())),
            ),
            Err(e) => !T::writable(val.model()) && e == Error::InvalidState,
        },
{
    let n = val.byte_size();
    let mut buf_vec = vec![0u8; n];
    let buf = buf_vec.as_mut_slice();
    match val.pack(buf) {
        Ok(()) => Ok(buf_vec),
        Err(e) => Err(e),
    }
}

/// Writes the `width` low bytes of `v`, most significant first, if `buf`
/// has room for them.
pub fn pack_be(v: u128, width: usize, buf: &mut [u8]) -> (r: Result<(), Error>)
    ensures
        r == pack_outcome(width as nat, true, old(buf)@.len()),
        r is Ok ==> final(buf)@ == stamp(solid(be_bytes(v as nat, width as nat)), old(buf)@),
        r is Err ==> final(buf)@ == old(buf)@,
{
    if buf.len() < width {
        return Err(Error::BufferTooSmall);
    }
    put_be(v, width, buf);
    proof {
        lemma_bytes_len(v as nat, width as nat);
    }
    Ok(())
}

/// Writes the `width` low bytes of `v`, least significant first, if `buf`
/// has room for them.
pub fn pack_le(v: u128, width: usize, buf: &mut [u8]) -> (r: Result<(), Error>)
    ensures
        r == pack_outcome(width as nat, true, old(buf)@.len()),
        r is Ok ==> final(buf)@ == stamp(solid(le_bytes(v as nat, width as nat)), old(buf)@),
        r is Err ==> final(buf)@ == old(buf)@,
{
    if buf.len() < width {
        return Err(Error::BufferTooSmall);
    }
    put_le(v, width, buf);
    proof {
        lemma_bytes_len(v as nat, width as nat);
    }
    Ok(())
}

/// Whether every value of a sequence has an encoding.
pub open spec fn all_writable<T: BytePack>(ms: Seq<T::Model>) -> bool {
    forall|i: int| 0 <= i < ms.len() ==> T::writable(#[trigger] ms[i])
}

/// The pattern of a sequence of values: the patterns of its elements, one
/// after the other.
pub open spec fn layout_all<T: BytePack>(ms: Seq<T::Model>) -> Seq<Option<u8>>
    decreases ms.len(),
{
    if ms.len() == 0 {
        Seq::empty()
    } else {
        layout_all::<T>(ms.drop_last()) + T::layout(ms.last())
    }
}

/// The pattern of a sequence covers exactly the bytes that the sequence
/// occupies.
pub proof fn lemma_layout_all_len<T: BytePack>(ms: Seq<T::Model>)
    ensures
        layout_all::<T>(ms).len() == total_size::<T>(ms),
    decreases ms.len(),
{
    if ms.len() > 0 {
        lemma_layout_all_len::<T>(ms.drop_last());
        T::layout_len(ms.last());
    }
}

/// Whether every element of `items` has an encoding.
pub fn all_can_pack<T: BytePack>(items: &[T]) -> (b: bool)
    ensures
        b == all_writable::<T>(models(items@)),
{
    let ghost ms = models(items@);
    let mut k: usize = 0;
    while k < items.len()
        invariant
            k <= items@.len(),
            ms == models(items@),
            forall|j: int| 0 <= j < k ==> T::writable(#[trigger] ms[j]),
        decreases items@.len() - k,
    {
        if !items[k].can_pack() {
            assert(!T::writable(ms[k as int]));
            return false;
        }
        k += 1;
    }
    true
}

/// Writes the elements of `items` one after the other at the front of
/// `buf`. Each of them has an encoding and `buf` has room for all of them,
/// so the write succeeds.
pub fn write_all<T: BytePack>(items: &[T], buf: &mut [u8]) -> (r: Result<(), Error>)
    requires
        total_size::<T>(models(items@)) <= old(buf)@.len(),
        all_writable::<T>(models(items@)),
    ensures
        r == Ok::<(), Error>(()),
        final(buf)@ == stamp(layout_all::<T>(models(items@)), old(buf)@),
{
    let ghost ms = models(items@);
    let total = buf.len();
    let mut at: usize = 0;
    let mut k: usize = 0;
    while k < items.len()
        invariant
            k <= items@.len(),
            ms == models(items@),
            total == buf@.len(),
            buf@.len() == old(buf)@.len(),
            total_size::<T>(ms) <= total,
            all_writable::<T>(ms),
            at == total_size::<T>(ms.take(k as int)),
            buf@ == stamp(layout_all::<T>(ms.take(k as int)), old(buf)@),
        decreases items@.len() - k,
    {
        proof {
            lemma_total_size_prefix::<T>(ms, k + 1);
            lemma_layout_all_len::<T>(ms.take(k as int));
            assert(ms.take(k + 1).drop_last() =~= ms.take(k as int));
        }
        let (_, tail) = buf.split_at_mut(at);
        items[k].pack(tail)?;
        at = at + items[k].byte_size();
        k += 1;
    }
    proof {
        assert(ms.take(k as int) =~= ms);
    }
    Ok(())
}

/// Writes the elements of `items` one after the other at the front of
/// `buf`, if `buf` has room for all of them and each has an encoding.
pub fn pack_all<T: BytePack>(items: &[T], buf: &mut [u8]) -> (r: Result<(), Error>)
    requires
        total_size::<T>(models(items@)) <= usize::MAX,
    ensures
        r == pack_outcome(
            total_size::<T>(models(items@)),
            all_writable::<T>(models(items@)),
            old(buf)@.len(),
        ),
        r is Ok ==> final(buf)@ == stamp(layout_all::<T>(models(items@)), old(buf)@),
        r is Err ==> final(buf)@ == old(buf)@,
{
    if buf.len() < sum_sizes(items) {
        return Err(Error::BufferTooSmall);
    }
    if !all_can_pack(items) {
        return Err(Error::InvalidState);
    }
    write_all(items, buf)
}

impl BytePack for u8 {
    open spec fn writable(m: u8) -> bool {
        true
    }

    open spec fn layout(m: u8) -> Seq<Option<u8>> {
        solid(be_bytes(m as nat, 1))
    }

    proof fn layout_len(m: u8) {
        lemma_bytes_len(m as nat, 1);
    }

    fn can_pack(&self) -> (b: bool) {
        true
    }

    fn pack(&self, buf: &mut [u8]) -> (r: Result<(), Error>) {
        pack_be(*self as u128, 1, buf)
    }
}

impl BytePack for u16 {
    open spec fn writable(m: u16) -> bool {
        true
    }

    open spec fn layout(m: u16) -> Seq<Option<u8>> {
        solid(be_bytes(m as nat, 2))
    }

    proof fn layout_len(m: u16) {
        lemma_bytes_len(m as nat, 2);
    }

    fn can_pack(&self) -> (b: bool) {
        true
    }

    fn pack(&self, buf: &mut [u8]) -> (r: Result<(), Error>) {
        pack_be(*self as u128, 2, buf)
    }
}

impl BytePack for u32 {
    open spec fn writable(m: u32) -> bool {
        true
    }

    open spec fn layout(m: u32) -> Seq<Option<u8>> {
        solid(be_bytes(m as nat, 4))
    }

    proof fn layout_len(m: u32) {
        lemma_bytes_len(m as nat, 4);
    }

    fn can_pack(&self) -> (b: bool) {
        true
    }

    fn pack(&self, buf: &mut [u8]) -> (r: Result<(), Error>) {
        pack_be(*self as u128, 4, buf)
    }
}

impl BytePack for u64 {
    open spec fn writable(m: u64) -> bool {
        true
    }

    open spec fn layout(m: u64) -> Seq<Option<u8>> {
        solid(be_bytes(m as nat, 8))
    }

    proof fn layout_len(m: u64) {
        lemma_bytes_len(m as nat, 8);
    }

    fn can_pack(&self) -> (b: bool) {
        true
    }

    fn pack(&self, buf: &mut [u8]) -> (r: Result<(), Error>) {
        pack_be(*self as u128, 8, buf)
    }
}

impl BytePack for u128 {
    open spec fn writable(m: u128) -> bool {
        true
    }

    open spec fn layout(m: u128) -> Seq<Option<u8>> {
        solid(be_bytes(m as nat, 16))
    }

    proof fn layout_len(m: u128) {
        lemma_bytes_len(m as nat, 16);
    }

    fn can_pack(&self) -> (b: bool) {
        true
    }

    fn pack(&self, buf: &mut [u8]) -> (r: Result<(), Error>) {
        pack_be(*self as u128, 16, buf)
    }
}

impl BytePack for i8 {
    open spec fn writable(m: i8) -> bool {
        true
    }

    open spec fn layout(m: i8) -> Seq<Option<u8>> {
        solid(be_bytes(to_unsigned(m as int, 1), 1))
    }

    proof fn layout_len(m: i8) {
        lemma_bytes_len(to_unsigned(m as int, 1), 1);
    }

    fn can_pack(&self) -> (b: bool) {
        true
    }

    fn pack(&self, buf: &mut [u8]) -> (r: Result<(), Error>) {
        pack_be(i8_to_bits(*self), 1, buf)
    }
}

impl BytePack for i16 {
    open spec fn writable(m: i16) -> bool {
        true
    }

    open spec fn layout(m: i16) -> Seq<Option<u8>> {
        solid(be_bytes(to_unsigned(m as int, 2), 2))
    }

    proof fn layout_len(m: i16) {
        lemma_bytes_len(to_unsigned(m as int, 2), 2);
    }

    fn can_pack(&self) -> (b: bool) {
        true
    }

    fn pack(&self, buf: &mut [u8]) -> (r: Result<(), Error>) {
        pack_be(i16_to_bits(*self), 2, buf)
    }
}

impl BytePack for i32 {
    open spec fn writable(m: i32) -> bool {
        true
    }

    open spec fn layout(m: i32) -> Seq<Option<u8>> {
        solid(be_bytes(to_unsigned(m as int, 4), 4))
    }

    proof fn layout_len(m: i32) {
        lemma_bytes_len(to_unsigned(m as int, 4), 4);
    }

    fn can_pack(&self) -> (b: bool) {
        true
    }

    fn pack(&self, buf: &mut [u8]) -> (r: Result<(), Error>) {
        pack_be(i32_to_bits(*self), 4, buf)
    }
}

impl BytePack for i64 {
    open spec fn writable(m: i64) -> bool {
        true
    }

    open spec fn layout(m: i64) -> Seq<Option<u8>> {
        solid(be_bytes(to_unsigned(m as int, 8), 8))
    }

    proof fn layout_len(m: i64) {
        lemma_bytes_len(to_unsigned(m as int, 8), 8);
    }

    fn can_pack(&self) -> (b: bool) {
        true
    }

    fn pack(&self, buf: &mut [u8]) -> (r: Result<(), Error>) {
        pack_be(i64_to_bits(*self), 8, buf)
    }
}

impl BytePack for i128 {
    open spec fn writable(m: i128) -> bool {
        true
    }

    open spec fn layout(m: i128) -> Seq<Option<u8>> {
        solid(be_bytes(to_unsigned(m as int, 16), 16))
    }

    proof fn layout_len(m: i128) {
        lemma_bytes_len(to_unsigned(m as int, 16), 16);
    }

    fn can_pack(&self) -> (b: bool) {
        true
    }

    fn pack(&self, buf: &mut [u8]) -> (r: Result<(), Error>) {
        pack_be(i128_to_bits(*self), 16, buf)
    }
}

impl BytePack for LEu16 {
    open spec fn writable(m: u16) -> bool {
        true
    }

    open spec fn layout(m: u16) -> Seq<Option<u8>> {
        solid(le_bytes(m as nat, 2))
    }

    proof fn layout_len(m: u16) {
        lemma_bytes_len(m as nat, 2);
    }

    fn can_pack(&self) -> (b: bool) {
        true
    }

    fn pack(&self, buf: &mut [u8]) -> (r: Result<(), Error>) {
        pack_le(self.0 as u128, 2, buf)
    }
}

impl BytePack for LEu32 {
    open spec fn writable(m: u32) -> bool {
        true
    }

    open spec fn layout(m: u32) -> Seq<Option<u8>> {
        solid(le_bytes(m as nat, 4))
    }

    proof fn layout_len(m: u32) {
        lemma_bytes_len(m as nat, 4);
    }

    fn can_pack(&self) -> (b: bool) {
        true
    }

    fn pack(&self, buf: &mut [u8]) -> (r: Result<(), Error>) {
        pack_le(self.0 as u128, 4, buf)
    }
}

impl BytePack for LEu64 {
    open spec fn writable(m: u64) -> bool {
        true
    }

    open spec fn layout(m: u64) -> Seq<Option<u8>> {
        solid(le_bytes(m as nat, 8))
    }

    proof fn layout_len(m: u64) {
        lemma_bytes_len(m as nat, 8);
    }

    fn can_pack(&self) -> (b: bool) {
        true
    }

    fn pack(&self, buf: &mut [u8]) -> (r: Result<(), Error>) {
        pack_le(self.0 as u128, 8, buf)
    }
}

impl BytePack for LEu128 {
    open spec fn writable(m: u128) -> bool {
        true
    }

    open spec fn layout(m: u128) -> Seq<Option<u8>> {
        solid(le_bytes(m as nat, 16))
    }

    proof fn layout_len(m: u128) {
        lemma_bytes_len(m as nat, 16);
    }

    fn can_pack(&self) -> (b: bool) {
        true
    }

    fn pack(&self, buf: &mut [u8]) -> (r: Result<(), Error>) {
        pack_le(self.0 as u128, 16, buf)
    }
}

impl BytePack for LEi16 {
    open spec fn writable(m: i16) -> bool {
        true
    }

    open spec fn layout(m: i16) -> Seq<Option<u8>> {
        solid(le_bytes(to_unsigned(m as int, 2), 2))
    }

    proof fn layout_len(m: i16) {
        lemma_bytes_len(to_unsigned(m as int, 2), 2);
    }

    fn can_pack(&self) -> (b: bool) {
        true
    }

    fn pack(&self, buf: &mut [u8]) -> (r: Result<(), Error>) {
        pack_le(i16_to_bits(self.0), 2, buf)
    }
}

impl BytePack for LEi32 {
    open spec fn writable(m: i32) -> bool {
        true
    }

    open spec fn layout(m: i32) -> Seq<Option<u8>> {
        solid(le_bytes(to_unsigned(m as int, 4), 4))
    }

    proof fn layout_len(m: i32) {
        lemma_bytes_len(to_unsigned(m as int, 4), 4);
    }

    fn can_pack(&self) -> (b: bool) {
        true
    }

    fn pack(&self, buf: &mut [u8]) -> (r: Result<(), Error>) {
        pack_le(i32_to_bits(self.0), 4, buf)
    }
}

impl BytePack for LEi64 {
    open spec fn writable(m: i64) -> bool {
        true
    }

    open spec fn layout(m: i64) -> Seq<Option<u8>> {
        solid(le_bytes(to_unsigned(m as int, 8), 8))
    }

    proof fn layout_len(m: i64) {
        lemma_bytes_len(to_unsigned(m as int, 8), 8);
    }

    fn can_pack(&self) -> (b: bool) {
        true
    }

    fn pack(&self, buf: &mut [u8]) -> (r: Result<(), Error>) {
        pack_le(i64_to_bits(self.0), 8, buf)
    }
}

impl BytePack for LEi128 {
    open spec fn writable(m: i128) -> bool {
        true
    }

    open spec fn layout(m: i128) -> Seq<Option<u8>> {
        solid(le_bytes(to_unsigned(m as int, 16), 16))
    }

    proof fn layout_len(m: i128) {
        lemma_bytes_len(to_unsigned(m as int, 16), 16);
    }

    fn can_pack(&self) -> (b: bool) {
        true
    }

    fn pack(&self, buf: &mut [u8]) -> (r: Result<(), Error>) {
        pack_le(i128_to_bits(self.0), 16, buf)
    }
}

impl<T: BytePack, const N: usize> BytePack for [T; N] {
    /// An array has `N` elements, and each of them has to have an encoding.
    open spec fn writable(m: Seq<T::Model>) -> bool {
        m.len() == N && all_writable::<T>(m)
    }

    open spec fn layout(m: Seq<T::Model>) -> Seq<Option<u8>> {
        layout_all::<T>(m)
    }

    proof fn layout_len(m: Seq<T::Model>) {
        lemma_layout_all_len::<T>(m);
    }

    fn can_pack(&self) -> (b: bool) {
        all_can_pack(self.as_slice())
    }

    fn pack(&self, buf: &mut [u8]) -> (r: Result<(), Error>) {
        pack_all(self.as_slice(), buf)
    }
}

impl<T: BytePack> BytePack for Box<T> {
    open spec fn writable(m: T::Model) -> bool {
        T::writable(m)
    }

    open spec fn layout(m: T::Model) -> Seq<Option<u8>> {
        T::layout(m)
    }

    proof fn layout_len(m: T::Model) {
        T::layout_len(m);
    }

    fn can_pack(&self) -> (b: bool) {
        (**self).can_pack()
    }

    fn pack(&self, buf: &mut [u8]) -> (r: Result<(), Error>) {
        (**self).pack(buf)
    }
}

impl<T: BytePack> BytePack for Rc<T> {
    open spec fn writable(m: T::Model) -> bool {
        T::writable(m)
    }

    open spec fn layout(m: T::Model) -> Seq<Option<u8>> {
        T::layout(m)
    }

    proof fn layout_len(m: T::Model) {
        T::layout_len(m);
    }

    fn can_pack(&self) -> (b: bool) {
        (**self).can_pack()
    }

    fn pack(&self, buf: &mut [u8]) -> (r: Result<(), Error>) {
        (**self).pack(buf)
    }
}

impl<T: BytePack> BytePack for Arc<T> {
    open spec fn writable(m: T::Model) -> bool {
        T::writable(m)
    }

    open spec fn layout(m: T::Model) -> Seq<Option<u8>> {
        T::layout(m)
    }

    proof fn layout_len(m: T::Model) {
        T::layout_len(m);
    }

    fn can_pack(&self) -> (b: bool) {
        (**self).can_pack()
    }

    fn pack(&self, buf: &mut [u8]) -> (r: Result<(), Error>) {
        (**self).pack(buf)
    }
}

impl<T: BytePack> BytePack for SplatVec<T> {
    open spec fn writable(m: Seq<T::Model>) -> bool {
        all_writable::<T>(m)
    }

    open spec fn layout(m: Seq<T::Model>) -> Seq<Option<u8>> {
        layout_all::<T>(m)
    }

    proof fn layout_len(m: Seq<T::Model>) {
        lemma_layout_all_len::<T>(m);
    }

    fn can_pack(&self) -> (b: bool) {
        all_can_pack(self.0.as_slice())
    }

    fn pack(&self, buf: &mut [u8]) -> (r: Result<(), Error>) {
        pack_all(self.0.as_slice(), buf)
    }
}

impl<T: BytePack> BytePack for SplatDrain<T> {
    /// Only the `Splat` state can be written.
    open spec fn writable(m: SplatDrainModel<T::Model>) -> bool {
        match m {
            SplatDrainModel::Splat(s) => all_writable::<T>(s),
            SplatDrainModel::Drain(_) => false,
        }
    }

    open spec fn layout(m: SplatDrainModel<T::Model>) -> Seq<Option<u8>> {
        match m {
            SplatDrainModel::Splat(s) => layout_all::<T>(s),
            SplatDrainModel::Drain(_) => Seq::empty(),
        }
    }

    proof fn layout_len(m: SplatDrainModel<T::Model>) {
        match m {
            SplatDrainModel::Splat(s) => lemma_layout_all_len::<T>(s),
            SplatDrainModel::Drain(_) => {},
        }
    }

    fn can_pack(&self) -> (b: bool) {
        match self {
            Self::Splat(vec) => all_can_pack(vec.as_slice()),
            Self::Drain(_) => false,
        }
    }

    fn pack(&self, buf: &mut [u8]) -> (r: Result<(), Error>) {
        match self {
            Self::Splat(vec) => pack_all(vec.as_slice(), buf),
            Self::Drain(_) => Err(Error::InvalidState),
        }
    }
}

impl<T: BytePack> BytePack for SizedVec<T> {
    /// The count has to fit the length field.
    open spec fn writable(m: Seq<T::Model>) -> bool {
        m.len() <= SizeType::MAX && all_writable::<T>(m)
    }

    open spec fn layout(m: Seq<T::Model>) -> Seq<Option<u8>> {
        solid(be_bytes(m.len(), SIZE_FIELD_WIDTH as nat)) + layout_all::<T>(m)
    }

    proof fn layout_len(m: Seq<T::Model>) {
        lemma_bytes_len(m.len(), SIZE_FIELD_WIDTH as nat);
        lemma_layout_all_len::<T>(m);
    }

    fn can_pack(&self) -> (b: bool) {
        self.0.len() <= 0xffff_ffff && all_can_pack(self.0.as_slice())
    }

    fn pack(&self, buf: &mut [u8]) -> (r: Result<(), Error>) {
        let items = self.0.as_slice();
        let count = items.len();
        if buf.len() < self.byte_size() {
            return Err(Error::BufferTooSmall);
        }
        if !self.can_pack() {
            return Err(Error::InvalidState);
        }
        proof {
            lemma_bytes_len(count as nat, SIZE_FIELD_WIDTH as nat);
        }
        put_be(count as u128, SIZE_FIELD_WIDTH, buf);
        let (_, tail) = buf.split_at_mut(SIZE_FIELD_WIDTH);
        write_all(items, tail)
    }
}

impl<T: BytePack + ConstByteSize, const N: usize> BytePack for Throw<T, N> {
    open spec fn writable(m: ()) -> bool {
        true
    }

    /// The region is reserved and none of its bytes is written.
    open spec fn layout(m: ()) -> Seq<Option<u8>> {
        blank(saturating_product(N, T::const_size()) as nat)
    }

    proof fn layout_len(m: ()) {
    }

    fn can_pack(&self) -> (b: bool) {
        true
    }

    fn pack(&self, buf: &mut [u8]) -> (r: Result<(), Error>) {
        if buf.len() < self.byte_size() {
            return Err(Error::BufferTooSmall);
        }
        Ok(())
    }
}

/// Copies `src` into `buf` from index `at` on.
pub fn copy_into(src: &[u8], buf: &mut [u8], at: usize)
    requires
        at + src@.len() <= old(buf)@.len(),
    ensures
        final(buf)@ == old(buf)@.take(at as int) + src@ + old(buf)@.skip(at + src@.len()),
{
    let total = buf.len();
    let mut i: usize = 0;
    while i < src.len()
        invariant
            i <= src@.len(),
            total == buf@.len(),
            at + src@.len() <= buf@.len(),
            buf@.len() == old(buf)@.len(),
            buf@ == old(buf)@.take(at as int) + src@.take(i as int) + old(buf)@.skip(at + i),
        decreases src@.len() - i,
    {
        buf[at + i] = src[i];
        i += 1;
    }
}

impl BytePack for String {
    /// The number of bytes has to fit the length field.
    open spec fn writable(m: Seq<char>) -> bool {
        encode_utf8(m).len() <= SizeType::MAX
    }

    open spec fn layout(m: Seq<char>) -> Seq<Option<u8>> {
        solid(be_bytes(encode_utf8(m).len(), SIZE_FIELD_WIDTH as nat) + encode_utf8(m))
    }

    proof fn layout_len(m: Seq<char>) {
        lemma_bytes_len(encode_utf8(m).len(), SIZE_FIELD_WIDTH as nat);
    }

    fn can_pack(&self) -> (b: bool) {
        self.as_str().as_bytes().len() <= 0xffff_ffff
    }

    fn pack(&self, buf: &mut [u8]) -> (r: Result<(), Error>) {
        let text = self.as_str().as_bytes();
        let len = text.len();
        if buf.len() < self.byte_size() {
            return Err(Error::BufferTooSmall);
        }
        if !self.can_pack() {
            return Err(Error::InvalidState);
        }
        proof {
            lemma_bytes_len(len as nat, SIZE_FIELD_WIDTH as nat);
        }
        put_be(len as u128, SIZE_FIELD_WIDTH, buf);
        copy_into(text, buf, SIZE_FIELD_WIDTH);
        Ok(())
    }
}

/// Writes `val` into `buf` from index `at` on and returns the index just
/// past it: one step of writing the fields of a record in order.
///
/// The bytes before `at` stay as they are, and a write that fails leaves all
/// of `buf` as it was.
pub fn pack_field<T: BytePack>(val: &T, buf: &mut [u8], at: usize) -> (r: Result<usize, Error>)
    requires
        at <= old(buf)@.len(),
        T::size_of(val.model()) <= usize::MAX,
    ensures
        match pack_outcome(
            T::size_of(val.model()),
            T::writable(val.model()),
            (old(buf)@.len() - at) as nat,
        ) {
            Ok(()) => r == Ok::<usize, Error>((at + T::size_of(val.model())) as usize),
            Err(e) => r == Err::<usize, Error>(e),
        },
        r is Ok ==> final(buf)@ == old(buf)@.take(at as int) + stamp(
            T::layout(val.model()),
            old(buf)@.skip(at as int),
        ),
        r is Err ==> final(buf)@ == old(buf)@,
{
    let total = buf.len();
    let (_, tail) = buf.split_at_mut(at);
    let step = val.pack(tail);
    match step {
        Ok(()) => {
            assert(at + T::size_of(val.model()) <= total);
            Ok(at + val.byte_size())
        },
        Err(e) => Err(e),
    }
}

impl<A: BytePack, B: BytePack> BytePack for (A, B) {
    open spec fn writable(m: (A::Model, B::Model)) -> bool {
        A::writable(m.0) && B::writable(m.1)
    }

    /// The fields in order, with nothing between them.
    open spec fn layout(m: (A::Model, B::Model)) -> Seq<Option<u8>> {
        A::layout(m.0) + B::layout(m.1)
    }

    proof fn layout_len(m: (A::Model, B::Model)) {
        A::layout_len(m.0);
        B::layout_len(m.1);
    }

    fn can_pack(&self) -> (b: bool) {
        self.0.can_pack() && self.1.can_pack()
    }

    fn pack(&self, buf: &mut [u8]) -> (r: Result<(), Error>) {
        if buf.len() < self.byte_size() {
            return Err(Error::BufferTooSmall);
        }
        if !self.can_pack() {
            return Err(Error::InvalidState);
        }
        proof {
            let m = self.model();
            A::layout_len(m.0);
            B::layout_len(m.1);
        }
        let at1 = pack_field(&self.0, buf, 0)?;
        pack_field(&self.1, buf, at1)?;
        Ok(())
    }
}

impl<A: BytePack, B: BytePack, C: BytePack> BytePack for (A, B, C) {
    open spec fn writable(m: (A::Model, B::Model, C::Model)) -> bool {
        A::writable(m.0) && B::writable(m.1) && C::writable(m.2)
    }

    /// The fields in order, with nothing between them.
    open spec fn layout(m: (A::Model, B::Model, C::Model)) -> Seq<Option<u8>> {
        A::layout(m.0) + B::layout(m.1) + C::layout(m.2)
    }

    proof fn layout_len(m: (A::Model, B::Model, C::Model)) {
        A::layout_len(m.0);
        B::layout_len(m.1);
        C::layout_len(m.2);
    }

    fn can_pack(&self) -> (b: bool) {
        self.0.can_pack() && self.1.can_pack() && self.2.can_pack()
    }

    fn pack(&self, buf: &mut [u8]) -> (r: Result<(), Error>) {
        if buf.len() < self.byte_size() {
            return Err(Error::BufferTooSmall);
        }
        if !self.can_pack() {
            return Err(Error::InvalidState);
        }
        proof {
            let m = self.model();
            A::layout_len(m.0);
            B::layout_len(m.1);
            C::layout_len(m.2);
        }
        let at1 = pack_field(&self.0, buf, 0)?;
        let at2 = pack_field(&self.1, buf, at1)?;
        pack_field(&self.2, buf, at2)?;
        Ok(())
    }
}

impl<A: BytePack, B: BytePack, C: BytePack, D: BytePack> BytePack for (A, B, C, D) {
    open spec fn writable(m: (A::Model, B::Model, C::Model, D::Model)) -> bool {
        A::writable(m.0) && B::writable(m.1) && C::writable(m.2) && D::writable(m.3)
    }

    /// The fields in order, with nothing between them.
    open spec fn layout(m: (A::Model, B::Model, C::Model, D::Model)) -> Seq<Option<u8>> {
        A::layout(m.0) + B::layout(m.1) + C::layout(m.2) + D::layout(m.3)
    }

    proof fn layout_len(m: (A::Model, B::Model, C::Model, D::Model)) {
        A::layout_len(m.0);
        B::layout_len(m.1);
        C::layout_len(m.2);
        D::layout_len(m.3);
    }

    fn can_pack(&self) -> (b: bool) {
        self.0.can_pack() && self.1.can_pack() && self.2.can_pack() && self.3.can_pack()
    }

    fn pack(&self, buf: &mut [u8]) -> (r: Result<(), Error>) {
        if buf.len() < self.byte_size() {
            return Err(Error::BufferTooSmall);
        }
        if !self.can_pack() {
            return Err(Error::InvalidState);
        }
        proof {
            let m = self.model();
            A::layout_len(m.0);
            B::layout_len(m.1);
            C::layout_len(m.2);
            D::layout_len(m.3);
        }
        let at1 = pack_field(&self.0, buf, 0)?;
        let at2 = pack_field(&self.1, buf, at1)?;
        let at3 = pack_field(&self.2, buf, at2)?;
        pack_field(&self.3, buf, at3)?;
        Ok(())
    }
}

} // verus!
