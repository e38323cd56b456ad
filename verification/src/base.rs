//! The size capabilities and the framing types.
//!
//! Every codec type stands for a mathematical value, its model, and the
//! contracts of this crate speak of models only: an integer is itself, a
//! collection is the sequence of the models of its elements, a smart pointer
//! is what it points to.
use std::marker::PhantomData;
use std::ops::{Deref, DerefMut};
use std::rc::Rc;
use std::sync::Arc;
use vstd::prelude::*;
use vstd::utf8::encode_utf8;

verus! {

/// A `u16` that is encoded in little-endian byte order.
#[derive(Debug, PartialEq, Eq, PartialOrd, Ord)]
pub struct LEu16(pub u16);

/// A `u32` that is encoded in little-endian byte order.
#[derive(Debug, PartialEq, Eq, PartialOrd, Ord)]
pub struct LEu32(pub u32);

/// A `u64` that is encoded in little-endian byte order.
#[derive(Debug, PartialEq, Eq, PartialOrd, Ord)]
pub struct LEu64(pub u64);

/// A `u128` that is encoded in little-endian byte order.
#[derive(Debug, PartialEq, Eq, PartialOrd, Ord)]
pub struct LEu128(pub u128);

/// An `i16` that is encoded in little-endian byte order.
#[derive(Debug, PartialEq, Eq, PartialOrd, Ord)]
pub struct LEi16(pub i16);

/// An `i32` that is encoded in little-endian byte order.
#[derive(Debug, PartialEq, Eq, PartialOrd, Ord)]
pub struct LEi32(pub i32);

/// An `i64` that is encoded in little-endian byte order.
#[derive(Debug, PartialEq, Eq, PartialOrd, Ord)]
pub struct LEi64(pub i64);

/// An `i128` that is encoded in little-endian byte order.
#[derive(Debug, PartialEq, Eq, PartialOrd, Ord)]
pub struct LEi128(pub i128);

/// A sequence encoded as the concatenation of its elements, with no length
/// field. It can be written, but read only where the count is known.
#[derive(Debug)]
pub struct SplatVec<T>(pub Vec<T>);

/// A sequence that is read by consuming the input to its end. It occupies
/// no bytes as far as the size of an enclosing layout goes, so it belongs at
/// the end of one.
#[derive(Debug)]
pub struct DrainVec<T>(pub Vec<T>);

/// A sequence that is written like a [`SplatVec`] and read like a
/// [`DrainVec`]. Reading yields the `Drain` state; only the `Splat` state
/// can be written.
#[derive(Debug)]
pub enum SplatDrain<T> {
    Splat(Vec<T>),
    Drain(Vec<T>),
}

impl<T> SplatDrain<T> {
    /// The elements, whatever the state.
    pub fn into_vec(self) -> (v: Vec<T>)
        ensures
            v@ == self.items(),
    {
        match self {
            Self::Splat(v) => v,
            Self::Drain(v) => v,
        }
    }

    /// The same elements in the state that can be written.
    pub fn into_splat(self) -> (r: Self)
        ensures
            r is Splat,
            r.items() == self.items(),
    {
        let v = self.into_vec();
        Self::Splat(v)
    }

    /// The same elements in the state that reading produces.
    pub fn into_drain(self) -> (r: Self)
        ensures
            r is Drain,
            r.items() == self.items(),
    {
        let v = self.into_vec();
        Self::Drain(v)
    }

    /// The elements, whatever the state.
    pub open spec fn items(self) -> Seq<T> {
        match self {
            Self::Splat(v) => v@,
            Self::Drain(v) => v@,
        }
    }
}

/// What a [`SplatDrain`] stands for: its state and the models of its
/// elements.
pub enum SplatDrainModel<M> {
    Splat(Seq<M>),
    Drain(Seq<M>),
}

/// A sequence encoded as a count of elements followed by the elements.
#[derive(Debug)]
pub struct SizedVec<T>(pub Vec<T>);

/// The integer type of a length field. It is encoded in big-endian order.
pub type SizeType = u32;

/// The number of bytes that a length field occupies.
pub const SIZE_FIELD_WIDTH: usize = 4;

/// A reserved region of `N` elements of `T` whose content is not held in
/// memory. Writing leaves the region as it is and reading ignores it.
#[derive(Debug)]
pub struct Throw<T, const N: usize>(PhantomData<T>);

impl<T, const N: usize> Throw<T, N> {
    /// The placeholder for the region. It holds nothing.
    pub fn new() -> (r: Self)
        ensures
            r == Self::placeholder(),
    {
        Self(PhantomData)
    }

    /// The one value of the type: it holds nothing but the marker of its
    /// element type.
    pub closed spec fn placeholder() -> Self {
        Self(PhantomData)
    }
}

/// The runtime size capability: how many bytes the encoding of a value
/// occupies.
pub trait ByteSize {
    /// The mathematical value that an instance stands for.
    type Model;

    /// The value that `self` stands for.
    spec fn model(&self) -> Self::Model;

    /// The number of bytes that the encoding of `m` occupies.
    spec fn size_of(m: Self::Model) -> nat;

    /// The number of bytes that the encoding of `self` occupies.
    fn byte_size(&self) -> (n: usize)
        requires
            Self::size_of(self.model()) <= usize::MAX,
        ensures
            n == Self::size_of(self.model()),
    ;
}

/// The product of two sizes, held at `usize::MAX` where it would pass it.
pub open spec fn saturating_product(a: usize, b: usize) -> usize {
    if a * b > usize::MAX {
        usize::MAX
    } else {
        (a * b) as usize
    }
}

/// The compile-time size capability: every value of the type occupies the
/// same number of bytes.
pub trait ConstByteSize: ByteSize {
    /// The number of bytes that any value of the type occupies.
    spec fn const_size() -> usize;

    /// The runtime size of every value is the constant size.
    proof fn size_is_const(m: Self::Model)
        ensures
            Self::size_of(m) == Self::const_size(),
    ;

    /// The number of bytes that any value of the type occupies.
    fn const_byte_size() -> (n: usize)
        ensures
            n == Self::const_size(),
    ;
}

/// The models of a sequence of values, in order.
pub open spec fn models<T: ByteSize>(items: Seq<T>) -> Seq<T::Model> {
    Seq::new(items.len(), |i: int| items[i].model())
}

/// The number of bytes that a sequence of values occupies when each is
/// encoded after the other.
pub open spec fn total_size<T: ByteSize>(ms: Seq<T::Model>) -> nat
    decreases ms.len(),
{
    if ms.len() == 0 {
        0
    } else {
        total_size::<T>(ms.drop_last()) + T::size_of(ms.last())
    }
}

/// A prefix occupies no more than the whole, and an element no more than a
/// prefix that holds it.
pub proof fn lemma_total_size_prefix<T: ByteSize>(ms: Seq<T::Model>, k: int)
    requires
        0 <= k <= ms.len(),
    ensures
        total_size::<T>(ms.take(k)) <= total_size::<T>(ms),
        k < ms.len() ==> total_size::<T>(ms.take(k + 1)) == total_size::<T>(ms.take(k))
            + T::size_of(ms[k]),
    decreases ms.len(),
{
    if k < ms.len() {
        assert(ms.take(k + 1).drop_last() =~= ms.take(k));
        if k + 1 < ms.len() {
            assert(ms.drop_last().take(k + 1) =~= ms.take(k + 1));
            lemma_total_size_prefix::<T>(ms.drop_last(), k + 1);
        }
    } else {
        assert(ms.take(k) =~= ms);
    }
}

/// The size of a sequence is the size of its first element plus the size
/// of the rest.
pub proof fn lemma_total_size_first<T: ByteSize>(ms: Seq<T::Model>)
    requires
        ms.len() > 0,
    ensures
        total_size::<T>(ms) == T::size_of(ms.first()) + total_size::<T>(ms.drop_first()),
    decreases ms.len(),
{
    if ms.len() == 1 {
        assert(ms.drop_last() =~= ms.drop_first());
    } else {
        lemma_total_size_first::<T>(ms.drop_last());
        assert(ms.drop_last().drop_first() =~= ms.drop_first().drop_last());
    }
}

/// Where every element has the same size, a sequence occupies that size
/// times its length.
pub proof fn lemma_total_size_const<T: ConstByteSize>(ms: Seq<T::Model>)
    ensures
        total_size::<T>(ms) == ms.len() * T::const_size(),
    decreases ms.len(),
{
    if ms.len() > 0 {
        lemma_total_size_const::<T>(ms.drop_last());
        T::size_is_const(ms.last());
        assert((ms.len() - 1) * T::const_size() + T::const_size() == ms.len() * T::const_size())
            by (nonlinear_arith);
    }
}

/// The number of bytes that the elements of `items` occupy together.
pub fn sum_sizes<T: ByteSize>(items: &[T]) -> (n: usize)
    requires
        total_size::<T>(models(items@)) <= usize::MAX,
    ensures
        n == total_size::<T>(models(items@)),
{
    let ghost ms = models(items@);
    let mut n: usize = 0;
    let mut i: usize = 0;
    while i < items.len()
        invariant
            i <= items@.len(),
            ms == models(items@),
            total_size::<T>(ms) <= usize::MAX,
            n == total_size::<T>(ms.take(i as int)),
        decreases items@.len() - i,
    {
        proof {
            lemma_total_size_prefix::<T>(ms, i as int);
            lemma_total_size_prefix::<T>(ms, i + 1);
        }
        n = n + items[i].byte_size();
        i += 1;
    }
    proof {
        assert(ms.take(i as int) =~= ms);
    }
    n
}

impl ByteSize for u8 {
    type Model = u8;

    open spec fn model(&self) -> u8 {
        *self
    }

    open spec fn size_of(m: u8) -> nat {
        1
    }

    fn byte_size(&self) -> (n: usize) {
        Self::const_byte_size()
    }
}

impl ConstByteSize for u8 {
    open spec fn const_size() -> usize {
        1
    }

    proof fn size_is_const(m: u8) {
    }

    fn const_byte_size() -> (n: usize) {
        1
    }
}

impl ByteSize for u16 {
    type Model = u16;

    open spec fn model(&self) -> u16 {
        *self
    }

    open spec fn size_of(m: u16) -> nat {
        2
    }

    fn byte_size(&self) -> (n: usize) {
        Self::const_byte_size()
    }
}

impl ConstByteSize for u16 {
    open spec fn const_size() -> usize {
        2
    }

    proof fn size_is_const(m: u16) {
    }

    fn const_byte_size() -> (n: usize) {
        2
    }
}

impl ByteSize for u32 {
    type Model = u32;

    open spec fn model(&self) -> u32 {
        *self
    }

    open spec fn size_of(m: u32) -> nat {
        4
    }

    fn byte_size(&self) -> (n: usize) {
        Self::const_byte_size()
    }
}

impl ConstByteSize for u32 {
    open spec fn const_size() -> usize {
        4
    }

    proof fn size_is_const(m: u32) {
    }

    fn const_byte_size() -> (n: usize) {
        4
    }
}

impl ByteSize for u64 {
    type Model = u64;

    open spec fn model(&self) -> u64 {
        *self
    }

    open spec fn size_of(m: u64) -> nat {
        8
    }

    fn byte_size(&self) -> (n: usize) {
        Self::const_byte_size()
    }
}

impl ConstByteSize for u64 {
    open spec fn const_size() -> usize {
        8
    }

    proof fn size_is_const(m: u64) {
    }

    fn const_byte_size() -> (n: usize) {
        8
    }
}

impl ByteSize for u128 {
    type Model = u128;

    open spec fn model(&self) -> u128 {
        *self
    }

    open spec fn size_of(m: u128) -> nat {
        16
    }

    fn byte_size(&self) -> (n: usize) {
        Self::const_byte_size()
    }
}

impl ConstByteSize for u128 {
    open spec fn const_size() -> usize {
        16
    }

    proof fn size_is_const(m: u128) {
    }

    fn const_byte_size() -> (n: usize) {
        16
    }
}

impl ByteSize for i8 {
    type Model = i8;

    open spec fn model(&self) -> i8 {
        *self
    }

    open spec fn size_of(m: i8) -> nat {
        1
    }

    fn byte_size(&self) -> (n: usize) {
        Self::const_byte_size()
    }
}

impl ConstByteSize for i8 {
    open spec fn const_size() -> usize {
        1
    }

    proof fn size_is_const(m: i8) {
    }

    fn const_byte_size() -> (n: usize) {
        1
    }
}

impl ByteSize for i16 {
    type Model = i16;

    open spec fn model(&self) -> i16 {
        *self
    }

    open spec fn size_of(m: i16) -> nat {
        2
    }

    fn byte_size(&self) -> (n: usize) {
        Self::const_byte_size()
    }
}

impl ConstByteSize for i16 {
    open spec fn const_size() -> usize {
        2
    }

    proof fn size_is_const(m: i16) {
    }

    fn const_byte_size() -> (n: usize) {
        2
    }
}

impl ByteSize for i32 {
    type Model = i32;

    open spec fn model(&self) -> i32 {
        *self
    }

    open spec fn size_of(m: i32) -> nat {
        4
    }

    fn byte_size(&self) -> (n: usize) {
        Self::const_byte_size()
    }
}

impl ConstByteSize for i32 {
    open spec fn const_size() -> usize {
        4
    }

    proof fn size_is_const(m: i32) {
    }

    fn const_byte_size() -> (n: usize) {
        4
    }
}

impl ByteSize for i64 {
    type Model = i64;

    open spec fn model(&self) -> i64 {
        *self
    }

    open spec fn size_of(m: i64) -> nat {
        8
    }

    fn byte_size(&self) -> (n: usize) {
        Self::const_byte_size()
    }
}

impl ConstByteSize for i64 {
    open spec fn const_size() -> usize {
        8
    }

    proof fn size_is_const(m: i64) {
    }

    fn const_byte_size() -> (n: usize) {
        8
    }
}

impl ByteSize for i128 {
    type Model = i128;

    open spec fn model(&self) -> i128 {
        *self
    }

    open spec fn size_of(m: i128) -> nat {
        16
    }

    fn byte_size(&self) -> (n: usize) {
        Self::const_byte_size()
    }
}

impl ConstByteSize for i128 {
    open spec fn const_size() -> usize {
        16
    }

    proof fn size_is_const(m: i128) {
    }

    fn const_byte_size() -> (n: usize) {
        16
    }
}

impl ByteSize for LEu16 {
    type Model = u16;

    open spec fn model(&self) -> u16 {
        self.0
    }

    open spec fn size_of(m: u16) -> nat {
        2
    }

    fn byte_size(&self) -> (n: usize) {
        Self::const_byte_size()
    }
}

impl ConstByteSize for LEu16 {
    open spec fn const_size() -> usize {
        2
    }

    proof fn size_is_const(m: u16) {
    }

    fn const_byte_size() -> (n: usize) {
        2
    }
}

impl ByteSize for LEu32 {
    type Model = u32;

    open spec fn model(&self) -> u32 {
        self.0
    }

    open spec fn size_of(m: u32) -> nat {
        4
    }

    fn byte_size(&self) -> (n: usize) {
        Self::const_byte_size()
    }
}

impl ConstByteSize for LEu32 {
    open spec fn const_size() -> usize {
        4
    }

    proof fn size_is_const(m: u32) {
    }

    fn const_byte_size() -> (n: usize) {
        4
    }
}

impl ByteSize for LEu64 {
    type Model = u64;

    open spec fn model(&self) -> u64 {
        self.0
    }

    open spec fn size_of(m: u64) -> nat {
        8
    }

    fn byte_size(&self) -> (n: usize) {
        Self::const_byte_size()
    }
}

impl ConstByteSize for LEu64 {
    open spec fn const_size() -> usize {
        8
    }

    proof fn size_is_const(m: u64) {
    }

    fn const_byte_size() -> (n: usize) {
        8
    }
}

impl ByteSize for LEu128 {
    type Model = u128;

    open spec fn model(&self) -> u128 {
        self.0
    }

    open spec fn size_of(m: u128) -> nat {
        16
    }

    fn byte_size(&self) -> (n: usize) {
        Self::const_byte_size()
    }
}

impl ConstByteSize for LEu128 {
    open spec fn const_size() -> usize {
        16
    }

    proof fn size_is_const(m: u128) {
    }

    fn const_byte_size() -> (n: usize) {
        16
    }
}

impl ByteSize for LEi16 {
    type Model = i16;

    open spec fn model(&self) -> i16 {
        self.0
    }

    open spec fn size_of(m: i16) -> nat {
        2
    }

    fn byte_size(&self) -> (n: usize) {
        Self::const_byte_size()
    }
}

impl ConstByteSize for LEi16 {
    open spec fn const_size() -> usize {
        2
    }

    proof fn size_is_const(m: i16) {
    }

    fn const_byte_size() -> (n: usize) {
        2
    }
}

impl ByteSize for LEi32 {
    type Model = i32;

    open spec fn model(&self) -> i32 {
        self.0
    }

    open spec fn size_of(m: i32) -> nat {
        4
    }

    fn byte_size(&self) -> (n: usize) {
        Self::const_byte_size()
    }
}

impl ConstByteSize for LEi32 {
    open spec fn const_size() -> usize {
        4
    }

    proof fn size_is_const(m: i32) {
    }

    fn const_byte_size() -> (n: usize) {
        4
    }
}

impl ByteSize for LEi64 {
    type Model = i64;

    open spec fn model(&self) -> i64 {
        self.0
    }

    open spec fn size_of(m: i64) -> nat {
        8
    }

    fn byte_size(&self) -> (n: usize) {
        Self::const_byte_size()
    }
}

impl ConstByteSize for LEi64 {
    open spec fn const_size() -> usize {
        8
    }

    proof fn size_is_const(m: i64) {
    }

    fn const_byte_size() -> (n: usize) {
        8
    }
}

impl ByteSize for LEi128 {
    type Model = i128;

    open spec fn model(&self) -> i128 {
        self.0
    }

    open spec fn size_of(m: i128) -> nat {
        16
    }

    fn byte_size(&self) -> (n: usize) {
        Self::const_byte_size()
    }
}

impl ConstByteSize for LEi128 {
    open spec fn const_size() -> usize {
        16
    }

    proof fn size_is_const(m: i128) {
    }

    fn const_byte_size() -> (n: usize) {
        16
    }
}

impl<T: ByteSize, const N: usize> ByteSize for [T; N] {
    type Model = Seq<T::Model>;

    open spec fn model(&self) -> Seq<T::Model> {
        models(self@)
    }

    open spec fn size_of(m: Seq<T::Model>) -> nat {
        total_size::<T>(m)
    }

    fn byte_size(&self) -> (n: usize) {
        sum_sizes(self.as_slice())
    }
}

impl<T: ByteSize> ByteSize for Box<T> {
    type Model = T::Model;

    open spec fn model(&self) -> T::Model {
        (**self).model()
    }

    open spec fn size_of(m: T::Model) -> nat {
        T::size_of(m)
    }

    fn byte_size(&self) -> (n: usize) {
        (**self).byte_size()
    }
}

impl<T: ByteSize> ByteSize for Rc<T> {
    type Model = T::Model;

    open spec fn model(&self) -> T::Model {
        (**self).model()
    }

    open spec fn size_of(m: T::Model) -> nat {
        T::size_of(m)
    }

    fn byte_size(&self) -> (n: usize) {
        (**self).byte_size()
    }
}

impl<T: ByteSize> ByteSize for Arc<T> {
    type Model = T::Model;

    open spec fn model(&self) -> T::Model {
        (**self).model()
    }

    open spec fn size_of(m: T::Model) -> nat {
        T::size_of(m)
    }

    fn byte_size(&self) -> (n: usize) {
        (**self).byte_size()
    }
}

impl<T: ByteSize> ByteSize for SplatVec<T> {
    type Model = Seq<T::Model>;

    open spec fn model(&self) -> Seq<T::Model> {
        models(self.0@)
    }

    open spec fn size_of(m: Seq<T::Model>) -> nat {
        total_size::<T>(m)
    }

    fn byte_size(&self) -> (n: usize) {
        sum_sizes(self.0.as_slice())
    }
}

impl<T: ByteSize> ByteSize for DrainVec<T> {
    type Model = Seq<T::Model>;

    open spec fn model(&self) -> Seq<T::Model> {
        models(self.0@)
    }

    /// A drained sequence adds nothing to the size of what encloses it.
    open spec fn size_of(m: Seq<T::Model>) -> nat {
        0
    }

    fn byte_size(&self) -> (n: usize) {
        0
    }
}

impl<T: ByteSize> ByteSize for SplatDrain<T> {
    type Model = SplatDrainModel<T::Model>;

    open spec fn model(&self) -> SplatDrainModel<T::Model> {
        match self {
            Self::Splat(v) => SplatDrainModel::Splat(models(v@)),
            Self::Drain(v) => SplatDrainModel::Drain(models(v@)),
        }
    }

    open spec fn size_of(m: SplatDrainModel<T::Model>) -> nat {
        match m {
            SplatDrainModel::Splat(s) => total_size::<T>(s),
            SplatDrainModel::Drain(_) => 0,
        }
    }

    fn byte_size(&self) -> (n: usize) {
        match self {
            Self::Splat(v) => sum_sizes(v.as_slice()),
            Self::Drain(_v) => 0,
        }
    }
}

impl<T: ByteSize> ByteSize for SizedVec<T> {
    type Model = Seq<T::Model>;

    open spec fn model(&self) -> Seq<T::Model> {
        models(self.0@)
    }

    open spec fn size_of(m: Seq<T::Model>) -> nat {
        SIZE_FIELD_WIDTH as nat + total_size::<T>(m)
    }

    fn byte_size(&self) -> (n: usize) {
        SIZE_FIELD_WIDTH + sum_sizes(self.0.as_slice())
    }
}

impl<T: ConstByteSize, const N: usize> ByteSize for Throw<T, N> {
    type Model = ();

    open spec fn model(&self) -> () {
        ()
    }

    /// `N` times the size of a `T`. A region that would be larger than any
    /// buffer counts as `usize::MAX` bytes.
    open spec fn size_of(m: ()) -> nat {
        saturating_product(N, T::const_size()) as nat
    }

    fn byte_size(&self) -> (n: usize) {
        Self::const_byte_size()
    }
}

impl<T: ConstByteSize, const N: usize> ConstByteSize for Throw<T, N> {
    open spec fn const_size() -> usize {
        saturating_product(N, T::const_size())
    }

    proof fn size_is_const(m: ()) {
    }

    fn const_byte_size() -> (n: usize) {
        match N.checked_mul(T::const_byte_size()) {
            Some(n) => n,
            None => usize::MAX,
        }
    }
}

impl ByteSize for String {
    type Model = Seq<char>;

    open spec fn model(&self) -> Seq<char> {
        self@
    }

    open spec fn size_of(m: Seq<char>) -> nat {
        SIZE_FIELD_WIDTH as nat + encode_utf8(m).len()
    }

    fn byte_size(&self) -> (n: usize) {
        SIZE_FIELD_WIDTH + self.as_str().len()
    }
}

/// A record of two fields: the fields in order, with nothing between them.
impl<A: ByteSize, B: ByteSize> ByteSize for (A, B) {
    type Model = (A::Model, B::Model);

    open spec fn model(&self) -> (A::Model, B::Model) {
        (self.0.model(), self.1.model())
    }

    open spec fn size_of(m: (A::Model, B::Model)) -> nat {
        A::size_of(m.0) + B::size_of(m.1)
    }

    fn byte_size(&self) -> (n: usize) {
        self.0.byte_size() + self.1.byte_size()
    }
}

/// A record of three fields: the fields in order, with nothing between them.
impl<A: ByteSize, B: ByteSize, C: ByteSize> ByteSize for (A, B, C) {
    type Model = (A::Model, B::Model, C::Model);

    open spec fn model(&self) -> (A::Model, B::Model, C::Model) {
        (self.0.model(), self.1.model(), self.2.model())
    }

    open spec fn size_of(m: (A::Model, B::Model, C::Model)) -> nat {
        A::size_of(m.0) + B::size_of(m.1) + C::size_of(m.2)
    }

    fn byte_size(&self) -> (n: usize) {
        self.0.byte_size() + self.1.byte_size() + self.2.byte_size()
    }
}

/// A record of four fields: the fields in order, with nothing between them.
impl<A: ByteSize, B: ByteSize, C: ByteSize, D: ByteSize> ByteSize for (A, B, C, D) {
    type Model = (A::Model, B::Model, C::Model, D::Model);

    open spec fn model(&self) -> (A::Model, B::Model, C::Model, D::Model) {
        (self.0.model(), self.1.model(), self.2.model(), self.3.model())
    }

    open spec fn size_of(m: (A::Model, B::Model, C::Model, D::Model)) -> nat {
        A::size_of(m.0) + B::size_of(m.1) + C::size_of(m.2) + D::size_of(m.3)
    }

    fn byte_size(&self) -> (n: usize) {
        self.0.byte_size() + self.1.byte_size() + self.2.byte_size() + self.3.byte_size()
    }
}

impl<T> Deref for SplatVec<T> {
    type Target = [T];

    fn deref(&self) -> (r: &[T])
        ensures
            r@ == self.0@,
    {
        self.0.as_slice()
    }
}

impl<T> DerefMut for SplatVec<T> {
    fn deref_mut(&mut self) -> (r: &mut [T])
        ensures
            r@ == old(self).0@,
            final(self).0@ == final(r)@,
    {
        self.0.as_mut_slice()
    }
}

impl<T> Deref for DrainVec<T> {
    type Target = [T];

    fn deref(&self) -> (r: &[T])
        ensures
            r@ == self.0@,
    {
        self.0.as_slice()
    }
}

impl<T> DerefMut for DrainVec<T> {
    fn deref_mut(&mut self) -> (r: &mut [T])
        ensures
            r@ == old(self).0@,
            final(self).0@ == final(r)@,
    {
        self.0.as_mut_slice()
    }
}

impl<T> Deref for SplatDrain<T> {
    type Target = [T];

    fn deref(&self) -> (r: &[T])
        ensures
            r@ == self.items(),
    {
        match self {
            Self::Splat(v) => v.as_slice(),
            Self::Drain(v) => v.as_slice(),
        }
    }
}

impl<T> DerefMut for SplatDrain<T> {
    fn deref_mut(&mut self) -> (r: &mut [T])
        ensures
            r@ == old(self).items(),
            final(self).items() == final(r)@,
            *final(self) is Splat <==> *old(self) is Splat,
    {
        match self {
            Self::Splat(v) => v.as_mut_slice(),
            Self::Drain(v) => v.as_mut_slice(),
        }
    }
}

impl<T> Deref for SizedVec<T> {
    type Target = [T];

    fn deref(&self) -> (r: &[T])
        ensures
            r@ == self.0@,
    {
        self.0.as_slice()
    }
}

impl<T> DerefMut for SizedVec<T> {
    fn deref_mut(&mut self) -> (r: &mut [T])
        ensures
            r@ == old(self).0@,
            final(self).0@ == final(r)@,
    {
        self.0.as_mut_slice()
    }
}

} // verus!
