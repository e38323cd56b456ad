//! The source of the codec of a record, composed field by field.
//!
//! For a struct with named fields the generator writes `byte_size`,
//! `can_pack`, `pack` and `unpack` as inherent methods. Each goes through the
//! fields in declaration order and leaves no gap between them: the size is
//! the sum of the sizes of the fields, a write puts each field right behind
//! the one before it, and a read takes each field from where the one before
//! it ends.
use crate::record::{check_shape, verdict, Field, Shape, ShapeError};
use vstd::prelude::*;
use vstd::string::StringExecFns;

verus! {

/// What every generated item starts with; the name of the struct follows.
pub const IMPL_HEAD: &'static str = "impl ";

/// What every generated item ends with.
pub const IMPL_TAIL: &'static str = " } }";

/// The head of `byte_size`; one term for each field follows.
pub const SIZE_HEAD: &'static str = " { pub fn byte_size(&self) -> usize { 0";

/// Before the name of a field in its term of the size.
pub const SIZE_TERM_HEAD: &'static str = " + ::bytepack::base::ByteSize::byte_size(&self.";

/// The head of `can_pack`; one term for each field follows.
pub const CAN_PACK_HEAD: &'static str = " { pub fn can_pack(&self) -> bool { true";

/// Before the name of a field in its term of `can_pack`.
pub const CAN_PACK_TERM_HEAD: &'static str = " && ::bytepack::pack::BytePack::can_pack(&self.";

/// Behind the name of a field in a term.
pub const TERM_TAIL: &'static str = ")";

/// The head of `pack`, behind the terms of `can_pack`.
pub const PACK_HEAD: &'static str =
    " } pub fn pack(&self, buf: &mut [u8]) -> Result<(), ::bytepack::error::Error> {";

/// The check of `pack` that the region has room for the record.
pub const PACK_ROOM: &'static str =
    " if buf.len() < self.byte_size() { return Err(::bytepack::error::Error::BufferTooSmall); }";

/// The check of `pack` that every field has an encoding.
pub const PACK_STATE: &'static str =
    " if !self.can_pack() { return Err(::bytepack::error::Error::InvalidState); }";

/// The index that the first field is written or read at.
pub const START: &'static str = " let at = 0usize;";

/// Before the name of a field in its step of `pack`.
pub const PACK_STEP_HEAD: &'static str = " let at = ::bytepack::pack::pack_field(&self.";

/// Behind the name of a field in its step of `pack`.
pub const PACK_STEP_TAIL: &'static str = ", buf, at)?;";

/// The end of the body of `pack`.
pub const PACK_DONE: &'static str = " let _ = at; Ok(())";

/// The head of `unpack`.
pub const UNPACK_HEAD: &'static str =
    " { pub fn unpack(buf: &[u8]) -> Result<Self, ::bytepack::error::Error> {";

/// Before the name of a field in its step of `unpack`.
pub const UNPACK_STEP_HEAD: &'static str = " let (";

/// Behind the name of a field in its step of `unpack`.
pub const UNPACK_STEP_TAIL: &'static str = ", at) = ::bytepack::unpack::unpack_field(buf, at)?;";

/// Between the steps of `unpack` and the fields of the record it returns.
pub const UNPACK_MAKE: &'static str = " let _ = at; Ok(Self {";

/// Before the name of a field of the record that `unpack` returns.
pub const MEMBER_HEAD: &'static str = " ";

/// Behind the name of a field of the record that `unpack` returns.
pub const MEMBER_TAIL: &'static str = ",";

/// The end of the record that `unpack` returns.
pub const UNPACK_DONE: &'static str = " })";

/// The names of the fields, in order.
pub open spec fn names(fields: Seq<Field>) -> Seq<Seq<char>> {
    Seq::new(fields.len(), |i: int| fields[i].name@)
}

/// One piece of text for each name, all pieces in order: the name between
/// `head` and `tail`.
pub open spec fn spliced(head: Seq<char>, tail: Seq<char>, names: Seq<Seq<char>>) -> Seq<char>
    decreases names.len(),
{
    if names.len() == 0 {
        Seq::empty()
    } else {
        spliced(head, tail, names.drop_last()) + head + names.last() + tail
    }
}

/// Appends one piece of text for each field to `out`.
fn splice(out: &mut String, head: &str, tail: &str, fields: &Vec<Field>)
    ensures
        final(out)@ == old(out)@ + spliced(head@, tail@, names(fields@)),
{
    let mut k: usize = 0;
    while k < fields.len()
        invariant
            k <= fields@.len(),
            out@ == old(out)@ + spliced(head@, tail@, names(fields@).take(k as int)),
        decreases fields@.len() - k,
    {
        out.append(head);
        out.append(fields[k].name.as_str());
        out.append(tail);
        proof {
            let next = names(fields@).take(k + 1);
            assert(next.drop_last() =~= names(fields@).take(k as int));
            assert(out@ =~= old(out)@ + spliced(head@, tail@, next));
        }
        k += 1;
    }
    proof {
        assert(names(fields@).take(k as int) =~= names(fields@));
    }
}

/// The source of the size of a record: the sum of the sizes of its fields.
pub open spec fn bytesize_source(name: Seq<char>, fields: Seq<Seq<char>>) -> Seq<char> {
    IMPL_HEAD@ + name + SIZE_HEAD@ + spliced(SIZE_TERM_HEAD@, TERM_TAIL@, fields) + IMPL_TAIL@
}

/// The source of the writer of a record: after the checks that make the
/// write all or nothing, each field right behind the one before it.
pub open spec fn bytepack_source(name: Seq<char>, fields: Seq<Seq<char>>) -> Seq<char> {
    IMPL_HEAD@ + name + CAN_PACK_HEAD@ + spliced(CAN_PACK_TERM_HEAD@, TERM_TAIL@, fields)
        + PACK_HEAD@ + PACK_ROOM@ + PACK_STATE@ + START@ + spliced(
        PACK_STEP_HEAD@,
        PACK_STEP_TAIL@,
        fields,
    ) + PACK_DONE@ + IMPL_TAIL@
}

/// The source of the reader of a record: each field from where the one
/// before it ends, then the record made of the fields.
pub open spec fn byteunpack_source(name: Seq<char>, fields: Seq<Seq<char>>) -> Seq<char> {
    IMPL_HEAD@ + name + UNPACK_HEAD@ + START@ + spliced(
        UNPACK_STEP_HEAD@,
        UNPACK_STEP_TAIL@,
        fields,
    ) + UNPACK_MAKE@ + spliced(MEMBER_HEAD@, MEMBER_TAIL@, fields) + UNPACK_DONE@ + IMPL_TAIL@
}

/// The fields of a shape that has named fields.
pub open spec fn fields_of(shape: Shape) -> Seq<Field> {
    match shape {
        Shape::Named(fields) => fields@,
        _ => Seq::empty(),
    }
}

/// The fields of a shape that passes the check.
fn checked_fields(shape: &Shape) -> (r: Result<&Vec<Field>, ShapeError>)
    ensures
        match r {
            Ok(fields) => verdict(*shape) is Ok && *shape == Shape::Named(*fields),
            Err(e) => verdict(*shape) == Err::<usize, ShapeError>(e),
        },
{
    match check_shape(shape) {
        Err(e) => Err(e),
        Ok(_) => match shape {
            Shape::Named(fields) => Ok(fields),
            _ => unreached(),
        },
    }
}

/// Writes the source of `byte_size` for the struct `name`, or says why a
/// type of this shape gets none.
pub fn impl_bytesize(name: &str, shape: &Shape) -> (r: Result<String, ShapeError>)
    ensures
        match r {
            Ok(text) => verdict(*shape) is Ok && text@ == bytesize_source(
                name@,
                names(fields_of(*shape)),
            ),
            Err(e) => verdict(*shape) == Err::<usize, ShapeError>(e),
        },
{
    let fields = checked_fields(shape)?;
    let mut text = String::new();
    text.append(IMPL_HEAD);
    text.append(name);
    text.append(SIZE_HEAD);
    splice(&mut text, SIZE_TERM_HEAD, TERM_TAIL, fields);
    text.append(IMPL_TAIL);
    assert(text@ =~= bytesize_source(name@, names(fields@)));
    Ok(text)
}

/// Writes the source of `can_pack` and `pack` for the struct `name`, or says
/// why a type of this shape gets none.
pub fn impl_bytepack(name: &str, shape: &Shape) -> (r: Result<String, ShapeError>)
    ensures
        match r {
            Ok(text) => verdict(*shape) is Ok && text@ == bytepack_source(
                name@,
                names(fields_of(*shape)),
            ),
            Err(e) => verdict(*shape) == Err::<usize, ShapeError>(e),
        },
{
    let fields = checked_fields(shape)?;
    let mut text = String::new();
    text.append(IMPL_HEAD);
    text.append(name);
    text.append(CAN_PACK_HEAD);
    splice(&mut text, CAN_PACK_TERM_HEAD, TERM_TAIL, fields);
    text.append(PACK_HEAD);
    text.append(PACK_ROOM);
    text.append(PACK_STATE);
    text.append(START);
    splice(&mut text, PACK_STEP_HEAD, PACK_STEP_TAIL, fields);
    text.append(PACK_DONE);
    text.append(IMPL_TAIL);
    assert(text@ =~= bytepack_source(name@, names(fields@)));
    Ok(text)
}

/// Writes the source of `unpack` for the struct `name`, or says why a type
/// of this shape gets none.
pub fn impl_byteunpack(name: &str, shape: &Shape) -> (r: Result<String, ShapeError>)
    ensures
        match r {
            Ok(text) => verdict(*shape) is Ok && text@ == byteunpack_source(
                name@,
                names(fields_of(*shape)),
            ),
            Err(e) => verdict(*shape) == Err::<usize, ShapeError>(e),
        },
{
    let fields = checked_fields(shape)?;
    let mut text = String::new();
    text.append(IMPL_HEAD);
    text.append(name);
    text.append(UNPACK_HEAD);
    text.append(START);
    splice(&mut text, UNPACK_STEP_HEAD, UNPACK_STEP_TAIL, fields);
    text.append(UNPACK_MAKE);
    splice(&mut text, MEMBER_HEAD, MEMBER_TAIL, fields);
    text.append(UNPACK_DONE);
    text.append(IMPL_TAIL);
    assert(text@ =~= byteunpack_source(name@, names(fields@)));
    Ok(text)
}

} // verus!
