//! Which record types can be given a codec field by field.
//!
//! The codec of a record is the sequence of the codecs of its fields, in
//! declaration order. That asks for named fields, at least one of them, and
//! for every field that reads to the end of the input to stand last.
use vstd::prelude::*;

verus! {

/// How the reader of a field finds the end of the field.
#[derive(Debug, Clone, Copy, PartialEq, Eq, Structural)]
pub enum Framing {
    /// The reader stops where the value ends.
    Bounded,
    /// The reader consumes the input to its end.
    Greedy,
}

/// Whether a type of this name reads to the end of the input: the two
/// draining collections of this crate do.
pub open spec fn greedy_name(name: Seq<char>) -> bool {
    name == "DrainVec"@ || name == "SplatDrain"@
}

/// The framing of a field, told by the name of its type.
pub fn framing_of(ty_name: &str) -> (r: Framing)
    ensures
        r == if greedy_name(ty_name@) {
            Framing::Greedy
        } else {
            Framing::Bounded
        },
{
    let name = ty_name.to_owned();
    if name == "DrainVec".to_owned() || name == "SplatDrain".to_owned() {
        Framing::Greedy
    } else {
        Framing::Bounded
    }
}

/// A named field of a record.
#[derive(Debug)]
pub struct Field {
    /// The name that the field is declared with.
    pub name: String,
    /// How the reader of the field finds its end.
    pub framing: Framing,
}

/// The shape of a type that a codec is asked for.
#[derive(Debug)]
pub enum Shape {
    /// A struct with named fields, in declaration order.
    Named(Vec<Field>),
    /// A struct with unnamed fields.
    Unnamed,
    /// A struct without fields.
    Unit,
    /// An enum.
    Enum,
    /// A union.
    Union,
}

/// Why a type gets no codec.
#[derive(Debug, Clone, Copy, PartialEq, Eq, Structural)]
pub enum ShapeError {
    /// The type is not a struct.
    NotAStruct,
    /// The fields have no names.
    UnnamedFields,
    /// There is no field.
    NoFields,
    /// The field at this index reads to the end of the input and is not the
    /// last field.
    LastFieldOnly(usize),
}

/// Whether `k` is the index of a greedy field that is not the last one.
pub open spec fn misplaced(fields: Seq<Field>, k: int) -> bool {
    0 <= k < fields.len() - 1 && fields[k].framing == Framing::Greedy
}

/// The index of the first misplaced field from `from` on, if there is one.
pub open spec fn first_misplaced(fields: Seq<Field>, from: int) -> Option<int>
    decreases fields.len() - from,
{
    if from < 0 || from >= fields.len() - 1 {
        None
    } else if fields[from].framing == Framing::Greedy {
        Some(from)
    } else {
        first_misplaced(fields, from + 1)
    }
}

/// What the check of a shape answers: the number of fields of a record that
/// can have a codec, or the first reason why the type can have none.
pub open spec fn verdict(shape: Shape) -> Result<usize, ShapeError> {
    match shape {
        Shape::Enum => Err(ShapeError::NotAStruct),
        Shape::Union => Err(ShapeError::NotAStruct),
        Shape::Unnamed => Err(ShapeError::UnnamedFields),
        Shape::Unit => Err(ShapeError::NoFields),
        Shape::Named(fields) => if fields@.len() == 0 {
            Err(ShapeError::NoFields)
        } else {
            match first_misplaced(fields@, 0) {
                Some(k) => Err(ShapeError::LastFieldOnly(k as usize)),
                None => Ok(fields@.len() as usize),
            }
        },
    }
}

/// The search for a misplaced field finds the first one, and finds none
/// only where there is none.
pub proof fn lemma_first_misplaced(fields: Seq<Field>, from: int)
    requires
        0 <= from,
    ensures
        match first_misplaced(fields, from) {
            Some(k) => from <= k && misplaced(fields, k) && forall|j: int|
                from <= j < k ==> !misplaced(fields, j),
            None => forall|j: int| from <= j ==> !misplaced(fields, j),
        },
    decreases fields.len() - from,
{
    if from < fields.len() - 1 && fields[from].framing != Framing::Greedy {
        lemma_first_misplaced(fields, from + 1);
    }
}

/// Checks that a codec can be composed for a type of this shape, and
/// returns the number of its fields.
///
/// A struct with named fields passes if it has a field and no greedy field
/// before the last. Of several misplaced fields the first is reported.
pub fn check_shape(shape: &Shape) -> (r: Result<usize, ShapeError>)
    ensures
        r == verdict(*shape),
{
    match shape {
        Shape::Enum => Err(ShapeError::NotAStruct),
        Shape::Union => Err(ShapeError::NotAStruct),
        Shape::Unnamed => Err(ShapeError::UnnamedFields),
        Shape::Unit => Err(ShapeError::NoFields),
        Shape::Named(fields) => {
            let n = fields.len();
            if n == 0 {
                return Err(ShapeError::NoFields);
            }
            let mut k: usize = 0;
            while k < n - 1
                invariant
                    *shape == Shape::Named(*fields),
                    n == fields@.len(),
                    n > 0,
                    k <= n - 1,
                    first_misplaced(fields@, 0) == first_misplaced(fields@, k as int),
                decreases n - k,
            {
                if fields[k].framing == Framing::Greedy {
                    return Err(ShapeError::LastFieldOnly(k));
                }
                k += 1;
            }
            Ok(n)
        },
    }
}

} // verus!
