//! Byte-exact encoding and decoding of structured values.
//!
//! A value's layout is fixed by its type alone: integers have an explicit
//! byte order, collections have an explicit framing, and records are the
//! concatenation of their fields. Three capabilities describe a codec:
//! [`base::ByteSize`] tells how many bytes a value occupies,
//! [`pack::BytePack`] writes exactly that many, and
//! [`unpack::ByteUnpack`] reads them back. [`laws`] states what holds of the
//! three together.
//!
//! A record is a tuple of two to four fields; a longer record nests a tuple
//! as its last field, which changes nothing in the layout. For a struct with
//! named fields, [`record`] decides whether it can have a codec and
//! [`codegen`] writes the source of one.
pub mod base;
pub mod codegen;
pub mod endian;
pub mod error;
pub mod hex;
pub mod laws;
pub mod pack;
pub mod record;
pub mod unpack;
