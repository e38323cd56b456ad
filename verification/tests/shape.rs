use bytepack::codegen::{impl_bytepack, impl_bytesize, impl_byteunpack};
use bytepack::record::{check_shape, framing_of, Field, Framing, Shape, ShapeError};

fn named(fields: &[(&str, Framing)]) -> Shape {
    Shape::Named(
        fields
            .iter()
            .map(|(name, framing)| Field { name: name.to_string(), framing: *framing })
            .collect(),
    )
}

#[test]
fn named_fields_pass() {
    assert_eq!(check_shape(&named(&[("a", Framing::Bounded)])), Ok(1));
    assert_eq!(
        check_shape(&named(&[
            ("a", Framing::Bounded),
            ("b", Framing::Bounded),
            ("c", Framing::Greedy)
        ])),
        Ok(3)
    );
    assert_eq!(check_shape(&named(&[("a", Framing::Greedy)])), Ok(1));
}

#[test]
fn other_shapes_are_refused() {
    assert_eq!(check_shape(&Shape::Unnamed), Err(ShapeError::UnnamedFields));
    assert_eq!(check_shape(&Shape::Unit), Err(ShapeError::NoFields));
    assert_eq!(check_shape(&named(&[])), Err(ShapeError::NoFields));
    assert_eq!(check_shape(&Shape::Enum), Err(ShapeError::NotAStruct));
    assert_eq!(check_shape(&Shape::Union), Err(ShapeError::NotAStruct));
}

#[test]
fn greedy_field_before_the_end_is_refused() {
    assert_eq!(
        check_shape(&named(&[("a", Framing::Greedy), ("b", Framing::Bounded)])),
        Err(ShapeError::LastFieldOnly(0))
    );
    assert_eq!(
        check_shape(&named(&[
            ("a", Framing::Bounded),
            ("b", Framing::Greedy),
            ("c", Framing::Greedy),
            ("d", Framing::Greedy)
        ])),
        Err(ShapeError::LastFieldOnly(1))
    );
}

#[test]
fn framing_by_type_name() {
    assert_eq!(framing_of("DrainVec"), Framing::Greedy);
    assert_eq!(framing_of("SplatDrain"), Framing::Greedy);
    assert_eq!(framing_of("SplatVec"), Framing::Bounded);
    assert_eq!(framing_of("SizedVec"), Framing::Bounded);
    assert_eq!(framing_of("u16"), Framing::Bounded);
    assert_eq!(framing_of(""), Framing::Bounded);
}

#[test]
fn generated_size() {
    let shape = named(&[("u8_field", Framing::Bounded), ("u32_field", Framing::Bounded)]);
    assert_eq!(
        impl_bytesize("TestStruct", &shape).unwrap(),
        "impl TestStruct { pub fn byte_size(&self) -> usize { 0 \
         + ::bytepack::base::ByteSize::byte_size(&self.u8_field) \
         + ::bytepack::base::ByteSize::byte_size(&self.u32_field) } }"
    );
}

#[test]
fn generated_writer() {
    let shape = named(&[("a", Framing::Bounded), ("b", Framing::Bounded)]);
    assert_eq!(
        impl_bytepack("Pair", &shape).unwrap(),
        "impl Pair { pub fn can_pack(&self) -> bool { true \
         && ::bytepack::pack::BytePack::can_pack(&self.a) \
         && ::bytepack::pack::BytePack::can_pack(&self.b) } \
         pub fn pack(&self, buf: &mut [u8]) -> Result<(), ::bytepack::error::Error> { \
         if buf.len() < self.byte_size() { \
         return Err(::bytepack::error::Error::BufferTooSmall); } \
         if !self.can_pack() { return Err(::bytepack::error::Error::InvalidState); } \
         let at = 0usize; \
         let at = ::bytepack::pack::pack_field(&self.a, buf, at)?; \
         let at = ::bytepack::pack::pack_field(&self.b, buf, at)?; \
         let _ = at; Ok(()) } }"
    );
}

#[test]
fn generated_reader() {
    let shape = named(&[("head", Framing::Bounded), ("rest", Framing::Greedy)]);
    assert_eq!(
        impl_byteunpack("Frame", &shape).unwrap(),
        "impl Frame { pub fn unpack(buf: &[u8]) -> Result<Self, ::bytepack::error::Error> { \
         let at = 0usize; \
         let (head, at) = ::bytepack::unpack::unpack_field(buf, at)?; \
         let (rest, at) = ::bytepack::unpack::unpack_field(buf, at)?; \
         let _ = at; Ok(Self { head, rest, }) } }"
    );
}

#[test]
fn nothing_is_generated_for_a_refused_shape() {
    let misplaced = named(&[("rest", Framing::Greedy), ("tail", Framing::Bounded)]);
    assert_eq!(impl_bytesize("S", &misplaced), Err(ShapeError::LastFieldOnly(0)));
    assert_eq!(impl_bytepack("S", &misplaced), Err(ShapeError::LastFieldOnly(0)));
    assert_eq!(impl_byteunpack("S", &misplaced), Err(ShapeError::LastFieldOnly(0)));
    assert_eq!(impl_bytesize("S", &Shape::Unnamed), Err(ShapeError::UnnamedFields));
    assert_eq!(impl_bytepack("S", &Shape::Unit), Err(ShapeError::NoFields));
    assert_eq!(impl_byteunpack("S", &Shape::Unit), Err(ShapeError::NoFields));
    assert_eq!(impl_byteunpack("S", &Shape::Enum), Err(ShapeError::NotAStruct));
    assert_eq!(impl_bytesize("S", &named(&[])), Err(ShapeError::NoFields));
}

#[test]
fn generated_source_is_made_of_whole_tokens() {
    let shape = named(&[("id", Framing::Bounded), ("body", Framing::Greedy)]);
    for source in [
        impl_bytesize("Message", &shape).unwrap(),
        impl_bytepack("Message", &shape).unwrap(),
        impl_byteunpack("Message", &shape).unwrap(),
    ] {
        let tokens: proc_macro2::TokenStream = source.parse().unwrap();
        let mut trees = tokens.into_iter();
        assert_eq!(trees.next().unwrap().to_string(), "impl");
        assert_eq!(trees.next().unwrap().to_string(), "Message");
        assert!(matches!(trees.next(), Some(proc_macro2::TokenTree::Group(_))));
        assert!(trees.next().is_none());
    }
}
