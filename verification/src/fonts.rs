//! The stamp decals' font: the embedded TrueType/OpenType face their texts are traced
//! from, parsed with `ttf_parser`. Laying glyphs out is floating-point work done by the
//! caller with `face()`.

use vstd::prelude::*;

use ttf_parser::Face;

verus! {

/// `ttf_parser::Face`, known to the verifier as an opaque type.
#[verifier::external_type_specification]
#[verifier::external_body]
pub struct ExFace<'a>(ttf_parser::Face<'a>);

/// Whether `ttf_parser` accepts `data` as a font whose first face has the tables it
/// requires (`head`, `hhea`, `maxp`).
pub uninterp spec fn face_parses(data: Seq<u8>) -> bool;

/// `ttf_parser::Face::parse(data, 0)`: the first face of the font in `data`, or `None`
/// when `ttf_parser` rejects it. Which bytes it accepts is named (`face_parses`), not
/// stated: the OpenType table rules behind it are `ttf_parser`'s.
#[verifier::external_body]
pub fn parse_face<'a>(data: &'a [u8]) -> (r: Option<Face<'a>>)
    ensures
        r.is_some() == face_parses(data@),
{
    Face::parse(data, 0).ok()
}

/// The font the stamp texts are drawn with.
pub struct StampFont<'a> {
    face: Face<'a>,
}

impl<'a> StampFont<'a> {
    /// The parsed face this font holds.
    pub closed spec fn parsed_face(&self) -> Face<'a> {
        self.face
    }

    /// The stamp font in `data`; `None` when the bytes are not a font `ttf_parser` reads.
    pub fn new(data: &'a [u8]) -> (r: Option<StampFont<'a>>)
        ensures
            r.is_some() == face_parses(data@),
    {
        match parse_face(data) {
            Some(face) => Some(StampFont { face }),
            None => None,
        }
    }

    /// The parsed face, for laying glyphs out.
    pub fn face(&self) -> (r: &Face<'a>)
        ensures
            *r == self.parsed_face(),
    {
        &self.face
    }
}

} // verus!
