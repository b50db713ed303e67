//! The premultiplied-RGBA pixel buffers that the damage layer and the decals are drawn
//! into: `tiny_skia::Pixmap`, with what the library reads of one stated over its bytes
//! and its size.
//!
//! A pixmap is `width × height` pixels of 4 bytes each (red, green, blue, alpha), rows
//! packed with no padding.

use vstd::prelude::*;

use tiny_skia::Pixmap;

verus! {

/// `tiny_skia::Pixmap`, known to the verifier as an opaque type.
#[verifier::external_type_specification]
#[verifier::external_body]
pub struct ExPixmap(tiny_skia::Pixmap);

/// The bytes a pixmap holds, row-major, 4 per pixel.
pub uninterp spec fn pixmap_data(p: Pixmap) -> Seq<u8>;

/// A pixmap's width in pixels.
pub uninterp spec fn pixmap_width(p: Pixmap) -> u32;

/// A pixmap's height in pixels.
pub uninterp spec fn pixmap_height(p: Pixmap) -> u32;

/// Whether `tiny_skia::Pixmap::new` can allocate a `width × height` pixmap: both sides
/// non-zero, a row's bytes within `i32::MAX`, and the whole buffer within `usize`.
pub open spec fn pixmap_size_ok(width: nat, height: nat) -> bool {
    &&& width > 0
    &&& height > 0
    &&& width * 4 <= i32::MAX
    &&& width * height * 4 <= usize::MAX
}

/// The bytes of a fully transparent pixmap of `len` bytes.
pub open spec fn transparent(len: nat) -> Seq<u8> {
    Seq::new(len, |i: int| 0u8)
}

/// `tiny_skia::Pixmap::new`: for a size it accepts (see `pixmap_size_ok`), a pixmap of
/// exactly that size whose `4 × width × height` bytes are all zero (transparent black).
#[verifier::external_body]
pub fn new_pixmap(width: u32, height: u32) -> (p: Pixmap)
    requires
        pixmap_size_ok(width as nat, height as nat),
    ensures
        pixmap_width(p) == width,
        pixmap_height(p) == height,
        pixmap_data(p) == transparent(width as nat * height as nat * 4),
{
    Pixmap::new(width, height).unwrap()
}

/// `tiny_skia::Pixmap::data`: the pixmap's bytes. Their count is always
/// `4 × width × height`.
#[verifier::external_body]
pub fn pixmap_bytes(p: &Pixmap) -> (d: &[u8])
    ensures
        d@ == pixmap_data(*p),
        d@.len() == pixmap_width(*p) as nat * pixmap_height(*p) as nat * 4,
{
    p.data()
}

/// `tiny_skia::Pixmap::width`; never zero.
#[verifier::external_body]
pub fn width_of(p: &Pixmap) -> (w: u32)
    ensures
        w == pixmap_width(*p),
        w > 0,
{
    p.width()
}

/// `tiny_skia::Pixmap::height`; never zero.
#[verifier::external_body]
pub fn height_of(p: &Pixmap) -> (h: u32)
    ensures
        h == pixmap_height(*p),
        h > 0,
{
    p.height()
}

/// `tiny_skia::Pixmap::fill` with transparent black (`Color::from_rgba8(0, 0, 0, 0)`):
/// every byte becomes zero; the size is unchanged.
#[verifier::external_body]
pub fn clear_pixmap(p: &mut Pixmap)
    ensures
        pixmap_width(*final(p)) == pixmap_width(*old(p)),
        pixmap_height(*final(p)) == pixmap_height(*old(p)),
        pixmap_data(*final(p)) == transparent(pixmap_data(*old(p)).len()),
{
    p.fill(tiny_skia::Color::from_rgba8(0, 0, 0, 0));
}

} // verus!
