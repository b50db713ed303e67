//! The decal catalogue: how many variants of each mark there are, how a requested
//! variant index wraps into range, the stamp texts and paint colour names, and the check
//! that a drawn decal is not blank.

use vstd::prelude::*;

use tiny_skia::Pixmap;

use crate::pixmap::{height_of, pixmap_bytes, pixmap_data, pixmap_height, pixmap_width, width_of};

verus! {

/// Hammer cracks.
pub const CRACK_VARIANTS: i64 = 8;

/// Machine-gun holes.
pub const BULLET_HOLE_VARIANTS: i64 = 4;

/// Flame-thrower scorch marks.
pub const SCORCH_VARIANTS: i64 = 4;

/// Paint splats, per colour.
pub const PAINT_VARIANTS: i64 = 5;

/// Phaser impacts.
pub const PHASER_VARIANTS: i64 = 10;

/// Stamp prints, one per stamp text.
pub const STAMP_VARIANTS: i64 = 10;

/// Termite bites.
pub const BITE_VARIANTS: i64 = 4;

/// Blood of a squashed termite.
pub const BLOOD_VARIANTS: i64 = 3;

/// Chain-saw cut segments.
pub const SAW_CUT_VARIANTS: i64 = 4;

/// Splinters.
pub const SLIVER_VARIANTS: i64 = 6;

/// The names of the eight colour-thrower colours, in order.
pub const PAINT_COLOR_NAMES: [&'static str; 8] = [
    "red",
    "green",
    "blue",
    "yellow",
    "purple",
    "cyan",
    "orange",
    "pink",
];

/// The stamp texts, one per stamp print.
pub const STAMP_TEXTS: [&'static str; 10] = [
    "VOID",
    "REJECTED",
    "APPROVED",
    "PAID",
    "URGENT",
    "TOP SECRET",
    "COPY",
    "CANCELLED",
    "DRAFT",
    "CONFIDENTIAL",
];

/// `value` wrapped into `0..count` (into `0..1` for a count below one), negative values
/// counting back from the end.
pub open spec fn wrap_spec(value: int, count: int) -> int {
    if count < 1 {
        0
    } else {
        value % count
    }
}

/// A variant index wrapped into `0..count`: `value.rem_euclid(count.max(1))`.
pub fn wrap(value: i64, count: i64) -> (r: i64)
    ensures
        r == wrap_spec(value as int, count as int),
        0 <= r,
        count >= 1 ==> r < count,
{
    let m: i64 = if count < 1 {
        1
    } else {
        count
    };
    match value.checked_rem_euclid(m) {
        Some(r) => r,
        None => 0,
    }
}

/// The alpha byte of pixel `(x, y)` of a `w`-wide RGBA buffer.
pub open spec fn alpha_at(data: Seq<u8>, w: nat, x: nat, y: nat) -> u8 {
    data[((y * w + x) * 4 + 3) as int]
}

/// Whether every pixel at even coordinates of a `w × h` RGBA buffer is all but
/// transparent (alpha at most 8).
pub open spec fn blank_spec(data: Seq<u8>, w: nat, h: nat) -> bool {
    forall|x: nat, y: nat|
        x < w && y < h && x % 2 == 0 && y % 2 == 0 ==> #[trigger] alpha_at(data, w, x, y) <= 8
}

/// Whether an image is (all but) entirely transparent, checked on a stride of 2 in both
/// axes. A blank decal shows up in the game as "the tool does not work".
pub fn is_blank(pixmap: &Pixmap) -> (r: bool)
    ensures
        r == blank_spec(
            pixmap_data(*pixmap),
            pixmap_width(*pixmap) as nat,
            pixmap_height(*pixmap) as nat,
        ),
{
    let data = pixmap_bytes(pixmap);
    let w = width_of(pixmap) as usize;
    let h = height_of(pixmap) as usize;
    let n = data.len();
    let ghost d = pixmap_data(*pixmap);
    let mut y: usize = 0;
    while y < h
        invariant
            d == data@,
            d == pixmap_data(*pixmap),
            w == pixmap_width(*pixmap),
            h == pixmap_height(*pixmap),
            data@.len() == w * h * 4,
            n == data@.len(),
            w > 0,
            h > 0,
            y % 2 == 0,
            y <= h + 1,
            forall|x: nat, yy: nat|
                x < w && yy < h && yy < y && x % 2 == 0 && yy % 2 == 0 ==> #[trigger] alpha_at(
                    d,
                    w as nat,
                    x,
                    yy,
                ) <= 8,
        decreases h + 1 - y,
    {
        let mut x: usize = 0;
        while x < w
            invariant
                d == data@,
                data@.len() == w * h * 4,
                n == data@.len(),
                d == pixmap_data(*pixmap),
                w == pixmap_width(*pixmap),
                h == pixmap_height(*pixmap),
                w > 0,
                h > 0,
                y < h,
                y % 2 == 0,
                x % 2 == 0,
                x <= w + 1,
                forall|xx: nat, yy: nat|
                    xx < w && yy < h && (yy < y || (yy == y && xx < x)) && xx % 2 == 0 && yy % 2
                        == 0 ==> #[trigger] alpha_at(d, w as nat, xx, yy) <= 8,
            decreases w + 1 - x,
        {
            assert((y * w + x) * 4 + 3 < w * h * 4 && y * w <= y * w + x) by (nonlinear_arith)
                requires
                    x < w,
                    y < h,
            ;
            let idx = (y * w + x) * 4;
            if data[idx + 3] > 8 {
                assert(alpha_at(d, w as nat, x as nat, y as nat) > 8);
                assert(!blank_spec(d, w as nat, h as nat));
                return false;
            }
            x = x + 2;
        }
        assert(h * 4 <= w * h * 4) by (nonlinear_arith)
            requires
                w > 0,
        ;
        y = y + 2;
    }
    true
}

} // verus!
