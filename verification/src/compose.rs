//! Drawing one premultiplied-RGBA image over another at a whole-pixel offset (what lays
//! rasterised text onto the credits panel): each covered destination pixel becomes the
//! source plus whatever the source's alpha leaves of the destination, and the parts of the
//! source that fall outside the destination are dropped.

use vstd::prelude::*;

use tiny_skia::Pixmap;

use crate::pixmap::{height_of, pixmap_bytes, pixmap_data, pixmap_height, pixmap_width, width_of};

verus! {

/// Premultiplied source-over for one channel byte: `s + d · (255 − sa) / 255`, kept to
/// its low 8 bits.
pub open spec fn over(s: u8, d: u8, sa: u8) -> u8 {
    ((s as int + (d as int * (255 - sa as int)) / 255) % 256) as u8
}

/// Byte `i` of a `dw`-wide destination after `src` (`sw × sh`) is drawn over it with its
/// top-left pixel at `(x, y)`.
pub open spec fn blit_byte(dst: Seq<u8>, dw: nat, src: Seq<u8>, sw: nat, sh: nat, x: int, y: int, i: int) -> u8 {
    let p = i / 4;
    let c = i % 4;
    let sx = (p % dw as int) - x;
    let sy = (p / dw as int) - y;
    if 0 <= sx < sw && 0 <= sy < sh {
        let si = (sy * sw + sx) * 4;
        over(src[si + c], dst[i], src[si + 3])
    } else {
        dst[i]
    }
}

/// Index of channel `c` of pixel `(px, py)` in a `w`-wide image of 4-byte pixels.
pub open spec fn pixel_byte(w: int, px: int, py: int, c: int) -> int {
    (py * w + px) * 4 + c
}

/// What drawing `src` at `(x, y)` needs so that no `i32` coordinate overflows: the
/// source's last row is representable, and so is its last column whenever any of its
/// rows lands on the destination.
pub open spec fn blit_fits(dh: nat, sw: nat, sh: nat, x: int, y: int) -> bool {
    &&& sh <= i32::MAX
    &&& sw <= i32::MAX
    &&& dh <= i32::MAX
    &&& sh > 0 ==> y + sh - 1 <= i32::MAX
    &&& (sw > 0 && y < dh && y + sh > 0) ==> x + sw - 1 <= i32::MAX
}

/// Whether destination byte `i` belongs to a pixel whose source pixel comes before
/// `(sx, sy)` in row-major order.
pub open spec fn drawn_before(dw: nat, x: int, y: int, sx: int, sy: int, i: int) -> bool {
    let p = i / 4;
    let px = (p % dw as int) - x;
    let py = (p / dw as int) - y;
    py < sy || (py == sy && px < sx)
}

proof fn lemma_pixel_bytes(dw: nat, dx: nat, dy: nat, i: int)
    requires
        dw > 0,
        dx < dw,
        i >= 0,
    ensures
        ((i / 4) == dy * dw + dx) <==> ((dy * dw + dx) * 4 <= i < (dy * dw + dx) * 4 + 4),
        ((dy * dw + dx) as int) % (dw as int) == dx,
        ((dy * dw + dx) as int) / (dw as int) == dy,
        (i / 4) % (dw as int) >= 0,
        (i / 4) / (dw as int) >= 0,
        (i / 4) == ((i / 4) / (dw as int)) * (dw as int) + (i / 4) % (dw as int),
{
    vstd::arithmetic::div_mod::lemma_fundamental_div_mod(i / 4, dw as int);
    vstd::arithmetic::mul::lemma_mul_is_commutative(dw as int, (i / 4) / (dw as int));
    vstd::arithmetic::div_mod::lemma_fundamental_div_mod_converse(
        (dy * dw + dx) as int,
        dw as int,
        dy as int,
        dx as int,
    );
    vstd::arithmetic::div_mod::lemma_div_pos_is_pos(i / 4, dw as int);
    vstd::arithmetic::div_mod::lemma_mod_pos_bound(i / 4, dw as int);
}

/// Where a source pixel lands: the destination pixel `(x + sx, y + sy)` is the source
/// pixel in row `sy`, column `sx` composited over it, channel by channel, with that source
/// pixel's own alpha.
pub proof fn lemma_blit_source_pixel(dst: Seq<u8>, dw: nat, dh: nat, src: Seq<u8>, sw: nat, sh: nat, x: int, y: int, sx: int, sy: int, c: int)
    requires
        dst.len() == dw * dh * 4,
        src.len() == sw * sh * 4,
        0 <= sx < sw,
        0 <= sy < sh,
        0 <= c < 4,
        0 <= x + sx < dw,
        0 <= y + sy < dh,
    ensures
        0 <= pixel_byte(dw as int, x + sx, y + sy, c) < dst.len(),
        0 <= pixel_byte(sw as int, sx, sy, c) < src.len(),
        0 <= pixel_byte(sw as int, sx, sy, 3) < src.len(),
        blit_byte(dst, dw, src, sw, sh, x, y, pixel_byte(dw as int, x + sx, y + sy, c)) == over(
            src[pixel_byte(sw as int, sx, sy, c)],
            dst[pixel_byte(dw as int, x + sx, y + sy, c)],
            src[pixel_byte(sw as int, sx, sy, 3)],
        ),
{
    let dx: nat = (x + sx) as nat;
    let dy: nat = (y + sy) as nat;
    let i = pixel_byte(dw as int, x + sx, y + sy, c);
    assert((dy * dw + dx) * 4 + 4 <= dw * dh * 4) by (nonlinear_arith)
        requires dx < dw, dy < dh;
    assert((sy * sw + sx) * 4 + 4 <= sw * sh * 4) by (nonlinear_arith)
        requires 0 <= sx < sw, 0 <= sy < sh;
    assert(0 <= sy * sw) by (nonlinear_arith) requires 0 <= sy, 0 <= sw;
    lemma_pixel_bytes(dw, dx, dy, i);
    assert(i / 4 == dy * dw + dx);
    assert(i % 4 == c);
}

/// An opaque source drawn at the origin over a destination of its own size replaces the
/// destination: the result is exactly the source's bytes.
pub proof fn lemma_opaque_same_size_replaces(dst: Seq<u8>, src: Seq<u8>, w: nat, h: nat)
    requires
        w > 0,
        dst.len() == w * h * 4,
        src.len() == w * h * 4,
        forall|i: int| 0 <= i < src.len() && i % 4 == 3 ==> #[trigger] src[i] == 255,
    ensures
        forall|i: int| 0 <= i < dst.len() ==> #[trigger] blit_byte(dst, w, src, w, h, 0, 0, i) == src[i],
{
    assert forall|i: int| 0 <= i < dst.len() implies #[trigger] blit_byte(dst, w, src, w, h, 0, 0, i) == src[i] by {
        lemma_pixel_bytes(w, 0, 0, i);
        let p = i / 4;
        let px = p % (w as int);
        let py = p / (w as int);
        assert(p < w * h) by (nonlinear_arith) requires p == i / 4, 0 <= i < w * h * 4;
        assert(py < h) by (nonlinear_arith) requires p == py * w + px, 0 <= px, 0 <= py, p < w * h, w > 0;
        vstd::arithmetic::div_mod::lemma_mod_bound(p, w as int);
        let si = (py * w + px) * 4;
        assert(si + i % 4 == i);
        assert(0 <= si && si + 3 < src.len());
        assert((si + 3) % 4 == 3);
        assert(src[si + 3] == 255);
        assert((dst[i] as int * (255 - 255u8 as int)) / 255 == 0);
        assert(over(src[i], dst[i], 255) == src[i]);
        assert(px < w && py < h);
    }
}

/// Draws premultiplied `src` (`sw × sh`) over premultiplied `dst` (`dw × dh`) with its
/// top-left pixel at `(x, y)`, returning the new destination bytes.
pub fn blend_over(dst: &[u8], dw: u32, dh: u32, src: &[u8], sw: u32, sh: u32, x: i32, y: i32) -> (out: Vec<u8>)
    requires
        dw > 0,
        dst@.len() == dw as nat * dh as nat * 4,
        src@.len() == sw as nat * sh as nat * 4,
        blit_fits(dh as nat, sw as nat, sh as nat, x as int, y as int),
    ensures
        out@.len() == dst@.len(),
        forall|i: int|
            0 <= i < out@.len() ==> #[trigger] out@[i] == blit_byte(
                dst@,
                dw as nat,
                src@,
                sw as nat,
                sh as nat,
                x as int,
                y as int,
                i,
            ),
        forall|sx: int, sy: int, c: int|
            0 <= sx < sw && 0 <= sy < sh && 0 <= c < 4 && 0 <= x + sx < dw && 0 <= y + sy < dh
                ==> out@[pixel_byte(dw as int, x + sx, y + sy, c)] == over(
                #[trigger] src@[pixel_byte(sw as int, sx, sy, c)],
                dst@[pixel_byte(dw as int, x + sx, y + sy, c)],
                src@[pixel_byte(sw as int, sx, sy, 3)],
            ),
{
    let ghost wd = dw as nat;
    let n = dst.len();
    let sn = src.len();
    let mut out: Vec<u8> = Vec::new();
    let mut k: usize = 0;
    while k < n
        invariant
            k <= n,
            n == dst@.len(),
            out@ == dst@.take(k as int),
        decreases n - k,
    {
        out.push(dst[k]);
        assert(out@ =~= dst@.take(k + 1));
        k = k + 1;
    }
    assert(out@ =~= dst@);
    let mut sy: u32 = 0;
    while sy < sh
        invariant
            dw > 0,
            wd == dw,
            n == dst@.len(),
            sn == src@.len(),
            dst@.len() == dw as nat * dh as nat * 4,
            src@.len() == sw as nat * sh as nat * 4,
            blit_fits(dh as nat, sw as nat, sh as nat, x as int, y as int),
            sy <= sh,
            out@.len() == n,
            forall|i: int|
                0 <= i < n ==> #[trigger] out@[i] == if drawn_before(wd, x as int, y as int, 0, sy as int, i) {
                    blit_byte(dst@, wd, src@, sw as nat, sh as nat, x as int, y as int, i)
                } else {
                    dst@[i]
                },
        decreases sh - sy,
    {
        let dy: i32 = y + sy as i32;
        if dy >= 0 && (dy as u32) < dh {
            let mut sx: u32 = 0;
            while sx < sw
                invariant
                    dw > 0,
                    wd == dw,
                    n == dst@.len(),
                    sn == src@.len(),
                    dst@.len() == dw as nat * dh as nat * 4,
                    src@.len() == sw as nat * sh as nat * 4,
                    blit_fits(dh as nat, sw as nat, sh as nat, x as int, y as int),
                    sy < sh,
                    dy == y + sy,
                    0 <= dy < dh,
                    sx <= sw,
                    out@.len() == n,
                    forall|i: int|
                        0 <= i < n ==> #[trigger] out@[i] == if drawn_before(wd, x as int, y as int, sx as int, sy as int, i) {
                            blit_byte(dst@, wd, src@, sw as nat, sh as nat, x as int, y as int, i)
                        } else {
                            dst@[i]
                        },
                decreases sw - sx,
            {
                let dx: i32 = x + sx as i32;
                if dx >= 0 && (dx as u32) < dw {
                    let ghost pd = (dy as nat) * wd + (dx as nat);
                    assert(((dy as nat) * wd + (dx as nat)) * 4 + 4 <= n) by (nonlinear_arith)
                        requires
                            (dx as nat) < wd,
                            (dy as nat) < dh,
                            n == wd * dh * 4,
                    ;
                    assert(((sy as nat) * (sw as nat) + (sx as nat)) * 4 + 4 <= src@.len() && (sy as nat) * (sw as nat) <= ((sy as nat) * (sw as nat) + (sx as nat)) * 4) by (nonlinear_arith)
                        requires
                            (sx as nat) < sw,
                            (sy as nat) < sh,
                            src@.len() == sw as nat * sh as nat * 4,
                    ;
                    let si: usize = (sy as usize * sw as usize + sx as usize) * 4;
                    let di: usize = (dy as usize * dw as usize + dx as usize) * 4;
                    let inv: u32 = 255 - src[si + 3] as u32;
                    proof {
                        assert forall|v: u32| v <= 255 implies #[trigger] (v * inv) <= 65025 by {
                            assert(v * inv <= 65025) by (nonlinear_arith)
                                requires
                                    v <= 255,
                                    inv <= 255,
                            ;
                        }
                    }
                    let b0: u8 = ((src[si] as u32 + (dst[di] as u32 * inv) / 255) % 256) as u8;
                    let b1: u8 = ((src[si + 1] as u32 + (dst[di + 1] as u32 * inv) / 255) % 256) as u8;
                    let b2: u8 = ((src[si + 2] as u32 + (dst[di + 2] as u32 * inv) / 255) % 256) as u8;
                    let b3: u8 = ((src[si + 3] as u32 + (dst[di + 3] as u32 * inv) / 255) % 256) as u8;
                    let ghost before = out@;
                    out.set(di, b0);
                    out.set(di + 1, b1);
                    out.set(di + 2, b2);
                    out.set(di + 3, b3);
                    assert forall|i: int| 0 <= i < n implies #[trigger] out@[i] == if drawn_before(wd, x as int, y as int, sx + 1, sy as int, i) {
                        blit_byte(dst@, wd, src@, sw as nat, sh as nat, x as int, y as int, i)
                    } else {
                        dst@[i]
                    } by {
                        lemma_pixel_bytes(wd, dx as nat, dy as nat, i);
                        if di <= i < di + 4 {
                            assert(i / 4 == pd);
                            assert(i % 4 == i - di);
                            assert((i / 4) % (wd as int) == dx);
                            assert((i / 4) / (wd as int) == dy);
                            assert(si == ((sy as int) * (sw as int) + (sx as int)) * 4);
                            if i == di {
                                assert(out@[i] == b0);
                            } else if i == di + 1 {
                                assert(out@[i] == b1);
                            } else if i == di + 2 {
                                assert(out@[i] == b2);
                            } else {
                                assert(out@[i] == b3);
                            }
                        } else {
                            assert(out@[i] == before[i]);
                        }
                    }
                } else {
                    assert forall|i: int| 0 <= i < n implies #[trigger] out@[i] == if drawn_before(wd, x as int, y as int, sx + 1, sy as int, i) {
                        blit_byte(dst@, wd, src@, sw as nat, sh as nat, x as int, y as int, i)
                    } else {
                        dst@[i]
                    } by {
                        lemma_pixel_bytes(wd, 0, 0, i);
                        vstd::arithmetic::div_mod::lemma_mod_bound(i / 4, wd as int);
                    }
                }
                sx = sx + 1;
            }
            assert forall|i: int| 0 <= i < n implies #[trigger] out@[i] == if drawn_before(wd, x as int, y as int, 0, sy + 1, i) {
                blit_byte(dst@, wd, src@, sw as nat, sh as nat, x as int, y as int, i)
            } else {
                dst@[i]
            } by {
                lemma_pixel_bytes(wd, 0, 0, i);
                if drawn_before(wd, x as int, y as int, sw as int, sy as int, i) != drawn_before(wd, x as int, y as int, 0, sy + 1, i) {
                    assert(blit_byte(dst@, wd, src@, sw as nat, sh as nat, x as int, y as int, i) == dst@[i]);
                }
            }
        } else {
            assert forall|i: int| 0 <= i < n implies #[trigger] out@[i] == if drawn_before(wd, x as int, y as int, 0, sy + 1, i) {
                blit_byte(dst@, wd, src@, sw as nat, sh as nat, x as int, y as int, i)
            } else {
                dst@[i]
            } by {
                lemma_pixel_bytes(wd, 0, 0, i);
                assert((i / 4) / (wd as int) < dh) by (nonlinear_arith)
                    requires
                        0 <= i < wd * dh * 4,
                        wd > 0,
                ;
                if drawn_before(wd, x as int, y as int, 0, sy as int, i) != drawn_before(wd, x as int, y as int, 0, sy + 1, i) {
                    assert(blit_byte(dst@, wd, src@, sw as nat, sh as nat, x as int, y as int, i) == dst@[i]);
                }
            }
        }
        sy = sy + 1;
    }
    assert forall|i: int| 0 <= i < n implies #[trigger] out@[i] == blit_byte(dst@, wd, src@, sw as nat, sh as nat, x as int, y as int, i) by {
        if !drawn_before(wd, x as int, y as int, 0, sh as int, i) {
            assert(blit_byte(dst@, wd, src@, sw as nat, sh as nat, x as int, y as int, i) == dst@[i]);
        }
    }
    assert forall|sx: int, sy: int, c: int|
        0 <= sx < sw && 0 <= sy < sh && 0 <= c < 4 && 0 <= x + sx < dw && 0 <= y + sy < dh
            implies out@[pixel_byte(dw as int, x + sx, y + sy, c)] == over(
            #[trigger] src@[pixel_byte(sw as int, sx, sy, c)],
            dst@[pixel_byte(dw as int, x + sx, y + sy, c)],
            src@[pixel_byte(sw as int, sx, sy, 3)],
        ) by {
        lemma_blit_source_pixel(dst@, wd, dh as nat, src@, sw as nat, sh as nat, x as int, y as int, sx, sy, c);
    }
    out
}

/// `tiny_skia::Pixmap::data_mut`, overwritten with `bytes`: the pixmap now holds exactly
/// those bytes, at the same size.
#[verifier::external_body]
fn overwrite_pixmap(p: &mut Pixmap, bytes: &[u8])
    requires
        bytes@.len() == pixmap_data(*old(p)).len(),
    ensures
        pixmap_data(*final(p)) == bytes@,
        pixmap_width(*final(p)) == pixmap_width(*old(p)),
        pixmap_height(*final(p)) == pixmap_height(*old(p)),
{
    p.data_mut().copy_from_slice(bytes);
}

/// Draws `src` over `dst` with its top-left pixel at `(x, y)`.
pub fn blit_over(dst: &mut Pixmap, src: &Pixmap, x: i32, y: i32)
    requires
        blit_fits(
            pixmap_height(*old(dst)) as nat,
            pixmap_width(*src) as nat,
            pixmap_height(*src) as nat,
            x as int,
            y as int,
        ),
    ensures
        pixmap_width(*final(dst)) == pixmap_width(*old(dst)),
        pixmap_height(*final(dst)) == pixmap_height(*old(dst)),
        pixmap_data(*final(dst)).len() == pixmap_data(*old(dst)).len(),
        forall|i: int|
            0 <= i < pixmap_data(*final(dst)).len() ==> #[trigger] pixmap_data(*final(dst))[i]
                == blit_byte(
                pixmap_data(*old(dst)),
                pixmap_width(*old(dst)) as nat,
                pixmap_data(*src),
                pixmap_width(*src) as nat,
                pixmap_height(*src) as nat,
                x as int,
                y as int,
                i,
            ),
{
    let dw = width_of(dst);
    let dh = height_of(dst);
    let sw = width_of(src);
    let sh = height_of(src);
    let blended = blend_over(pixmap_bytes(dst), dw, dh, pixmap_bytes(src), sw, sh, x, y);
    overwrite_pixmap(dst, blended.as_slice());
}

} // verus!
