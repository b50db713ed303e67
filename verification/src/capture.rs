//! Screen capture's pixel work: the coarse brightness grid a captured frame is reduced to
//! (for the brightness-driven impact sound), and the BGRA → opaque RGBA conversion used
//! for the frozen-mode background.
//!
//! Captured frames are `stride`-wide rows of 4-byte pixels, blue/green/red/alpha in that
//! byte order. A buffer too short for every row is read as far as whole rows fit.

use vstd::prelude::*;

verus! {

/// Columns of the brightness grid.
pub const GRID_COLS: usize = 24;

/// Rows of the brightness grid.
pub const GRID_ROWS: usize = 16;

/// How many leading rows of a `width × height` frame with `stride` bytes per row fit in a
/// buffer of `len` bytes (a row fits when its last pixel's 4 bytes lie inside the buffer).
pub open spec fn rows_read(len: nat, width: nat, height: nat, stride: nat) -> nat {
    if width * 4 > len {
        0
    } else if stride == 0 {
        height
    } else {
        let fit = ((len - width * 4) as nat) / stride + 1;
        if fit < height {
            fit
        } else {
            height
        }
    }
}

/// Whether row `y` fits in the buffer.
pub open spec fn row_fits(len: nat, width: nat, stride: nat, y: nat) -> bool {
    y * stride + width * 4 <= len
}

/// Rec. 601 luma of the pixel at `(x, y)`, in integer arithmetic.
pub open spec fn luma_at(bytes: Seq<u8>, stride: nat, x: nat, y: nat) -> nat {
    let px = y * stride + x * 4;
    let b = bytes[px as int] as nat;
    let g = bytes[px as int + 1] as nat;
    let r = bytes[px as int + 2] as nat;
    (r * 299 + g * 587 + b * 114) / 1000
}

/// The grid cell pixel `(x, y)` of a `width × height` frame falls into.
pub open spec fn cell_of(width: nat, height: nat, x: nat, y: nat) -> nat {
    let row = if (y * 16) / height < 15 { (y * 16) / height } else { 15 };
    let col = if (x * 24) / width < 23 { (x * 24) / width } else { 23 };
    row * 24 + col
}

/// The summed luma of cell `c` over the first `n` pixels, in row-major order.
pub open spec fn cell_sum(bytes: Seq<u8>, width: nat, height: nat, stride: nat, c: nat, n: nat) -> nat
    decreases n,
{
    if n == 0 || width == 0 {
        0
    } else {
        let p = (n - 1) as nat;
        let x = p % width;
        let y = p / width;
        cell_sum(bytes, width, height, stride, c, p) + if cell_of(width, height, x, y) == c {
            luma_at(bytes, stride, x, y)
        } else {
            0
        }
    }
}

/// How many of the first `n` pixels, in row-major order, fall into cell `c`.
pub open spec fn cell_count(width: nat, height: nat, c: nat, n: nat) -> nat
    decreases n,
{
    if n == 0 || width == 0 {
        0
    } else {
        let p = (n - 1) as nat;
        cell_count(width, height, c, p) + if cell_of(width, height, p % width, p / width) == c {
            1nat
        } else {
            0nat
        }
    }
}

/// The grayscale value of cell `c` after reading the first `n` pixels: the average luma of
/// the cell's pixels (0 for a cell that got none).
pub open spec fn cell_value(bytes: Seq<u8>, width: nat, height: nat, stride: nat, c: nat, n: nat) -> u8 {
    let count = cell_count(width, height, c, n);
    if count > 0 {
        let avg = cell_sum(bytes, width, height, stride, c, n) / count;
        (if avg < 255 { avg } else { 255 }) as u8
    } else {
        0
    }
}

/// Whether pixel `(x, y)` of a `width × height` frame lies in grid column `col` and grid
/// row `row`: the frame is cut into 24 equal column bands and 16 equal row bands, the
/// last band of each taking what rounding leaves over.
pub open spec fn in_grid_cell(width: nat, height: nat, x: nat, y: nat, col: nat, row: nat) -> bool {
    &&& (if x * 24 / width < 23 { x * 24 / width } else { 23 }) == col
    &&& (if y * 16 / height < 15 { y * 16 / height } else { 15 }) == row
}

/// The summed luma of the first `n` pixels, in row-major order, that lie in grid column
/// `col` and grid row `row`.
pub open spec fn region_sum(bytes: Seq<u8>, width: nat, height: nat, stride: nat, col: nat, row: nat, n: nat) -> nat
    decreases n,
{
    if n == 0 || width == 0 {
        0
    } else {
        let p = (n - 1) as nat;
        region_sum(bytes, width, height, stride, col, row, p) + if in_grid_cell(width, height, p % width, p / width, col, row) {
            luma_at(bytes, stride, p % width, p / width)
        } else {
            0
        }
    }
}

/// How many of the first `n` pixels, in row-major order, lie in grid column `col` and
/// grid row `row`.
pub open spec fn region_count(width: nat, height: nat, col: nat, row: nat, n: nat) -> nat
    decreases n,
{
    if n == 0 || width == 0 {
        0
    } else {
        let p = (n - 1) as nat;
        region_count(width, height, col, row, p) + if in_grid_cell(width, height, p % width, p / width, col, row) {
            1nat
        } else {
            0nat
        }
    }
}

/// The average luma, capped at 255, of the first `n` pixels that lie in grid column `col`
/// and grid row `row` (0 when none does).
pub open spec fn region_average(bytes: Seq<u8>, width: nat, height: nat, stride: nat, col: nat, row: nat, n: nat) -> u8 {
    let count = region_count(width, height, col, row, n);
    if count > 0 {
        let avg = region_sum(bytes, width, height, stride, col, row, n) / count;
        (if avg < 255 { avg } else { 255 }) as u8
    } else {
        0
    }
}

/// What `BrightnessMap::update` needs of a frame for its own arithmetic: the per-cell
/// luma sums and pixel counts fit in `u32`, and so do the byte offsets and grid
/// coordinates it computes in `u32`.
pub open spec fn update_fits(len: nat, width: nat, height: nat, stride: nat, bytes: Seq<u8>) -> bool {
    let rows = rows_read(len, width, height, stride);
    &&& (if rows < height { rows } else { (height - 1) as nat }) * stride <= u32::MAX
    &&& rows > 0 ==> (rows - 1) * 16 <= u32::MAX && (width - 1) * 24 <= u32::MAX && (width - 1) * 4 <= u32::MAX
    &&& forall|c: nat| c < 384 ==> #[trigger] cell_sum(bytes, width, height, stride, c, rows * width) <= u32::MAX
    &&& forall|c: nat| c < 384 ==> #[trigger] cell_count(width, height, c, rows * width) <= u32::MAX
}

/// One output's most recent brightness sample grid.
pub struct BrightnessMap {
    /// `GRID_COLS * GRID_ROWS` grayscale samples, row-major — empty until the first
    /// capture actually completes.
    grid: Vec<u8>,
    screen_width: u32,
    screen_height: u32,
}

impl BrightnessMap {
    /// The grid, row-major (empty before the first capture).
    pub closed spec fn grid_view(&self) -> Seq<u8> {
        self.grid@
    }

    /// The size of the frame the grid was built from.
    pub closed spec fn size_view(&self) -> (u32, u32) {
        (self.screen_width, self.screen_height)
    }

    /// Nothing captured yet.
    pub fn new() -> (r: Self)
        ensures
            r.grid_view().len() == 0,
            r.size_view() == (0u32, 0u32),
    {
        BrightnessMap { grid: Vec::new(), screen_width: 0, screen_height: 0 }
    }

    /// The size of the frame the grid was built from; `(0, 0)` before the first capture.
    pub fn screen_size(&self) -> (r: (u32, u32))
        ensures
            r == self.size_view(),
    {
        (self.screen_width, self.screen_height)
    }

    /// The stored grid value of cell `(col, row)`, or `None` before the first capture
    /// has completed. (Which cell a screen point lies in is the caller's float geometry.)
    pub fn sample_cell(&self, col: usize, row: usize) -> (r: Option<u8>)
        requires
            col < GRID_COLS,
            row < GRID_ROWS,
        ensures
            (self.grid_view().len() == 0 || self.size_view().0 == 0 || self.size_view().1 == 0) ==> r is None,
            !(self.grid_view().len() == 0 || self.size_view().0 == 0 || self.size_view().1 == 0) ==> r == (
            if row * 24 + col < self.grid_view().len() {
                Some(self.grid_view()[row * 24 + col])
            } else {
                None
            }),
    {
        if self.grid.len() == 0 || self.screen_width == 0 || self.screen_height == 0 {
            return None;
        }
        let i = row * GRID_COLS + col;
        if i < self.grid.len() {
            Some(self.grid[i])
        } else {
            None
        }
    }

    /// Rebuilds the grid from one freshly captured frame: each cell becomes the average
    /// Rec. 601 luma of the source pixels that fall into it. A zero width, height or
    /// stride leaves the map as it was.
    pub fn update(&mut self, bytes: &[u8], width: u32, height: u32, stride: u32)
        requires
            (width == 0 || height == 0 || stride == 0) || update_fits(
                bytes@.len(),
                width as nat,
                height as nat,
                stride as nat,
                bytes@,
            ),
        ensures
            (width == 0 || height == 0 || stride == 0) ==> *final(self) == *old(self),
            !(width == 0 || height == 0 || stride == 0) ==> {
                let n = rows_read(bytes@.len(), width as nat, height as nat, stride as nat) * (width as nat);
                &&& final(self).size_view() == (width, height)
                &&& final(self).grid_view().len() == 384
                &&& forall|c: int| 0 <= c < 384 ==> #[trigger] final(self).grid_view()[c]
                    == cell_value(bytes@, width as nat, height as nat, stride as nat, c as nat, n)
                &&& forall|col: nat, row: nat| col < 24 && row < 16 ==> final(self).grid_view()[(row * 24 + col) as int]
                    == #[trigger] region_average(bytes@, width as nat, height as nat, stride as nat, col, row, n)
            },
    {
        if width == 0 || height == 0 || stride == 0 {
            return;
        }
        let ghost len = bytes@.len();
        let ghost w = width as nat;
        let ghost h = height as nat;
        let ghost st = stride as nat;
        let ghost rows = rows_read(len, w, h, st);
        let mut sums: Vec<u32> = Vec::new();
        let mut counts: Vec<u32> = Vec::new();
        let mut k: usize = 0;
        while k < 384
            invariant
                k <= 384,
                sums@.len() == k,
                counts@.len() == k,
                forall|c: int| 0 <= c < k ==> sums@[c] == 0 && counts@[c] == 0,
            decreases 384 - k,
        {
            sums.push(0);
            counts.push(0);
            k = k + 1;
        }
        proof {
            assert forall|c: nat| c < 384 implies sums@[c as int] == cell_sum(bytes@, w, h, st, c, 0)
                && counts@[c as int] == cell_count(w, h, c, 0) by {}
        }
        let len_u64 = bytes.len() as u64;
        let w64 = width as u64;
        let mut y: u32 = 0;
        while y < height
            invariant
                0 < w,
                0 < h,
                0 < st,
                w == width,
                h == height,
                st == stride,
                len == bytes@.len(),
                len_u64 == len,
                w64 == width,
                rows == rows_read(len, w, h, st),
                update_fits(len, w, h, st, bytes@),
                y <= height,
                y <= rows,
                sums@.len() == 384,
                counts@.len() == 384,
                forall|c: nat| c < 384 ==> #[trigger] sums@[c as int] == cell_sum(bytes@, w, h, st, c, (y as nat) * w),
                forall|c: nat| c < 384 ==> #[trigger] counts@[c as int] == cell_count(w, h, c, (y as nat) * w),
                len <= usize::MAX,
            ensures
                y == rows,
                sums@.len() == 384,
                counts@.len() == 384,
                forall|c: nat| c < 384 ==> #[trigger] sums@[c as int] == cell_sum(bytes@, w, h, st, c, (y as nat) * w),
                forall|c: nat| c < 384 ==> #[trigger] counts@[c as int] == cell_count(w, h, c, (y as nat) * w),
            decreases height - y,
        {
            proof {
                lemma_rows_read(len, w, h, st, y as nat);
            }
            let row_start = y as u64 * stride as u64;
            if row_start + w64 * 4 > len_u64 {
                proof {
                    assert(!row_fits(len, w, st, y as nat));
                }
                break;
            }
            let cell_row_raw = (y as u64 * 16) / height as u64;
            let cell_row = if cell_row_raw < 15 { cell_row_raw } else { 15 };
            let mut x: u32 = 0;
            while x < width
                invariant
                    0 < w,
                    0 < h,
                    0 < st,
                    w == width,
                    h == height,
                    st == stride,
                    len == bytes@.len(),
                    w64 == width,
                    rows == rows_read(len, w, h, st),
                    update_fits(len, w, h, st, bytes@),
                    y < height,
                    y < rows,
                    row_start == (y as nat) * st,
                    row_start + w * 4 <= len,
                    cell_row == (if ((y as nat) * 16) / h < 15 { ((y as nat) * 16) / h } else { 15 }),
                    len <= usize::MAX,
                    x <= width,
                    sums@.len() == 384,
                    counts@.len() == 384,
                    forall|c: nat| c < 384 ==> #[trigger] sums@[c as int] == cell_sum(bytes@, w, h, st, c, (y as nat) * w + (x as nat)),
                    forall|c: nat| c < 384 ==> #[trigger] counts@[c as int] == cell_count(w, h, c, (y as nat) * w + (x as nat)),
                decreases width - x,
            {
                assert(row_start + (x as u64) * 4 + 4 <= len);
                let px = (row_start + x as u64 * 4) as usize;
                let b = bytes[px] as u32;
                let g = bytes[px + 1] as u32;
                let r = bytes[px + 2] as u32;
                let luma = (r * 299 + g * 587 + b * 114) / 1000;
                let cell_col_raw = (x as u64 * 24) / width as u64;
                let cell_col = if cell_col_raw < 23 { cell_col_raw } else { 23 };
                let idx = (cell_row * 24 + cell_col) as usize;
                let ghost p: nat = (y as nat) * w + (x as nat);
                let ghost x_old: nat = x as nat;
                proof {
                    assert(p + 1 <= rows * w) by (nonlinear_arith)
                        requires p == (y as nat) * w + x_old, (y as nat) < rows, x_old < w;
                    lemma_pixel_coords(w, y as nat, x as nat);
                    assert(idx == cell_of(w, h, x as nat, y as nat));
                    assert(luma == luma_at(bytes@, st, x as nat, y as nat));
                    lemma_cell_sum_bound(bytes@, w, h, st, idx as nat, p + 1, rows * w);
                    lemma_cell_count_bound(w, h, idx as nat, p + 1, rows * w);
                    assert(cell_sum(bytes@, w, h, st, idx as nat, p + 1) == sums@[idx as int] + luma);
                    assert(cell_count(w, h, idx as nat, p + 1) == counts@[idx as int] + 1);
                }
                let s = sums[idx] + luma;
                sums.set(idx, s);
                let cnt = counts[idx] + 1;
                counts.set(idx, cnt);
                x = x + 1;
                proof {
                    assert forall|c: nat| c < 384 implies #[trigger] sums@[c as int] == cell_sum(bytes@, w, h, st, c, (y as nat) * w + (x as nat))
                        && counts@[c as int] == cell_count(w, h, c, (y as nat) * w + (x as nat)) by {
                        assert((y as nat) * w + (x as nat) == p + 1);
                    }
                }
            }
            proof {
                assert((y as nat) * w + w == ((y + 1) as nat) * w) by (nonlinear_arith);
            }
            y = y + 1;
        }
        let mut grid: Vec<u8> = Vec::new();
        let mut c: usize = 0;
        while c < 384
            invariant
                c <= 384,
                grid@.len() == c,
                sums@.len() == 384,
                counts@.len() == 384,
                forall|d: nat| d < 384 ==> #[trigger] sums@[d as int] == cell_sum(bytes@, w, h, st, d, rows * w),
                forall|d: nat| d < 384 ==> #[trigger] counts@[d as int] == cell_count(w, h, d, rows * w),
                forall|d: int| 0 <= d < c ==> #[trigger] grid@[d] == cell_value(bytes@, w, h, st, d as nat, rows * w),
            decreases 384 - c,
        {
            let sum = sums[c];
            let count = counts[c];
            let v: u8 = if count > 0 {
                let avg = sum / count;
                if avg < 255 { avg as u8 } else { 255 }
            } else {
                0
            };
            proof {
                assert(sum == cell_sum(bytes@, w, h, st, c as nat, rows * w));
                assert(count == cell_count(w, h, c as nat, rows * w));
            }
            grid.push(v);
            c = c + 1;
        }
        proof {
            assert forall|col: nat, row: nat| col < 24 && row < 16 implies grid@[(row * 24 + col) as int]
                == #[trigger] region_average(bytes@, w, h, st, col, row, rows * w) by {
                lemma_grid_entry_is_region_average(bytes@, w, h, st, col, row, rows * w);
                assert(row * 24 + col < 384);
            }
        }
        self.grid = grid;
        self.screen_width = width;
        self.screen_height = height;
    }
}

/// What `to_rgba` needs of a frame for its own arithmetic: the output size fits in
/// memory, and the byte offsets it computes in `u32` fit in `u32`.
pub open spec fn to_rgba_fits(len: nat, width: nat, height: nat, stride: nat) -> bool {
    let rows = rows_read(len, width, height, stride);
    &&& width * height * 4 <= usize::MAX
    &&& height > 0 ==> (if rows < height { rows } else { (height - 1) as nat }) * stride <= u32::MAX
    &&& rows > 0 && width > 0 ==> (rows * width - 1) * 4 <= u32::MAX
}

/// Byte `i` of an opaque black RGBA buffer: 0 for red, green and blue, 255 for alpha.
pub open spec fn black_byte(i: nat) -> u8 {
    if i % 4 == 3 {
        255
    } else {
        0
    }
}

/// The byte `to_rgba` writes at output offset `i` (pixel `i / 4`, channel `i % 4`): for a
/// row that fits, the source's red, green and blue swapped into RGBA order with an opaque
/// alpha; for a row past the end of the buffer, opaque black.
pub open spec fn rgba_byte(bytes: Seq<u8>, width: nat, height: nat, stride: nat, i: nat) -> u8 {
    let pixel = i / 4;
    let k = i % 4;
    let x = pixel % width;
    let y = pixel / width;
    if y < rows_read(bytes.len(), width, height, stride) {
        let src = y * stride + x * 4;
        if k == 0 {
            bytes[src as int + 2]
        } else if k == 1 {
            bytes[src as int + 1]
        } else if k == 2 {
            bytes[src as int]
        } else {
            255
        }
    } else {
        black_byte(i)
    }
}

/// Converts one captured frame's raw BGRA pixels into a tightly packed, fully opaque
/// RGBA8 buffer. Rows that don't fit in a short buffer are left black.
pub fn to_rgba(bytes: &[u8], width: u32, height: u32, stride: u32) -> (out: Vec<u8>)
    requires
        to_rgba_fits(bytes@.len(), width as nat, height as nat, stride as nat),
    ensures
        out@.len() == width as nat * height as nat * 4,
        forall|i: int| 0 <= i < out@.len() ==> #[trigger] out@[i] == rgba_byte(bytes@, width as nat, height as nat, stride as nat, i as nat),
{
    let ghost len = bytes@.len();
    let ghost w = width as nat;
    let ghost h = height as nat;
    let ghost st = stride as nat;
    let ghost rows = rows_read(len, w, h, st);
    let total = (width as usize) * (height as usize) * 4;
    let mut out: Vec<u8> = Vec::new();
    let mut t: usize = 0;
    while t < total
        invariant
            t <= total,
            out@.len() == t,
            forall|i: int| 0 <= i < t ==> out@[i] == black_byte(i as nat),
        decreases total - t,
    {
        let b: u8 = if t % 4 == 3 { 255 } else { 0 };
        out.push(b);
        t = t + 1;
    }
    let len_u64 = bytes.len() as u64;
    let w64 = width as u64;
    let mut y: u32 = 0;
    while y < height
        invariant
            w == width,
            h == height,
            st == stride,
            len == bytes@.len(),
            len <= usize::MAX,
            len_u64 == len,
            w64 == width,
            rows == rows_read(len, w, h, st),
            to_rgba_fits(len, w, h, st),
            total == w * h * 4,
            out@.len() == total,
            y <= height,
            y <= rows,
            forall|i: int| 0 <= i < (y as nat) * w * 4 ==> #[trigger] out@[i] == rgba_byte(bytes@, w, h, st, i as nat),
            forall|i: int| (y as nat) * w * 4 <= i < total ==> #[trigger] out@[i] == black_byte(i as nat),
        ensures
            y == rows,
            out@.len() == total,
            forall|i: int| 0 <= i < (y as nat) * w * 4 ==> #[trigger] out@[i] == rgba_byte(bytes@, w, h, st, i as nat),
            forall|i: int| (y as nat) * w * 4 <= i < total ==> #[trigger] out@[i] == black_byte(i as nat),
        decreases height - y,
    {
        proof {
            lemma_rows_read(len, w, h, st, y as nat);
        }
        let row_start = y as u64 * stride as u64;
        if row_start + w64 * 4 > len_u64 {
            proof {
                assert(!row_fits(len, w, st, y as nat));
            }
            break;
        }
        let mut x: u32 = 0;
        while x < width
            invariant
                w == width,
                h == height,
                st == stride,
                len == bytes@.len(),
                len <= usize::MAX,
                w64 == width,
                rows == rows_read(len, w, h, st),
                to_rgba_fits(len, w, h, st),
                total == w * h * 4,
                out@.len() == total,
                y < height,
                y < rows,
                row_start == (y as nat) * st,
                row_start + w * 4 <= len,
                x <= width,
                forall|i: int| 0 <= i < ((y as nat) * w + (x as nat)) * 4 ==> #[trigger] out@[i] == rgba_byte(bytes@, w, h, st, i as nat),
                forall|i: int| ((y as nat) * w + (x as nat)) * 4 <= i < total ==> #[trigger] out@[i] == black_byte(i as nat),
            decreases width - x,
        {
            let ghost p: nat = (y as nat) * w + (x as nat);
            proof {
                assert(p + 1 <= h * w) by (nonlinear_arith)
                    requires p == (y as nat) * w + (x as nat), (y as nat) < h, (x as nat) < w;
                assert(p * 4 + 4 <= total) by (nonlinear_arith)
                    requires p + 1 <= h * w, total == w * h * 4;
                assert(p + 1 <= rows * w) by (nonlinear_arith)
                    requires p == (y as nat) * w + (x as nat), (y as nat) < rows, (x as nat) < w;
                lemma_pixel_coords(w, y as nat, x as nat);
            }
            assert(row_start + (x as u64) * 4 + 4 <= len);
            let src = (row_start + x as u64 * 4) as usize;
            let dst = (((y as u64) * w64 + x as u64) * 4) as usize;
            assert(dst == p * 4);
            out.set(dst, bytes[src + 2]);
            out.set(dst + 1, bytes[src + 1]);
            out.set(dst + 2, bytes[src]);
            out.set(dst + 3, 255);
            proof {
                vstd::arithmetic::div_mod::lemma_fundamental_div_mod_converse((p * 4 + 0) as int, 4, p as int, 0);
                vstd::arithmetic::div_mod::lemma_fundamental_div_mod_converse((p * 4 + 1) as int, 4, p as int, 1);
                vstd::arithmetic::div_mod::lemma_fundamental_div_mod_converse((p * 4 + 2) as int, 4, p as int, 2);
                vstd::arithmetic::div_mod::lemma_fundamental_div_mod_converse((p * 4 + 3) as int, 4, p as int, 3);
                assert(out@[(p * 4 + 0) as int] == rgba_byte(bytes@, w, h, st, p * 4 + 0));
                assert(out@[(p * 4 + 1) as int] == rgba_byte(bytes@, w, h, st, p * 4 + 1));
                assert(out@[(p * 4 + 2) as int] == rgba_byte(bytes@, w, h, st, p * 4 + 2));
                assert(out@[(p * 4 + 3) as int] == rgba_byte(bytes@, w, h, st, p * 4 + 3));
            }
            x = x + 1;
            proof {
                assert(((y as nat) * w + (x as nat)) * 4 == p * 4 + 4);
            }
        }
        proof {
            assert((y as nat) * w + w == ((y + 1) as nat) * w) by (nonlinear_arith);
        }
        y = y + 1;
    }
    proof {
        assert forall|i: int| 0 <= i < out@.len() implies #[trigger] out@[i] == rgba_byte(bytes@, w, h, st, i as nat) by {
            if i >= (y as nat) * w * 4 {
                let pixel = (i as nat) / 4;
                assert(pixel / w >= rows) by (nonlinear_arith)
                    requires i >= (y as nat) * w * 4, y as nat == rows, pixel == (i as nat) / 4, w > 0;
            }
        }
    }
    out
}

/// Rows are read in order until the first one that does not fit; the rows that fit are
/// exactly those before `rows_read`.
proof fn lemma_rows_read(len: nat, w: nat, h: nat, st: nat, y: nat)
    requires
        y < h,
    ensures
        row_fits(len, w, st, y) <==> y < rows_read(len, w, h, st),
{
    if w * 4 > len {
    } else if st == 0 {
    } else {
        let fit = ((len - w * 4) as nat) / st + 1;
        if y < fit {
            assert(y <= (len - w * 4) as nat / st);
            assert(y * st <= ((len - w * 4) as nat / st) * st) by (nonlinear_arith)
                requires y <= (len - w * 4) as nat / st, st > 0;
            assert(((len - w * 4) as nat / st) * st <= (len - w * 4) as nat) by (nonlinear_arith)
                requires st > 0;
        } else {
            assert(y >= (len - w * 4) as nat / st + 1);
            assert(y * st >= ((len - w * 4) as nat / st + 1) * st) by (nonlinear_arith)
                requires y >= (len - w * 4) as nat / st + 1, st > 0;
            assert(((len - w * 4) as nat / st + 1) * st > (len - w * 4) as nat) by (nonlinear_arith)
                requires st > 0;
        }
    }
}

proof fn lemma_cell_index_is_grid_cell(width: nat, height: nat, x: nat, y: nat, col: nat, row: nat)
    requires
        col < 24,
        row < 16,
    ensures
        (cell_of(width, height, x, y) == row * 24 + col) <==> in_grid_cell(width, height, x, y, col, row),
{
    let r = if (y * 16) / height < 15 { (y * 16) / height } else { 15 };
    let c = if (x * 24) / width < 23 { (x * 24) / width } else { 23 };
    assert((r * 24 + c == row * 24 + col) <==> (r == row && c == col)) by (nonlinear_arith)
        requires
            r < 16,
            c < 24,
            row < 16,
            col < 24,
    ;
}

proof fn lemma_cell_sums_are_region_sums(bytes: Seq<u8>, width: nat, height: nat, stride: nat, col: nat, row: nat, n: nat)
    requires
        col < 24,
        row < 16,
    ensures
        cell_sum(bytes, width, height, stride, row * 24 + col, n) == region_sum(bytes, width, height, stride, col, row, n),
        cell_count(width, height, row * 24 + col, n) == region_count(width, height, col, row, n),
    decreases n,
{
    if n > 0 && width > 0 {
        let p = (n - 1) as nat;
        lemma_cell_sums_are_region_sums(bytes, width, height, stride, col, row, p);
        lemma_cell_index_is_grid_cell(width, height, p % width, p / width, col, row);
    }
}

/// The grid is laid out row by row: entry `row * 24 + col` is the average luma of exactly
/// the pixels in column band `col` and row band `row` of the frame.
pub proof fn lemma_grid_entry_is_region_average(bytes: Seq<u8>, width: nat, height: nat, stride: nat, col: nat, row: nat, n: nat)
    requires
        col < 24,
        row < 16,
    ensures
        cell_value(bytes, width, height, stride, row * 24 + col, n) == region_average(bytes, width, height, stride, col, row, n),
{
    lemma_cell_sums_are_region_sums(bytes, width, height, stride, col, row, n);
}

proof fn lemma_pixel_coords(w: nat, y: nat, x: nat)
    requires
        x < w,
    ensures
        (y * w + x) % w == x,
        (y * w + x) / w == y,
{
    vstd::arithmetic::div_mod::lemma_fundamental_div_mod_converse((y * w + x) as int, w as int, y as int, x as int);
}

proof fn lemma_cell_sum_bound(bytes: Seq<u8>, w: nat, h: nat, st: nat, c: nat, n: nat, m: nat)
    requires
        n <= m,
    ensures
        cell_sum(bytes, w, h, st, c, n) <= cell_sum(bytes, w, h, st, c, m),
    decreases m - n,
{
    if n < m {
        lemma_cell_sum_bound(bytes, w, h, st, c, n, (m - 1) as nat);
    }
}

proof fn lemma_cell_count_bound(w: nat, h: nat, c: nat, n: nat, m: nat)
    requires
        n <= m,
    ensures
        cell_count(w, h, c, n) <= cell_count(w, h, c, m),
    decreases m - n,
{
    if n < m {
        lemma_cell_count_bound(w, h, c, n, (m - 1) as nat);
    }
}

} // verus!
