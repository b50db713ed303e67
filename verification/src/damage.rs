//! The persistent damage layer's tile bookkeeping.
//!
//! The screen is cut into square tiles of `TILE_SIDE` points, each with a pixmap of its
//! own. Drawing and erasing go straight into a tile's pixels, and only the tiles that
//! changed are remembered as dirty: that set decides which tiles a renderer re-uploads,
//! and `commit` forgets it once they have been.
//!
//! Everything here is in whole points. A rectangle is handed in as `PointBounds`: the
//! first and last point column and row it covers, both inclusive.

use vstd::prelude::*;

use std::collections::HashSet;
use tiny_skia::Pixmap;

use crate::pixmap::{
    clear_pixmap, height_of, new_pixmap, pixmap_bytes, pixmap_data, pixmap_height,
    pixmap_size_ok, pixmap_width, transparent, width_of,
};

verus! {

broadcast use vstd::std_specs::hash::group_hash_axioms;

/// A tile's side, in points.
pub const TILE_SIDE: u32 = 256;

/// How many tiles it takes to cover `extent` points: at least one, and a partly covered
/// tile counts.
pub open spec fn tiles_across(extent: nat) -> nat {
    if extent == 0 {
        1
    } else {
        (extent + 255) / 256
    }
}

/// A rectangle in whole points: it covers point columns `left..=right` and point rows
/// `top..=bottom`. Empty when `right < left` or `bottom < top`.
#[derive(Clone, Copy, Debug, PartialEq, Eq, Structural)]
pub struct PointBounds {
    pub left: i64,
    pub top: i64,
    pub right: i64,
    pub bottom: i64,
}

/// Whether tile `index` of a grid `cols` tiles wide shares a point with `b`. Tile
/// `(col, row)` covers point columns `256·col ..= 256·col + 255`, and the same for rows.
pub open spec fn tile_meets(b: PointBounds, cols: nat, index: nat) -> bool {
    let col = (index % cols) as int;
    let row = (index / cols) as int;
    &&& col * 256 <= b.right
    &&& b.left <= col * 256 + 255
    &&& row * 256 <= b.bottom
    &&& b.top <= row * 256 + 255
}

/// The first tile (along one axis) at or after point `edge`, clamped at zero.
pub open spec fn first_tile(edge: int) -> int {
    if edge < 0 {
        0
    } else {
        edge / 256
    }
}

/// The tile holding point `edge`, clamped to the last of `count` tiles.
pub open spec fn last_tile(edge: int, count: nat) -> int {
    if edge / 256 < count - 1 {
        edge / 256
    } else {
        count - 1
    }
}

/// Whether tile `index` lies in columns `c0..=c1` and rows `r0..=r1` of a grid `cols`
/// tiles wide.
pub open spec fn in_span(cols: nat, c0: int, c1: int, r0: int, r1: int, index: nat) -> bool {
    &&& c0 <= index % cols <= c1
    &&& r0 <= index / cols <= r1
}

/// Whether tile `index` comes before tile `(col, row)` in row-major order.
pub open spec fn before_cell(cols: nat, col: int, row: int, index: nat) -> bool {
    ||| (index / cols) < row
    ||| (index / cols) == row && (index % cols) < col
}

/// For bounds reaching into the non-negative quadrant, meeting the bounds is lying in
/// the clamped column and row span.
proof fn lemma_meets_is_span(b: PointBounds, cols: nat, rows: nat, index: nat)
    requires
        cols >= 1,
        rows >= 1,
        index < cols * rows,
        b.right >= 0,
        b.bottom >= 0,
    ensures
        tile_meets(b, cols, index) <==> in_span(
            cols,
            first_tile(b.left as int),
            last_tile(b.right as int, cols),
            first_tile(b.top as int),
            last_tile(b.bottom as int, rows),
            index,
        ),
{
    assert(index / cols < rows) by (nonlinear_arith)
        requires
            index < cols * rows,
            cols >= 1,
    ;
    assert(index % cols < cols) by (nonlinear_arith)
        requires
            cols >= 1,
    ;
}

/// Row-major cell `(col, row)` is tile `row · cols + col`.
proof fn lemma_cell_index(cols: nat, col: nat, row: nat)
    requires
        col < cols,
    ensures
        (row * cols + col) / cols == row,
        (row * cols + col) % cols == col,
{
    vstd::arithmetic::div_mod::lemma_fundamental_div_mod_converse(
        (row * cols + col) as int,
        cols as int,
        row as int,
        col as int,
    );
}

/// Every tile is `row · cols + col` of its own row and column.
proof fn lemma_index_cell(cols: nat, index: nat)
    requires
        cols >= 1,
    ensures
        index == (index / cols) * cols + index % cols,
{
    vstd::arithmetic::div_mod::lemma_fundamental_div_mod(index as int, cols as int);
    vstd::arithmetic::mul::lemma_mul_is_commutative(cols as int, (index / cols) as int);
}

/// The first `n` tile indices are `n` of them.
proof fn lemma_first_indices_len(n: nat)
    requires
        n <= usize::MAX,
    ensures
        Set::new(|i: usize| i < n).finite(),
        Set::new(|i: usize| i < n).len() == n,
    decreases n,
{
    if n == 0 {
        assert(Set::new(|i: usize| i < n) =~= Set::<usize>::empty());
    } else {
        let m = (n - 1) as nat;
        lemma_first_indices_len(m);
        assert(Set::new(|i: usize| i < n) =~= Set::new(|i: usize| i < m).insert(m as usize));
    }
}

/// The damage layer: a `cols × rows` grid of tile pixmaps, row-major, and the set of
/// tiles changed since the last `commit`.
pub struct DamageLayer {
    cols: usize,
    rows: usize,
    tiles: Vec<Pixmap>,
    dirty: HashSet<usize>,
}

impl DamageLayer {
    /// Tiles per row.
    pub closed spec fn cols(&self) -> nat {
        self.cols as nat
    }

    /// Tiles per column.
    pub closed spec fn rows(&self) -> nat {
        self.rows as nat
    }

    /// The tile pixmaps, row-major: tile `(col, row)` is at `row · cols + col`.
    pub closed spec fn tiles(&self) -> Seq<Pixmap> {
        self.tiles@
    }

    /// The indices of the tiles changed since the last `commit`.
    pub closed spec fn dirty(&self) -> Set<usize> {
        self.dirty@
    }

    /// At least one tile each way, one pixmap per tile, and only real tiles dirty.
    pub open spec fn wf(&self) -> bool {
        &&& self.cols() >= 1
        &&& self.rows() >= 1
        &&& self.tiles().len() == self.cols() * self.rows()
        &&& forall|i: usize| #[trigger] self.dirty().contains(i) ==> i < self.tiles().len()
    }

    /// Every tile index of the layer.
    pub open spec fn all_tiles(&self) -> Set<usize> {
        Set::new(|i: usize| i < self.tiles().len())
    }

    /// A layer covering `width_pts × height_pts` points, every tile a transparent
    /// `tile_px × tile_px` pixmap (the tile side times the screen's pixel density), and
    /// nothing dirty.
    pub fn new(width_pts: u32, height_pts: u32, tile_px: u32) -> (layer: Self)
        requires
            pixmap_size_ok(tile_px as nat, tile_px as nat),
            tiles_across(width_pts as nat) * tiles_across(height_pts as nat) <= usize::MAX,
        ensures
            layer.wf(),
            layer.cols() == tiles_across(width_pts as nat),
            layer.rows() == tiles_across(height_pts as nat),
            layer.dirty() == Set::<usize>::empty(),
            forall|i: int|
                0 <= i < layer.tiles().len() ==> {
                    &&& pixmap_width(#[trigger] layer.tiles()[i]) == tile_px
                    &&& pixmap_height(layer.tiles()[i]) == tile_px
                    &&& pixmap_data(layer.tiles()[i]) == transparent(
                        tile_px as nat * tile_px as nat * 4,
                    )
                },
    {
        let cols: usize = if width_pts == 0 {
            1
        } else {
            ((width_pts as u64 + 255) / 256) as usize
        };
        let rows: usize = if height_pts == 0 {
            1
        } else {
            ((height_pts as u64 + 255) / 256) as usize
        };
        let count: usize = cols * rows;
        let mut tiles: Vec<Pixmap> = Vec::new();
        while tiles.len() < count
            invariant
                pixmap_size_ok(tile_px as nat, tile_px as nat),
                tiles.len() <= count,
                forall|i: int|
                    0 <= i < tiles.len() ==> {
                        &&& pixmap_width(#[trigger] tiles@[i]) == tile_px
                        &&& pixmap_height(tiles@[i]) == tile_px
                        &&& pixmap_data(tiles@[i]) == transparent(
                            tile_px as nat * tile_px as nat * 4,
                        )
                    },
            decreases count - tiles.len(),
        {
            let tile = new_pixmap(tile_px, tile_px);
            tiles.push(tile);
        }
        DamageLayer { cols, rows, tiles, dirty: HashSet::new() }
    }

    /// `(cols, rows)`.
    pub fn grid_size(&self) -> (r: (usize, usize))
        ensures
            r.0 == self.cols(),
            r.1 == self.rows(),
    {
        (self.cols, self.rows)
    }

    /// The number of tiles.
    pub fn tile_count(&self) -> (n: usize)
        ensures
            n == self.tiles().len(),
    {
        self.tiles.len()
    }

    /// The number of tiles changed since the last `commit`.
    pub fn dirty_count(&self) -> (n: usize)
        ensures
            n == self.dirty().len(),
    {
        self.dirty.len()
    }

    /// Whether tile `index` changed since the last `commit`.
    pub fn is_dirty(&self, index: usize) -> (d: bool)
        ensures
            d == self.dirty().contains(index),
    {
        self.dirty.contains(&index)
    }

    /// The indices of every tile changed since the last `commit`, in ascending order:
    /// what a renderer hands to `tile_pixels` this frame.
    pub fn dirty_indices(&self) -> (out: Vec<usize>)
        requires
            self.wf(),
        ensures
            forall|i: usize| out@.contains(i) <==> self.dirty().contains(i),
            forall|a: int, b: int| 0 <= a < b < out.len() ==> out@[a] < out@[b],
    {
        let n = self.tiles.len();
        let mut out: Vec<usize> = Vec::new();
        let mut i: usize = 0;
        while i < n
            invariant
                self.wf(),
                n == self.tiles().len(),
                i <= n,
                forall|j: usize| out@.contains(j) <==> (j < i && self.dirty().contains(j)),
                forall|a: int, b: int| 0 <= a < b < out.len() ==> out@[a] < out@[b],
                forall|a: int| 0 <= a < out.len() ==> out@[a] < i,
            decreases n - i,
        {
            if self.dirty.contains(&i) {
                let ghost prev = out@;
                out.push(i);
                assert(out@ == prev.push(i));
                assert forall|j: usize| out@.contains(j) <==> (j < i + 1 && self.dirty().contains(j)) by {
                    if out@.contains(j) && j != i {
                        let a = out@.index_of(j);
                        assert(prev[a] == j);
                    }
                    if j == i {
                        assert(out@[out.len() - 1] == i);
                    }
                    if j < i && self.dirty().contains(j) {
                        let a = prev.index_of(j);
                        assert(out@[a] == j);
                    }
                }
            } else {
                assert forall|j: usize| out@.contains(j) <==> (j < i + 1 && self.dirty().contains(j)) by {}
            }
            i = i + 1;
        }
        out
    }

    /// The `(col, row)` of tile `index`: its top-left corner is at
    /// `(col · TILE_SIDE, row · TILE_SIDE)` points.
    pub fn tile_cell(&self, index: usize) -> (cell: (usize, usize))
        requires
            self.wf(),
        ensures
            cell.0 == index as nat % self.cols(),
            cell.1 == index as nat / self.cols(),
    {
        (index % self.cols, index / self.cols)
    }

    /// The indices of the tiles that rectangle `b` overlaps, row by row and left to
    /// right within a row; none for a rectangle wholly off the grid.
    pub fn tile_indices_intersecting(&self, b: PointBounds) -> (out: Vec<usize>)
        requires
            self.wf(),
        ensures
            forall|i: usize|
                out@.contains(i) <==> (i < self.tiles().len() && tile_meets(b, self.cols(), i as nat)),
            forall|x: int, y: int| 0 <= x < y < out.len() ==> out@[x] < out@[y],
    {
        let cols = self.cols;
        let rows = self.rows;
        let total = self.tiles.len();
        if b.right < 0 || b.bottom < 0 {
            proof {
                assert forall|i: usize| i < total implies !tile_meets(b, cols as nat, i as nat) by {
                    assert(i as nat % cols as nat >= 0);
                    assert(i as nat / cols as nat >= 0) by (nonlinear_arith)
                        requires
                            cols >= 1,
                    ;
                }
            }
            return Vec::new();
        }
        let right_col: u64 = (b.right / 256) as u64;
        let c1: usize = if right_col < (cols - 1) as u64 {
            right_col as usize
        } else {
            cols - 1
        };
        let bottom_row: u64 = (b.bottom / 256) as u64;
        let r1: usize = if bottom_row < (rows - 1) as u64 {
            bottom_row as usize
        } else {
            rows - 1
        };
        let left_col: u64 = if b.left < 0 {
            0
        } else {
            (b.left / 256) as u64
        };
        let top_row: u64 = if b.top < 0 {
            0
        } else {
            (b.top / 256) as u64
        };
        let ghost c0s = first_tile(b.left as int);
        let ghost c1s = last_tile(b.right as int, cols as nat);
        let ghost r0s = first_tile(b.top as int);
        let ghost r1s = last_tile(b.bottom as int, rows as nat);
        assert(c1 == c1s && r1 == r1s && left_col == c0s && top_row == r0s);
        proof {
            assert forall|i: usize| i < total implies (tile_meets(b, cols as nat, i as nat) <==> in_span(
                cols as nat,
                c0s,
                c1s,
                r0s,
                r1s,
                i as nat,
            )) by {
                lemma_meets_is_span(b, cols as nat, rows as nat, i as nat);
            }
        }
        if left_col > c1 as u64 || top_row > r1 as u64 {
            return Vec::new();
        }
        let c0: usize = left_col as usize;
        let r0: usize = top_row as usize;
        let mut out: Vec<usize> = Vec::new();
        let mut r: usize = r0;
        while r <= r1
            invariant
                self.wf(),
                cols == self.cols(),
                rows == self.rows(),
                total == self.tiles().len(),
                total == cols * rows,
                c0 <= c1 < cols,
                r0 <= r1 < rows,
                r0 <= r <= r1 + 1,
                forall|i: usize|
                    out@.contains(i) <==> (i < total && in_span(cols as nat, c0 as int, c1 as int, r0 as int, r1 as int, i as nat)
                        && before_cell(cols as nat, c0 as int, r as int, i as nat)),
                forall|x: int, y: int| 0 <= x < y < out.len() ==> out@[x] < out@[y],
                forall|x: int| 0 <= x < out.len() ==> out@[x] < r * cols,
            decreases r1 + 1 - r,
        {
            let mut c: usize = c0;
            while c <= c1
                invariant
                    self.wf(),
                    cols == self.cols(),
                    rows == self.rows(),
                    total == self.tiles().len(),
                    total == cols * rows,
                    c0 <= c1 < cols,
                    r0 <= r <= r1 < rows,
                    c0 <= c <= c1 + 1,
                    forall|i: usize|
                        out@.contains(i) <==> (i < total && in_span(cols as nat, c0 as int, c1 as int, r0 as int, r1 as int, i as nat)
                            && before_cell(cols as nat, c as int, r as int, i as nat)),
                    forall|x: int, y: int| 0 <= x < y < out.len() ==> out@[x] < out@[y],
                    forall|x: int| 0 <= x < out.len() ==> out@[x] < r * cols + c,
                decreases c1 + 1 - c,
            {
                assert(r * cols + c < cols * rows) by (nonlinear_arith)
                    requires
                        r < rows,
                        c < cols,
                ;
                let idx: usize = r * cols + c;
                proof {
                    lemma_cell_index(cols as nat, c as nat, r as nat);
                }
                let ghost prev = out@;
                out.push(idx);
                assert(out@ == prev.push(idx));
                assert forall|i: usize|
                    out@.contains(i) <==> (i < total && in_span(cols as nat, c0 as int, c1 as int, r0 as int, r1 as int, i as nat)
                        && before_cell(cols as nat, c + 1, r as int, i as nat)) by {
                    lemma_index_cell(cols as nat, i as nat);
                    if out@.contains(i) && i != idx {
                        let a = out@.index_of(i);
                        assert(prev[a] == i);
                    }
                    if i == idx {
                        assert(out@[out.len() - 1] == idx);
                    }
                    if prev.contains(i) {
                        let a = prev.index_of(i);
                        assert(out@[a] == i);
                    }
                }
                c = c + 1;
            }
            assert(r * cols + c1 + 1 <= (r + 1) * cols) by (nonlinear_arith)
                requires
                    c1 < cols,
            ;
            r = r + 1;
        }
        out
    }

    /// Tile `index`'s premultiplied-RGBA bytes with its pixel width and height, ready to
    /// upload as a texture; `None` past the last tile. Leaves the dirty set alone: call
    /// `commit` once every dirty tile has actually been uploaded.
    pub fn tile_pixels(&self, index: usize) -> (r: Option<(&[u8], u32, u32)>)
        ensures
            r.is_some() <==> index < self.tiles().len(),
            r matches Some((d, w, h)) ==> {
                &&& d@ == pixmap_data(self.tiles()[index as int])
                &&& w == pixmap_width(self.tiles()[index as int])
                &&& h == pixmap_height(self.tiles()[index as int])
            },
    {
        if index < self.tiles.len() {
            let tile = &self.tiles[index];
            Some((pixmap_bytes(tile), width_of(tile), height_of(tile)))
        } else {
            None
        }
    }

    /// Tile `index`'s pixmap, handed out to be drawn into, and the tile marked dirty.
    pub fn draw_target(&mut self, index: usize) -> (tile: &mut Pixmap)
        requires
            old(self).wf(),
            index < old(self).tiles().len(),
        ensures
            *tile == old(self).tiles()[index as int],
            final(self).cols() == old(self).cols(),
            final(self).rows() == old(self).rows(),
            final(self).tiles() == old(self).tiles().update(index as int, *final(tile)),
            final(self).dirty() == old(self).dirty().insert(index),
            final(self).wf(),
    {
        self.dirty.insert(index);
        assert forall|i: usize| self.dirty().contains(i) implies i < self.tiles().len() by {
            if i != index {
                assert(old(self).dirty().contains(i));
            }
        }
        &mut self.tiles[index]
    }

    /// Marks tile `index` dirty without touching its pixels.
    pub fn mark_dirty(&mut self, index: usize)
        requires
            old(self).wf(),
            index < old(self).tiles().len(),
        ensures
            final(self).cols() == old(self).cols(),
            final(self).rows() == old(self).rows(),
            final(self).tiles() == old(self).tiles(),
            final(self).dirty() == old(self).dirty().insert(index),
            final(self).wf(),
    {
        self.dirty.insert(index);
        assert forall|i: usize| self.dirty().contains(i) implies i < self.tiles().len() by {
            if i != index {
                assert(old(self).dirty().contains(i));
            }
        }
    }

    /// Erases every tile to transparent and marks them all dirty.
    pub fn erase_all(&mut self)
        requires
            old(self).wf(),
        ensures
            final(self).wf(),
            final(self).cols() == old(self).cols(),
            final(self).rows() == old(self).rows(),
            final(self).tiles().len() == old(self).tiles().len(),
            forall|i: int|
                0 <= i < final(self).tiles().len() ==> {
                    &&& pixmap_width(#[trigger] final(self).tiles()[i]) == pixmap_width(
                        old(self).tiles()[i],
                    )
                    &&& pixmap_height(final(self).tiles()[i]) == pixmap_height(old(self).tiles()[i])
                    &&& pixmap_data(final(self).tiles()[i]) == transparent(
                        pixmap_data(old(self).tiles()[i]).len(),
                    )
                },
            final(self).dirty() == old(self).all_tiles(),
            final(self).dirty().len() == final(self).tiles().len(),
    {
        let n = self.tiles.len();
        let ghost start = *self;
        let mut i: usize = 0;
        while i < n
            invariant
                start.wf(),
                n == start.tiles().len(),
                i <= n,
                self.cols == start.cols,
                self.rows == start.rows,
                self.tiles@.len() == n,
                forall|j: int|
                    0 <= j < i ==> {
                        &&& pixmap_width(#[trigger] self.tiles@[j]) == pixmap_width(start.tiles@[j])
                        &&& pixmap_height(self.tiles@[j]) == pixmap_height(start.tiles@[j])
                        &&& pixmap_data(self.tiles@[j]) == transparent(
                            pixmap_data(start.tiles@[j]).len(),
                        )
                    },
                forall|j: int| i <= j < n ==> self.tiles@[j] == start.tiles@[j],
                self.dirty@ == start.dirty@.union(Set::new(|j: usize| j < i)),
            decreases n - i,
        {
            clear_pixmap(&mut self.tiles[i]);
            let ghost before = self.dirty@;
            self.dirty.insert(i);
            assert(self.dirty@ =~= start.dirty@.union(Set::new(|j: usize| j < i + 1)));
            i = i + 1;
        }
        assert forall|j: usize| start.dirty@.contains(j) implies j < n by {
            assert(start.dirty().contains(j));
        }
        assert(self.dirty@ =~= start.all_tiles());
        proof {
            lemma_first_indices_len(n as nat);
        }
    }

    /// Marks every tile dirty without touching any pixels: a fresh (or resized) layer's
    /// pixels are already right, but the textures they go to are not until the first
    /// upload.
    pub fn mark_all_dirty(&mut self)
        requires
            old(self).wf(),
        ensures
            final(self).wf(),
            final(self).cols() == old(self).cols(),
            final(self).rows() == old(self).rows(),
            final(self).tiles() == old(self).tiles(),
            final(self).dirty() == old(self).all_tiles(),
            final(self).dirty().len() == final(self).tiles().len(),
    {
        let n = self.tiles.len();
        let ghost start = *self;
        let mut i: usize = 0;
        while i < n
            invariant
                start.wf(),
                n == start.tiles().len(),
                i <= n,
                self.cols == start.cols,
                self.rows == start.rows,
                self.tiles@ == start.tiles@,
                self.dirty@ == start.dirty@.union(Set::new(|j: usize| j < i)),
            decreases n - i,
        {
            let ghost before = self.dirty@;
            self.dirty.insert(i);
            assert(self.dirty@ =~= start.dirty@.union(Set::new(|j: usize| j < i + 1)));
            i = i + 1;
        }
        assert forall|j: usize| start.dirty@.contains(j) implies j < n by {
            assert(start.dirty().contains(j));
        }
        assert(self.dirty@ =~= start.all_tiles());
        proof {
            lemma_first_indices_len(n as nat);
        }
    }

    /// Forgets the dirty set once its tiles have been uploaded, and says how many there
    /// were.
    pub fn commit(&mut self) -> (n: usize)
        requires
            old(self).wf(),
        ensures
            n == old(self).dirty().len(),
            final(self).dirty() == Set::<usize>::empty(),
            final(self).cols() == old(self).cols(),
            final(self).rows() == old(self).rows(),
            final(self).tiles() == old(self).tiles(),
            final(self).wf(),
    {
        let n = self.dirty.len();
        self.dirty.clear();
        n
    }
}

} // verus!
