//! Decomposition of a rectangle into a grid of tiles that partitions it.
//!
//! Along each axis the extent is cut by dividing what is left of it by the
//! number of tiles still to be cut, so the last tile takes the remainder.

use crate::rectangle::{lemma_position_split, Rectangle};
use vstd::arithmetic::div_mod::lemma_fundamental_div_mod_converse;
use vstd::prelude::*;

verus! {

/// The `i`-th cut when `[start, end)` is divided into `count` pieces:
/// cut 0 is `start`, and each piece takes the remaining extent divided by the
/// number of pieces that remain, rounded down.
pub open spec fn tile_edge(start: int, end: int, count: int, i: int) -> int
    decreases i,
{
    if i <= 0 {
        start
    } else {
        let prev = tile_edge(start, end, count, i - 1);
        prev + (end - prev) / (count - (i - 1))
    }
}

/// The number of tiles along an axis of the given extent: the count asked
/// for, but no more than the extent.
pub open spec fn clamped_count(requested: int, extent: int) -> int {
    if requested <= extent {
        requested
    } else {
        extent
    }
}

/// Tile `k`, in row-major order, of the grid of `nx` by `ny` tiles over `r`.
pub open spec fn grid_tile(r: Rectangle, nx: int, ny: int, k: int) -> Rectangle {
    Rectangle {
        left: tile_edge(r.left as int, r.right as int, nx, k % nx) as u32,
        top: tile_edge(r.top as int, r.bottom as int, ny, k / nx) as u32,
        right: tile_edge(r.left as int, r.right as int, nx, k % nx + 1) as u32,
        bottom: tile_edge(r.top as int, r.bottom as int, ny, k / nx + 1) as u32,
    }
}

/// Sum of the sizes of the first `n` tiles of the grid.
pub open spec fn tiles_size_sum(r: Rectangle, nx: int, ny: int, n: int) -> int
    decreases n,
{
    if n <= 0 {
        0
    } else {
        tiles_size_sum(r, nx, ny, n - 1) + grid_tile(r, nx, ny, n - 1).spec_size()
    }
}

/// One step of the cutting rule: with `rem` cells left for `k` pieces, the
/// next piece is not empty and leaves enough for the other pieces.
proof fn lemma_cut_step(rem: int, k: int)
    requires
        1 <= k <= rem,
    ensures
        1 <= rem / k <= rem,
        rem - rem / k >= k - 1,
        k == 1 ==> rem / k == rem,
{
    let q = rem / k;
    let m = rem % k;
    vstd::arithmetic::div_mod::lemma_fundamental_div_mod(rem, k);
    vstd::arithmetic::div_mod::lemma_mod_pos_bound(rem, k);
    assert(q >= 1 && q <= rem && rem - q >= k - 1) by (nonlinear_arith)
        requires
            rem == k * q + m,
            0 <= m < k,
            1 <= k <= rem,
    ;
    if k == 1 {
        assert(rem == 1 * q + m);
    }
}

/// The cuts stay within the extent, advance strictly, leave at least one cell
/// for each piece still to be cut, and the last cut is the end.
pub proof fn lemma_tile_edges(start: int, end: int, count: int, i: int)
    requires
        1 <= count <= end - start,
        0 <= i <= count,
    ensures
        start <= tile_edge(start, end, count, i) <= end,
        end - tile_edge(start, end, count, i) >= count - i,
        i == count ==> tile_edge(start, end, count, i) == end,
        i == 0 ==> tile_edge(start, end, count, i) == start,
        i > 0 ==> tile_edge(start, end, count, i - 1) < tile_edge(start, end, count, i),
    decreases i,
{
    if i > 0 {
        lemma_tile_edges(start, end, count, i - 1);
        let prev = tile_edge(start, end, count, i - 1);
        lemma_cut_step(end - prev, count - (i - 1));
    }
}

/// The cuts are increasing.
pub proof fn lemma_tile_edges_monotone(start: int, end: int, count: int, i: int, j: int)
    requires
        1 <= count <= end - start,
        0 <= i <= j <= count,
    ensures
        tile_edge(start, end, count, i) <= tile_edge(start, end, count, j),
        i < j ==> tile_edge(start, end, count, i + 1) <= tile_edge(start, end, count, j),
    decreases j - i,
{
    if i < j {
        lemma_tile_edges(start, end, count, j);
        lemma_tile_edges_monotone(start, end, count, i, j - 1);
        if i < j - 1 {
        } else {
            assert(i + 1 == j);
        }
    }
}

/// Every coordinate of the extent falls into exactly one piece; the result is
/// that piece's number.
pub proof fn lemma_tile_edge_slot(start: int, end: int, count: int, x: int, below: int) -> (i: int)
    requires
        1 <= count <= end - start,
        0 < below <= count,
        start <= x < tile_edge(start, end, count, below),
    ensures
        0 <= i < below,
        tile_edge(start, end, count, i) <= x < tile_edge(start, end, count, i + 1),
    decreases below,
{
    if x >= tile_edge(start, end, count, below - 1) {
        below - 1
    } else {
        assert(below - 1 > 0);
        lemma_tile_edge_slot(start, end, count, x, below - 1)
    }
}

/// Row and column of tile `k` in a grid with `nx` columns and `ny` rows.
pub proof fn lemma_grid_position(nx: int, ny: int, k: int)
    requires
        0 <= k < nx * ny,
        0 <= nx,
    ensures
        0 <= k % nx < nx,
        0 <= k / nx < ny,
        (k / nx) * nx + k % nx == k,
{
    lemma_position_split(k, nx, ny);
}

/// Each tile of the grid is a well-formed, non-empty rectangle inside `r`,
/// bounded by consecutive cuts.
pub proof fn lemma_grid_tile_inside(r: Rectangle, nx: int, ny: int, k: int)
    requires
        r.wf(),
        1 <= nx <= r.spec_width(),
        1 <= ny <= r.spec_height(),
        0 <= k < nx * ny,
    ensures
        grid_tile(r, nx, ny, k).wf(),
        !grid_tile(r, nx, ny, k).spec_is_empty(),
        r.left <= grid_tile(r, nx, ny, k).left,
        grid_tile(r, nx, ny, k).right <= r.right,
        r.top <= grid_tile(r, nx, ny, k).top,
        grid_tile(r, nx, ny, k).bottom <= r.bottom,
        grid_tile(r, nx, ny, k).left == tile_edge(r.left as int, r.right as int, nx, k % nx),
        grid_tile(r, nx, ny, k).right == tile_edge(r.left as int, r.right as int, nx, k % nx + 1),
        grid_tile(r, nx, ny, k).top == tile_edge(r.top as int, r.bottom as int, ny, k / nx),
        grid_tile(r, nx, ny, k).bottom == tile_edge(r.top as int, r.bottom as int, ny, k / nx + 1),
{
    lemma_grid_position(nx, ny, k);
    let i = k % nx;
    let j = k / nx;
    lemma_tile_edges(r.left as int, r.right as int, nx, i);
    lemma_tile_edges(r.left as int, r.right as int, nx, i + 1);
    lemma_tile_edges(r.top as int, r.bottom as int, ny, j);
    lemma_tile_edges(r.top as int, r.bottom as int, ny, j + 1);
}

/// No gaps: every cell of `r` lies in some tile of the grid. The result is
/// the number of such a tile.
pub proof fn lemma_grid_covers(r: Rectangle, nx: int, ny: int, x: int, y: int) -> (k: int)
    requires
        r.wf(),
        1 <= nx <= r.spec_width(),
        1 <= ny <= r.spec_height(),
        r.spec_contains(x, y),
    ensures
        0 <= k < nx * ny,
        grid_tile(r, nx, ny, k).spec_contains(x, y),
{
    lemma_tile_edges(r.left as int, r.right as int, nx, nx);
    lemma_tile_edges(r.top as int, r.bottom as int, ny, ny);
    let i = lemma_tile_edge_slot(r.left as int, r.right as int, nx, x, nx);
    let j = lemma_tile_edge_slot(r.top as int, r.bottom as int, ny, y, ny);
    let k = j * nx + i;
    lemma_fundamental_div_mod_converse(k, nx, j, i);
    assert(0 <= j * nx + i < nx * ny) by (nonlinear_arith)
        requires
            0 <= i < nx,
            0 <= j < ny,
    ;
    lemma_grid_tile_inside(r, nx, ny, k);
    k
}

/// No overlaps: two different tiles of the grid share no cell.
pub proof fn lemma_grid_disjoint(r: Rectangle, nx: int, ny: int, k1: int, k2: int, x: int, y: int)
    requires
        r.wf(),
        1 <= nx <= r.spec_width(),
        1 <= ny <= r.spec_height(),
        0 <= k1 < nx * ny,
        0 <= k2 < nx * ny,
        grid_tile(r, nx, ny, k1).spec_contains(x, y),
        grid_tile(r, nx, ny, k2).spec_contains(x, y),
    ensures
        k1 == k2,
{
    lemma_grid_tile_inside(r, nx, ny, k1);
    lemma_grid_tile_inside(r, nx, ny, k2);
    lemma_grid_position(nx, ny, k1);
    lemma_grid_position(nx, ny, k2);
    let i1 = k1 % nx;
    let i2 = k2 % nx;
    let j1 = k1 / nx;
    let j2 = k2 / nx;
    if i1 < i2 {
        lemma_tile_edges_monotone(r.left as int, r.right as int, nx, i1, i2);
    }
    if i2 < i1 {
        lemma_tile_edges_monotone(r.left as int, r.right as int, nx, i2, i1);
    }
    if j1 < j2 {
        lemma_tile_edges_monotone(r.top as int, r.bottom as int, ny, j1, j2);
    }
    if j2 < j1 {
        lemma_tile_edges_monotone(r.top as int, r.bottom as int, ny, j2, j1);
    }
    assert(i1 == i2 && j1 == j2);
}

/// The tiles of a grid over a rectangle, in row-major order. Calls of `next`
/// hand out tile 0, tile 1, ... of the grid and then `None` for ever.
#[derive(Clone, PartialEq, Eq, Debug)]
pub struct RectangleTileIterator {
    rectangle: Rectangle,
    tile_count_x: u32,
    tile_count_y: u32,
    tile_index_x: u32,
    tile_index_y: u32,
    tile_left: u32,
    tile_top: u32,
}

impl RectangleTileIterator {
    /// The rectangle that is divided.
    pub closed spec fn rectangle(self) -> Rectangle {
        self.rectangle
    }

    /// Number of columns of the grid.
    pub closed spec fn count_x(self) -> int {
        self.tile_count_x as int
    }

    /// Number of rows of the grid.
    pub closed spec fn count_y(self) -> int {
        self.tile_count_y as int
    }

    /// How many tiles have been handed out so far.
    pub closed spec fn position(self) -> int {
        self.tile_index_y * self.tile_count_x + self.tile_index_x
    }

    /// How many tiles are still to come.
    pub open spec fn remaining(self) -> int {
        self.count_x() * self.count_y() - self.position()
    }

    pub closed spec fn wf(self) -> bool {
        &&& self.rectangle.wf()
        &&& self.tile_count_x <= self.rectangle.spec_width()
        &&& self.tile_count_y <= self.rectangle.spec_height()
        &&& self.tile_count_x == 0 ==> self.tile_count_y == 0
        &&& self.tile_index_y <= self.tile_count_y
        &&& self.tile_index_y < self.tile_count_y ==> self.tile_index_x < self.tile_count_x
        &&& self.tile_index_y == self.tile_count_y ==> self.tile_index_x == 0
        &&& self.tile_left == tile_edge(
            self.rectangle.left as int,
            self.rectangle.right as int,
            self.tile_count_x as int,
            self.tile_index_x as int,
        )
        &&& self.tile_top == tile_edge(
            self.rectangle.top as int,
            self.rectangle.bottom as int,
            self.tile_count_y as int,
            self.tile_index_y as int,
        )
    }

    /// The grid has as many columns and rows as were asked for, but no more
    /// than the rectangle is wide and high; over an empty rectangle it has no
    /// tile at all.
    pub fn new(rectangle: Rectangle, tile_count_x: u32, tile_count_y: u32) -> (it:
        RectangleTileIterator)
        requires
            rectangle.wf(),
            tile_count_x > 0,
            tile_count_y > 0,
        ensures
            it.wf(),
            it.rectangle() == rectangle,
            it.count_x() == rectangle.spec_tile_count_x(tile_count_x as int),
            it.count_y() == rectangle.spec_tile_count_y(tile_count_y as int),
            it.position() == 0,
    {
        let width: u32 = rectangle.width();
        let height: u32 = rectangle.height();
        let tile_count_x: u32 = if tile_count_x <= width { tile_count_x } else { width };
        let tile_count_y: u32 = if tile_count_x == 0 {
            0
        } else if tile_count_y <= height {
            tile_count_y
        } else {
            height
        };
        proof {
            assert(0 * (tile_count_x as int) == 0);
        }
        RectangleTileIterator {
            rectangle,
            tile_count_x,
            tile_count_y,
            tile_index_x: 0,
            tile_index_y: 0,
            tile_left: rectangle.left,
            tile_top: rectangle.top,
        }
    }

    /// The position never passes the number of tiles, and the grid fits the
    /// rectangle.
    pub proof fn lemma_position_bound(self)
        requires
            self.wf(),
        ensures
            0 <= self.position() <= self.count_x() * self.count_y(),
            self.remaining() >= 0,
            0 <= self.count_x() <= self.rectangle().spec_width(),
            0 <= self.count_y() <= self.rectangle().spec_height(),
            self.count_x() == 0 ==> self.count_y() == 0,
    {
        let nx = self.tile_count_x as int;
        let ny = self.tile_count_y as int;
        let i = self.tile_index_x as int;
        let j = self.tile_index_y as int;
        assert(0 <= j * nx + i <= nx * ny) by (nonlinear_arith)
            requires
                0 <= j <= ny,
                0 <= i,
                0 <= nx,
                j < ny ==> i < nx,
                j == ny ==> i == 0,
        ;
    }

    pub fn next(&mut self) -> (r: Option<Rectangle>)
        requires
            old(self).wf(),
        ensures
            final(self).wf(),
            final(self).rectangle() == old(self).rectangle(),
            final(self).count_x() == old(self).count_x(),
            final(self).count_y() == old(self).count_y(),
            old(self).remaining() > 0 ==> r == Some(
                grid_tile(
                    old(self).rectangle(),
                    old(self).count_x(),
                    old(self).count_y(),
                    old(self).position(),
                ),
            ) && final(self).position() == old(self).position() + 1,
            old(self).remaining() > 0 ==> r.unwrap().wf() && !r.unwrap().spec_is_empty(),
            old(self).remaining() <= 0 ==> r.is_none() && *final(self) == *old(self),
    {
        proof {
            self.lemma_position_bound();
        }
        if self.tile_index_y < self.tile_count_y {
            let ghost nx = self.tile_count_x as int;
            let ghost ny = self.tile_count_y as int;
            let ghost i = self.tile_index_x as int;
            let ghost j = self.tile_index_y as int;
            let ghost rect = self.rectangle;
            proof {
                lemma_fundamental_div_mod_converse(j * nx + i, nx, j, i);
                assert(j * nx + i < nx * ny) by (nonlinear_arith)
                    requires
                        0 <= j < ny,
                        0 <= i < nx,
                ;
                lemma_tile_edges(rect.left as int, rect.right as int, nx, i);
                lemma_tile_edges(rect.left as int, rect.right as int, nx, i + 1);
                lemma_tile_edges(rect.top as int, rect.bottom as int, ny, j);
                lemma_tile_edges(rect.top as int, rect.bottom as int, ny, j + 1);
                assert((j + 1) * nx == j * nx + nx) by (nonlinear_arith);
            }
            let step_x: u32 = (self.rectangle.right - self.tile_left) / (self.tile_count_x
                - self.tile_index_x);
            let step_y: u32 = (self.rectangle.bottom - self.tile_top) / (self.tile_count_y
                - self.tile_index_y);
            let tile_right: u32 = if self.tile_left + step_x <= self.rectangle.right {
                self.tile_left + step_x
            } else {
                self.rectangle.right
            };
            let tile_bottom: u32 = if self.tile_top + step_y <= self.rectangle.bottom {
                self.tile_top + step_y
            } else {
                self.rectangle.bottom
            };

            let tile = Rectangle::new(self.tile_left, self.tile_top, tile_right, tile_bottom);

            self.tile_index_x += 1;
            self.tile_left = tile_right;
            if self.tile_index_x >= self.tile_count_x {
                self.tile_index_x = 0;
                self.tile_index_y += 1;
                self.tile_top = tile_bottom;
                self.tile_left = self.rectangle.left;
            }
            Some(tile)
        } else {
            proof {
                assert(self.tile_count_y * self.tile_count_x == self.tile_count_x
                    * self.tile_count_y) by (nonlinear_arith);
            }
            None
        }
    }

    /// The exact number of tiles still to come, as both bounds.
    pub fn size_hint(&self) -> (r: (usize, Option<usize>))
        requires
            self.wf(),
            self.remaining() <= usize::MAX,
        ensures
            r.0 == self.remaining(),
            r.1 == Some(r.0),
    {
        if self.tile_index_y < self.tile_count_y {
            let ghost nx = self.tile_count_x as int;
            let ghost ny = self.tile_count_y as int;
            let ghost i = self.tile_index_x as int;
            let ghost j = self.tile_index_y as int;
            let ghost w = self.rectangle.spec_width();
            let ghost h = self.rectangle.spec_height();
            proof {
                assert((ny - j - 1) * nx + (nx - i) == nx * ny - (j * nx + i)) by (nonlinear_arith);
                assert(0 <= (ny - j - 1) * nx <= nx * ny <= w * h) by (nonlinear_arith)
                    requires
                        0 <= j < ny,
                        0 <= nx <= w,
                        ny <= h,
                ;
                self.lemma_position_bound();
            }
            let rows_below: usize = (self.tile_count_y - self.tile_index_y - 1) as usize;
            let remaining: usize = rows_below * self.tile_count_x as usize + (self.tile_count_x
                - self.tile_index_x) as usize;
            (remaining, Some(remaining))
        } else {
            proof {
                assert(self.remaining() == 0) by (nonlinear_arith)
                    requires
                        self.remaining() == self.tile_count_x * self.tile_count_y - (
                        self.tile_index_y * self.tile_count_x + self.tile_index_x),
                        self.tile_index_y == self.tile_count_y,
                        self.tile_index_x == 0,
                ;
            }
            (0, Some(0))
        }
    }
}

/// Area of the part of `r` that the first `n` tiles of the grid fill: the
/// full rows of tiles above, and the tiles to the left in the current row.
pub open spec fn filled_area(r: Rectangle, nx: int, ny: int, n: int) -> int {
    let i = n % nx;
    let j = n / nx;
    let row_top = tile_edge(r.top as int, r.bottom as int, ny, j);
    let row_bottom = tile_edge(r.top as int, r.bottom as int, ny, j + 1);
    let column_left = tile_edge(r.left as int, r.right as int, nx, i);
    r.spec_width() * (row_top - r.top) + (column_left - r.left) * (row_bottom - row_top)
}

proof fn lemma_tiles_size_sum_is_filled_area(r: Rectangle, nx: int, ny: int, n: int)
    requires
        r.wf(),
        1 <= nx <= r.spec_width(),
        1 <= ny <= r.spec_height(),
        0 <= n <= nx * ny,
    ensures
        tiles_size_sum(r, nx, ny, n) == filled_area(r, nx, ny, n),
    decreases n,
{
    let w = r.spec_width();
    if n <= 0 {
        lemma_fundamental_div_mod_converse(0, nx, 0, 0);
        assert(w * 0 == 0);
        assert(0 * (tile_edge(r.top as int, r.bottom as int, ny, 1) - r.top) == 0);
    } else {
        let m = n - 1;
        lemma_tiles_size_sum_is_filled_area(r, nx, ny, m);
        lemma_grid_tile_inside(r, nx, ny, m);
        lemma_grid_position(nx, ny, m);
        let i = m % nx;
        let j = m / nx;
        let t = grid_tile(r, nx, ny, m);
        let row_top = tile_edge(r.top as int, r.bottom as int, ny, j);
        let row_bottom = tile_edge(r.top as int, r.bottom as int, ny, j + 1);
        let column_left = tile_edge(r.left as int, r.right as int, nx, i);
        let column_right = tile_edge(r.left as int, r.right as int, nx, i + 1);
        let dh = row_bottom - row_top;
        assert(t.spec_size() == (column_right - column_left) * dh);
        assert((column_left - r.left) * dh + (column_right - column_left) * dh == (column_right
            - r.left) * dh) by (nonlinear_arith);
        if i + 1 < nx {
            lemma_fundamental_div_mod_converse(n, nx, j, i + 1);
        } else {
            lemma_tile_edges(r.left as int, r.right as int, nx, nx);
            assert(column_right == r.right);
            assert(n == (j + 1) * nx + 0) by (nonlinear_arith)
                requires
                    n == j * nx + i + 1,
                    i + 1 == nx,
            ;
            lemma_fundamental_div_mod_converse(n, nx, j + 1, 0);
            assert(w * (row_top - r.top) + w * dh == w * (row_bottom - r.top))
                by (nonlinear_arith)
                requires
                    dh == row_bottom - row_top,
            ;
            let next_bottom = tile_edge(r.top as int, r.bottom as int, ny, j + 2);
            assert(0 * (next_bottom - row_bottom) == 0);
        }
    }
}

/// The sizes of all tiles of the grid add up to the size of `r`.
pub proof fn lemma_grid_sizes_add_up(r: Rectangle, nx: int, ny: int)
    requires
        r.wf(),
        1 <= nx <= r.spec_width(),
        1 <= ny <= r.spec_height(),
    ensures
        tiles_size_sum(r, nx, ny, nx * ny) == r.spec_size(),
{
    let n = nx * ny;
    assert(n >= 0) by (nonlinear_arith)
        requires
            n == nx * ny,
            nx >= 1,
            ny >= 1,
    ;
    lemma_tiles_size_sum_is_filled_area(r, nx, ny, n);
    assert(n == ny * nx + 0) by (nonlinear_arith)
        requires
            n == nx * ny,
    ;
    lemma_fundamental_div_mod_converse(n, nx, ny, 0);
    lemma_tile_edges(r.top as int, r.bottom as int, ny, ny);
    let past = tile_edge(r.top as int, r.bottom as int, ny, ny + 1);
    assert(0 * (past - r.bottom) == 0);
}

/// The tiles that `tile_iter` hands out for the requested counts partition
/// the rectangle: every cell of it lies in a tile, no cell lies in two
/// tiles, no tile reaches outside it, and the tiles' sizes add up to its
/// size.
pub proof fn lemma_tiling_partition(r: Rectangle, tile_count_x: int, tile_count_y: int)
    requires
        r.wf(),
        tile_count_x > 0,
        tile_count_y > 0,
    ensures
        ({
            let nx = r.spec_tile_count_x(tile_count_x);
            let ny = r.spec_tile_count_y(tile_count_y);
            &&& nx * ny >= 0
            &&& forall|x: int, y: int| #[trigger]
                r.spec_contains(x, y) ==> exists|k: int|
                    0 <= k < nx * ny && #[trigger] grid_tile(r, nx, ny, k).spec_contains(x, y)
            &&& forall|k1: int, k2: int, x: int, y: int|
                0 <= k1 < nx * ny && 0 <= k2 < nx * ny && #[trigger] grid_tile(
                    r,
                    nx,
                    ny,
                    k1,
                ).spec_contains(x, y) && #[trigger] grid_tile(r, nx, ny, k2).spec_contains(x, y)
                    ==> k1 == k2
            &&& forall|k: int, x: int, y: int|
                0 <= k < nx * ny && #[trigger] grid_tile(r, nx, ny, k).spec_contains(x, y)
                    ==> r.spec_contains(x, y)
            &&& tiles_size_sum(r, nx, ny, nx * ny) == r.spec_size()
        }),
{
    let nx = r.spec_tile_count_x(tile_count_x);
    let ny = r.spec_tile_count_y(tile_count_y);
    if r.spec_is_empty() {
        crate::rectangle::lemma_product_zero(r.spec_width(), r.spec_height());
        crate::rectangle::lemma_product_zero(nx, ny);
    } else {
        assert(nx * ny >= 0) by (nonlinear_arith)
            requires
                nx >= 1,
                ny >= 1,
        ;
        assert forall|x: int, y: int| #[trigger] r.spec_contains(x, y) implies exists|k: int|
            0 <= k < nx * ny && #[trigger] grid_tile(r, nx, ny, k).spec_contains(x, y) by {
            let k = lemma_grid_covers(r, nx, ny, x, y);
        }
        assert forall|k1: int, k2: int, x: int, y: int|
            0 <= k1 < nx * ny && 0 <= k2 < nx * ny && #[trigger] grid_tile(
                r,
                nx,
                ny,
                k1,
            ).spec_contains(x, y) && #[trigger] grid_tile(r, nx, ny, k2).spec_contains(
                x,
                y,
            ) implies k1 == k2 by {
            lemma_grid_disjoint(r, nx, ny, k1, k2, x, y);
        }
        assert forall|k: int, x: int, y: int|
            0 <= k < nx * ny && #[trigger] grid_tile(r, nx, ny, k).spec_contains(
                x,
                y,
            ) implies r.spec_contains(x, y) by {
            lemma_grid_tile_inside(r, nx, ny, k);
        }
        lemma_grid_sizes_add_up(r, nx, ny);
    }
}

} // verus!
