//! Half-open rectangular regions of the integer grid, the row-major walk over
//! their cells, and their decomposition into tiles.

use vstd::arithmetic::div_mod::{lemma_fundamental_div_mod, lemma_fundamental_div_mod_converse};
use vstd::prelude::*;

pub use crate::tiling::RectangleTileIterator;
use crate::tiling::clamped_count;

verus! {

/// A half-open region `[left, right) x [top, bottom)` of pixel indices.
#[derive(Clone, Copy, PartialEq, Eq, Debug, Structural)]
pub struct Rectangle {
    pub left: u32,
    pub top: u32,
    pub right: u32,
    pub bottom: u32,
}

impl Rectangle {
    /// The bounds are ordered: `left <= right` and `top <= bottom`.
    pub open spec fn wf(self) -> bool {
        self.left <= self.right && self.top <= self.bottom
    }

    pub open spec fn spec_width(self) -> int {
        self.right - self.left
    }

    pub open spec fn spec_height(self) -> int {
        self.bottom - self.top
    }

    /// Number of cells.
    pub open spec fn spec_size(self) -> int {
        self.spec_width() * self.spec_height()
    }

    pub open spec fn spec_is_empty(self) -> bool {
        self.left == self.right || self.top == self.bottom
    }

    /// Whether the cell `(x, y)` lies in the region.
    pub open spec fn spec_contains(self, x: int, y: int) -> bool {
        self.left <= x < self.right && self.top <= y < self.bottom
    }

    /// The cells of the region, as a set of `(x, y)` pairs.
    pub open spec fn cells(self) -> Set<(int, int)> {
        Set::new(|p: (int, int)| self.spec_contains(p.0, p.1))
    }

    pub open spec fn spec_overlaps(self, other: Rectangle) -> bool {
        self.left < other.right && self.top < other.bottom && self.right > other.left
            && self.bottom > other.top
    }

    /// The bounding box of two rectangles.
    pub open spec fn spec_union(self, other: Rectangle) -> Rectangle {
        Rectangle {
            left: if self.left <= other.left { self.left } else { other.left },
            top: if self.top <= other.top { self.top } else { other.top },
            right: if self.right >= other.right { self.right } else { other.right },
            bottom: if self.bottom >= other.bottom { self.bottom } else { other.bottom },
        }
    }

    /// The common part of two overlapping rectangles.
    pub open spec fn spec_intersection(self, other: Rectangle) -> Rectangle {
        Rectangle {
            left: if self.left >= other.left { self.left } else { other.left },
            top: if self.top >= other.top { self.top } else { other.top },
            right: if self.right <= other.right { self.right } else { other.right },
            bottom: if self.bottom <= other.bottom { self.bottom } else { other.bottom },
        }
    }

    /// Row-major position of the cell `(x, y)` within the region.
    pub open spec fn spec_linear_index(self, x: int, y: int) -> int {
        (y - self.top) * self.spec_width() + (x - self.left)
    }

    /// The cell at row-major position `i` of the region.
    pub open spec fn index_point(self, i: int) -> (u32, u32) {
        (
            (self.left + i % self.spec_width()) as u32,
            (self.top + i / self.spec_width()) as u32,
        )
    }

    /// Number of tile columns when `requested` are asked for: no more than
    /// the rectangle is wide.
    pub open spec fn spec_tile_count_x(self, requested: int) -> int {
        clamped_count(requested, self.spec_width())
    }

    /// Number of tile rows when `requested` are asked for: no more than the
    /// rectangle is high, and none where it has no columns.
    pub open spec fn spec_tile_count_y(self, requested: int) -> int {
        if self.spec_width() == 0 {
            0
        } else {
            clamped_count(requested, self.spec_height())
        }
    }

    pub fn new(left: u32, top: u32, right: u32, bottom: u32) -> (r: Rectangle)
        requires
            left <= right,
            top <= bottom,
        ensures
            r == (Rectangle { left, top, right, bottom }),
            r.wf(),
    {
        Rectangle { left, top, right, bottom }
    }

    pub fn width(&self) -> (w: u32)
        requires
            self.wf(),
        ensures
            w == self.spec_width(),
    {
        self.right - self.left
    }

    pub fn height(&self) -> (h: u32)
        requires
            self.wf(),
        ensures
            h == self.spec_height(),
    {
        self.bottom - self.top
    }

    pub fn size(&self) -> (s: usize)
        requires
            self.wf(),
            self.spec_size() <= usize::MAX,
        ensures
            s == self.spec_size(),
    {
        self.width() as usize * self.height() as usize
    }

    pub fn is_empty(&self) -> (b: bool)
        ensures
            b == self.spec_is_empty(),
            self.wf() ==> (b <==> self.spec_size() == 0),
    {
        proof {
            if self.wf() {
                lemma_product_zero(self.spec_width(), self.spec_height());
            }
        }
        (self.left == self.right) || (self.top == self.bottom)
    }

    pub fn contains(&self, x: u32, y: u32) -> (b: bool)
        ensures
            b == self.spec_contains(x as int, y as int),
    {
        x >= self.left && x < self.right && y >= self.top && y < self.bottom
    }

    pub fn union(&self, other: &Rectangle) -> (r: Rectangle)
        ensures
            r == self.spec_union(*other),
            self.wf() || other.wf() ==> r.wf(),
            self.cells().subset_of(r.cells()),
            other.cells().subset_of(r.cells()),
    {
        let left: u32 = if self.left <= other.left { self.left } else { other.left };
        let top: u32 = if self.top <= other.top { self.top } else { other.top };
        let right: u32 = if self.right >= other.right { self.right } else { other.right };
        let bottom: u32 = if self.bottom >= other.bottom { self.bottom } else { other.bottom };

        Rectangle { left, top, right, bottom }
    }

    pub fn intersection(&self, other: &Rectangle) -> (r: Option<Rectangle>)
        ensures
            r.is_some() <==> self.spec_overlaps(*other),
            r.is_some() ==> r.unwrap() == self.spec_intersection(*other),
            r.is_some() && self.wf() && other.wf() ==> r.unwrap().wf(),
            r.is_some() ==> r.unwrap().cells() == self.cells().intersect(other.cells()),
            r.is_none() ==> self.cells().intersect(other.cells()) == Set::<(int, int)>::empty(),
    {
        proof {
            let common = self.cells().intersect(other.cells());
            if self.spec_overlaps(*other) {
                assert(self.spec_intersection(*other).cells() =~= common);
            } else {
                assert(common =~= Set::<(int, int)>::empty());
            }
        }
        if self.overlaps(other) {
            let left: u32 = if self.left >= other.left { self.left } else { other.left };
            let top: u32 = if self.top >= other.top { self.top } else { other.top };
            let right: u32 = if self.right <= other.right { self.right } else { other.right };
            let bottom: u32 = if self.bottom <= other.bottom { self.bottom } else { other.bottom };

            Some(Rectangle { left, top, right, bottom })
        } else {
            None
        }
    }

    pub fn overlaps(&self, other: &Rectangle) -> (b: bool)
        ensures
            b == self.spec_overlaps(*other),
    {
        self.left < other.right && self.top < other.bottom && self.right > other.left
            && self.bottom > other.top
    }

    /// A walk over every cell of the region in row-major order.
    pub fn index_iter(&self) -> (it: RectangleIndexIterator)
        requires
            self.wf(),
        ensures
            it.wf(),
            it.rectangle() == *self,
            it.position() == 0,
    {
        RectangleIndexIterator::new(*self)
    }

    /// The tiles of a grid over the region, in row-major order.
    pub fn tile_iter(&self, tile_count_x: u32, tile_count_y: u32) -> (it: RectangleTileIterator)
        requires
            self.wf(),
            tile_count_x > 0,
            tile_count_y > 0,
        ensures
            it.wf(),
            it.rectangle() == *self,
            it.count_x() == self.spec_tile_count_x(tile_count_x as int),
            it.count_y() == self.spec_tile_count_y(tile_count_y as int),
            it.position() == 0,
    {
        RectangleTileIterator::new(*self, tile_count_x, tile_count_y)
    }

    pub fn linear_index(&self, x: u32, y: u32) -> (i: usize)
        requires
            self.spec_contains(x as int, y as int),
            self.spec_size() <= usize::MAX,
        ensures
            i == self.spec_linear_index(x as int, y as int),
            i < self.spec_size(),
    {
        proof {
            lemma_linear_index_bound(*self, x as int, y as int);
            lemma_row_start_bound(*self, y as int);
        }
        (y - self.top) as usize * (self.right - self.left) as usize + (x - self.left) as usize
    }
}

/// The row-major walk over the cells of a rectangle. Calls of `next` hand out
/// `index_point(0)`, `index_point(1)`, ... and then `None` for ever.
#[derive(Clone, PartialEq, Eq, Debug)]
pub struct RectangleIndexIterator {
    rectangle: Rectangle,
    index_x: u32,
    index_y: u32,
}

impl RectangleIndexIterator {
    /// The rectangle that is walked.
    pub closed spec fn rectangle(self) -> Rectangle {
        self.rectangle
    }

    pub closed spec fn wf(self) -> bool {
        &&& self.rectangle.wf()
        &&& self.rectangle.top <= self.index_y <= self.rectangle.bottom
        &&& self.index_y < self.rectangle.bottom ==> self.rectangle.left <= self.index_x
            < self.rectangle.right
        &&& self.index_y == self.rectangle.bottom ==> self.index_x == self.rectangle.left
    }

    /// How many cells have been handed out so far.
    pub closed spec fn position(self) -> int {
        if self.index_y < self.rectangle.bottom {
            self.rectangle.spec_linear_index(self.index_x as int, self.index_y as int)
        } else {
            self.rectangle.spec_size()
        }
    }

    /// How many cells are still to come.
    pub open spec fn remaining(self) -> int {
        self.rectangle().spec_size() - self.position()
    }

    pub fn new(rectangle: Rectangle) -> (it: RectangleIndexIterator)
        requires
            rectangle.wf(),
        ensures
            it.wf(),
            it.rectangle() == rectangle,
            it.position() == 0,
    {
        let index_x: u32 = rectangle.left;
        let index_y: u32 = if rectangle.right > rectangle.left {
            rectangle.top
        } else {
            rectangle.bottom
        };
        proof {
            lemma_product_zero(rectangle.spec_width(), rectangle.spec_height());
            assert(0 * rectangle.spec_width() == 0);
        }
        RectangleIndexIterator { rectangle, index_x, index_y }
    }

    /// The position never passes the size of the rectangle.
    pub proof fn lemma_position_bound(self)
        requires
            self.wf(),
        ensures
            0 <= self.position() <= self.rectangle().spec_size(),
            self.remaining() >= 0,
    {
        if self.index_y < self.rectangle.bottom {
            lemma_linear_index_bound(self.rectangle, self.index_x as int, self.index_y as int);
        } else {
            lemma_size_nonnegative(self.rectangle);
        }
    }

    pub fn next(&mut self) -> (r: Option<(u32, u32)>)
        requires
            old(self).wf(),
        ensures
            final(self).wf(),
            final(self).rectangle() == old(self).rectangle(),
            old(self).remaining() > 0 ==> r == Some(
                old(self).rectangle().index_point(old(self).position()),
            ) && final(self).position() == old(self).position() + 1,
            old(self).remaining() <= 0 ==> r.is_none() && *final(self) == *old(self),
    {
        proof {
            self.lemma_position_bound();
        }
        if self.index_y < self.rectangle.bottom {
            let indices = (self.index_x, self.index_y);
            let ghost w = self.rectangle.spec_width();
            let ghost h = self.rectangle.spec_height();
            let ghost dx = self.index_x - self.rectangle.left;
            let ghost dy = self.index_y - self.rectangle.top;
            proof {
                lemma_linear_index_bound(self.rectangle, self.index_x as int, self.index_y as int);
                lemma_fundamental_div_mod_converse(dy * w + dx, w, dy, dx);
                assert((dy + 1) * w == dy * w + w) by (nonlinear_arith);
                if dy + 1 == h {
                    assert(w * h == (dy + 1) * w) by (nonlinear_arith)
                        requires
                            dy + 1 == h,
                    ;
                }
            }

            self.index_x += 1;
            if self.index_x >= self.rectangle.right {
                self.index_x = self.rectangle.left;
                self.index_y += 1;
            }
            Some(indices)
        } else {
            None
        }
    }

    /// The exact number of cells still to come, as both bounds.
    pub fn size_hint(&self) -> (r: (usize, Option<usize>))
        requires
            self.wf(),
            self.remaining() <= usize::MAX,
        ensures
            r.0 == self.remaining(),
            r.1 == Some(r.0),
    {
        if self.index_y < self.rectangle.bottom {
            let ghost w = self.rectangle.spec_width();
            let ghost h = self.rectangle.spec_height();
            let ghost dx = self.index_x - self.rectangle.left;
            let ghost dy = self.index_y - self.rectangle.top;
            proof {
                assert((h - dy - 1) * w + (w - dx) == w * h - (dy * w + dx)) by (nonlinear_arith);
                assert(0 <= (h - dy - 1) * w <= w * h) by (nonlinear_arith)
                    requires
                        0 <= dy < h,
                        0 <= w,
                ;
                lemma_linear_index_bound(self.rectangle, self.index_x as int, self.index_y as int);
            }
            let rows_below: usize = (self.rectangle.bottom - self.index_y - 1) as usize;
            let remaining: usize = rows_below * (self.rectangle.right - self.rectangle.left) as usize
                + (self.rectangle.right - self.index_x) as usize;
            (remaining, Some(remaining))
        } else {
            (0, Some(0))
        }
    }
}

/// A well-formed rectangle has a non-negative size.
pub proof fn lemma_size_nonnegative(r: Rectangle)
    requires
        r.wf(),
    ensures
        r.spec_size() >= 0,
{
    let w = r.spec_width();
    let h = r.spec_height();
    assert(w * h >= 0) by (nonlinear_arith)
        requires
            w >= 0,
            h >= 0,
    ;
}

/// Quotient and remainder of a row-major position by the row length are the
/// row and the column.
pub proof fn lemma_position_split(i: int, w: int, h: int)
    requires
        0 <= i < w * h,
        0 <= w,
    ensures
        0 <= i / w < h,
        0 <= i % w < w,
        (i / w) * w + i % w == i,
{
    assert(w > 0) by (nonlinear_arith)
        requires
            0 <= i < w * h,
            0 <= w,
    ;
    lemma_fundamental_div_mod(i, w);
    let q = i / w;
    let m = i % w;
    assert(w * q == q * w) by (nonlinear_arith);
    assert(0 <= q < h) by (nonlinear_arith)
        requires
            0 <= m < w,
            i == q * w + m,
            0 <= i < w * h,
    ;
}

/// The cell at position `i` lies in the rectangle, and its row-major position
/// is `i` again.
pub proof fn lemma_index_point_inside(r: Rectangle, i: int)
    requires
        r.wf(),
        0 <= i < r.spec_size(),
    ensures
        r.spec_contains(r.index_point(i).0 as int, r.index_point(i).1 as int),
        r.spec_linear_index(r.index_point(i).0 as int, r.index_point(i).1 as int) == i,
{
    lemma_position_split(i, r.spec_width(), r.spec_height());
}

/// Every cell of the rectangle is the one at its own row-major position, so
/// the walk misses none.
pub proof fn lemma_index_point_of_cell(r: Rectangle, x: int, y: int)
    requires
        r.spec_contains(x, y),
    ensures
        0 <= r.spec_linear_index(x, y) < r.spec_size(),
        r.index_point(r.spec_linear_index(x, y)) == (x as u32, y as u32),
{
    lemma_linear_index_bound(r, x, y);
    lemma_fundamental_div_mod_converse(
        r.spec_linear_index(x, y),
        r.spec_width(),
        y - r.top,
        x - r.left,
    );
}

/// Cells come row by row, and from left to right within a row; so no cell
/// comes twice.
pub proof fn lemma_index_points_ordered(r: Rectangle, i: int, j: int)
    requires
        r.wf(),
        0 <= i < j < r.spec_size(),
    ensures
        r.index_point(i).1 < r.index_point(j).1 || (r.index_point(i).1 == r.index_point(j).1
            && r.index_point(i).0 < r.index_point(j).0),
        r.index_point(i) != r.index_point(j),
{
    let w = r.spec_width();
    lemma_position_split(i, w, r.spec_height());
    lemma_position_split(j, w, r.spec_height());
    let qi = i / w;
    let qj = j / w;
    assert(qi <= qj) by (nonlinear_arith)
        requires
            qi * w + i % w == i,
            qj * w + j % w == j,
            0 <= i % w < w,
            0 <= j % w < w,
            i < j,
    ;
}

/// The row-major walk is complete and free of repeats: the cells at the
/// positions below the size all lie in the rectangle, come row by row and
/// from left to right within a row, so that no two positions hold the same
/// cell, and every cell of the rectangle is at the position that
/// `spec_linear_index` gives it.
pub proof fn lemma_index_iteration_complete(r: Rectangle)
    requires
        r.wf(),
    ensures
        r.spec_size() >= 0,
        forall|i: int|
            0 <= i < r.spec_size() ==> r.spec_contains(
                (#[trigger] r.index_point(i)).0 as int,
                r.index_point(i).1 as int,
            ) && r.spec_linear_index(r.index_point(i).0 as int, r.index_point(i).1 as int) == i,
        forall|i: int, j: int|
            0 <= i < j < r.spec_size() ==> #[trigger] r.index_point(i) != #[trigger] r.index_point(
                j,
            ) && (r.index_point(i).1 < r.index_point(j).1 || (r.index_point(i).1
                == r.index_point(j).1 && r.index_point(i).0 < r.index_point(j).0)),
        forall|x: int, y: int| #[trigger]
            r.spec_contains(x, y) ==> 0 <= r.spec_linear_index(x, y) < r.spec_size()
                && r.index_point(r.spec_linear_index(x, y)) == (x as u32, y as u32),
{
    lemma_size_nonnegative(r);
    assert forall|i: int| 0 <= i < r.spec_size() implies r.spec_contains(
        (#[trigger] r.index_point(i)).0 as int,
        r.index_point(i).1 as int,
    ) && r.spec_linear_index(r.index_point(i).0 as int, r.index_point(i).1 as int) == i by {
        lemma_index_point_inside(r, i);
    }
    assert forall|i: int, j: int| 0 <= i < j < r.spec_size() implies #[trigger] r.index_point(i)
        != #[trigger] r.index_point(j) && (r.index_point(i).1 < r.index_point(j).1 || (r.index_point(
        i,
    ).1 == r.index_point(j).1 && r.index_point(i).0 < r.index_point(j).0)) by {
        lemma_index_points_ordered(r, i, j);
    }
    assert forall|x: int, y: int| #[trigger] r.spec_contains(x, y) implies 0
        <= r.spec_linear_index(x, y) < r.spec_size() && r.index_point(r.spec_linear_index(x, y))
        == (x as u32, y as u32) by {
        lemma_index_point_of_cell(r, x, y);
    }
}

/// A product of two naturals is zero exactly when one factor is.
pub proof fn lemma_product_zero(a: int, b: int)
    requires
        a >= 0,
        b >= 0,
    ensures
        a * b == 0 <==> (a == 0 || b == 0),
{
    assert(a * b == 0 <==> (a == 0 || b == 0)) by (nonlinear_arith)
        requires
            a >= 0,
            b >= 0,
    ;
}

/// The row-major position of a cell of the region is below the region's size.
pub proof fn lemma_linear_index_bound(r: Rectangle, x: int, y: int)
    requires
        r.spec_contains(x, y),
    ensures
        0 <= r.spec_linear_index(x, y) < r.spec_size(),
{
    let w = r.spec_width();
    let h = r.spec_height();
    let dy = y - r.top;
    let dx = x - r.left;
    assert(0 <= dy * w + dx < w * h) by (nonlinear_arith)
        requires
            0 <= dy < h,
            0 <= dx < w,
    ;
}

/// The first cell of a row of the region has a position within the size.
proof fn lemma_row_start_bound(r: Rectangle, y: int)
    requires
        r.top <= y < r.bottom,
        r.left <= r.right,
    ensures
        0 <= (y - r.top) * r.spec_width() <= r.spec_size(),
{
    let w = r.spec_width();
    let h = r.spec_height();
    let dy = y - r.top;
    assert(0 <= dy * w <= w * h) by (nonlinear_arith)
        requires
            0 <= dy < h,
            0 <= w,
    ;
}

} // verus!
