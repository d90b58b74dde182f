//! Dense row-major grids of values over the cells of a rectangle.

use crate::rectangle::{lemma_index_point_inside, lemma_index_point_of_cell, Rectangle};
use vstd::prelude::*;

verus! {

/// One value of type `T` for each cell of a rectangle, stored row by row and
/// addressed by the cell's absolute `(x, y)`.
#[derive(Clone)]
pub struct Raster<T: Copy + Default> {
    rectangle: Rectangle,
    elements: Vec<T>,
}

impl<T: Copy + Default> View for Raster<T> {
    type V = Seq<T>;

    /// The values, in row-major order of their cells.
    closed spec fn view(&self) -> Seq<T> {
        self.elements@
    }
}

impl<T: Copy + Default> Raster<T> {
    /// The rectangle whose cells the raster covers.
    pub closed spec fn spec_rectangle(self) -> Rectangle {
        self.rectangle
    }

    /// There is exactly one value for each cell of a well-formed rectangle.
    pub closed spec fn wf(self) -> bool {
        &&& self.rectangle.wf()
        &&& self.rectangle.spec_size() <= usize::MAX
        &&& self.elements@.len() == self.rectangle.spec_size()
    }

    /// The value at the cell `(x, y)`.
    pub open spec fn cell(self, x: int, y: int) -> T {
        self@[self.spec_rectangle().spec_linear_index(x, y)]
    }

    /// The length of the view is the size of the rectangle, which fits a
    /// machine word.
    pub proof fn lemma_len(self)
        requires
            self.wf(),
        ensures
            self@.len() == self.spec_rectangle().spec_size(),
            self.spec_rectangle().spec_size() <= usize::MAX,
            self.spec_rectangle().wf(),
    {
    }

    /// A raster over `rectangle` in which every cell holds the default value
    /// of `T`.
    pub fn new(rectangle: Rectangle) -> (r: Raster<T>)
        requires
            rectangle.wf(),
            rectangle.spec_size() <= usize::MAX,
        ensures
            r.wf(),
            r.spec_rectangle() == rectangle,
            r@.len() == rectangle.spec_size(),
            forall|i: int| 0 <= i < r@.len() ==> call_ensures(T::default, (), #[trigger] r@[i]),
    {
        let size: usize = rectangle.size();
        let mut elements: Vec<T> = Vec::with_capacity(size);
        let mut count: usize = 0;
        while count < size
            invariant
                count <= size,
                elements@.len() == count,
                forall|i: int|
                    0 <= i < elements@.len() ==> call_ensures(T::default, (), #[trigger] elements@[i]),
            decreases size - count,
        {
            elements.push(T::default());
            count += 1;
        }
        Raster { rectangle, elements }
    }

    pub fn rectangle(&self) -> (r: &Rectangle)
        ensures
            *r == self.spec_rectangle(),
    {
        &self.rectangle
    }

    pub fn get(&self, x: u32, y: u32) -> (value: T)
        requires
            self.wf(),
            self.spec_rectangle().spec_contains(x as int, y as int),
        ensures
            value == self.cell(x as int, y as int),
    {
        let index: usize = self.rectangle.linear_index(x, y);
        self.elements[index]
    }

    /// A reference through which the value at `(x, y)` can be replaced; all
    /// other cells stay as they are.
    pub fn get_mut(&mut self, x: u32, y: u32) -> (element: &mut T)
        requires
            old(self).wf(),
            old(self).spec_rectangle().spec_contains(x as int, y as int),
        ensures
            *element == old(self).cell(x as int, y as int),
            final(self).wf(),
            final(self).spec_rectangle() == old(self).spec_rectangle(),
            final(self)@ == old(self)@.update(
                old(self).spec_rectangle().spec_linear_index(x as int, y as int),
                *final(element),
            ),
    {
        let index: usize = self.rectangle.linear_index(x, y);
        &mut self.elements[index]
    }

    pub fn set(&mut self, x: u32, y: u32, value: T)
        requires
            old(self).wf(),
            old(self).spec_rectangle().spec_contains(x as int, y as int),
        ensures
            final(self).wf(),
            final(self).spec_rectangle() == old(self).spec_rectangle(),
            final(self)@ == old(self)@.update(
                old(self).spec_rectangle().spec_linear_index(x as int, y as int),
                value,
            ),
            final(self).cell(x as int, y as int) == value,
            forall|x2: int, y2: int|
                old(self).spec_rectangle().spec_contains(x2, y2) && (x2 != x || y2 != y)
                    ==> #[trigger] final(self).cell(x2, y2) == old(self).cell(x2, y2),
    {
        let index: usize = self.rectangle.linear_index(x, y);
        self.elements[index] = value;
        proof {
            let rect = self.rectangle;
            assert forall|x2: int, y2: int|
                rect.spec_contains(x2, y2) && (x2 != x || y2 != y) implies #[trigger] self.cell(
                x2,
                y2,
            ) == old(self).cell(x2, y2) by {
                lemma_index_point_of_cell(rect, x2, y2);
                lemma_index_point_of_cell(rect, x as int, y as int);
            }
        }
    }

    /// Combines this raster with `other` where the two overlap: each cell
    /// that lies in both rectangles gets what `merge_fn` makes of its value
    /// here and its value in `other`. Every other cell keeps its value.
    pub fn merge<U: Copy + Default, F: FnMut(T, U) -> T>(
        &mut self,
        other: &Raster<U>,
        mut merge_fn: F,
    )
        requires
            old(self).wf(),
            other.wf(),
            forall|x: int, y: int|
                old(self).spec_rectangle().spec_contains(x, y) && other.spec_rectangle().spec_contains(
                    x,
                    y,
                ) ==> call_requires(
                    merge_fn,
                    (#[trigger] old(self).cell(x, y), #[trigger] other.cell(x, y)),
                ),
        ensures
            final(self).wf(),
            final(self).spec_rectangle() == old(self).spec_rectangle(),
            forall|x: int, y: int|
                old(self).spec_rectangle().spec_contains(x, y) && other.spec_rectangle().spec_contains(
                    x,
                    y,
                ) ==> call_ensures(
                    merge_fn,
                    (old(self).cell(x, y), other.cell(x, y)),
                    #[trigger] final(self).cell(x, y),
                ),
            forall|x: int, y: int|
                old(self).spec_rectangle().spec_contains(x, y) && !other.spec_rectangle().spec_contains(
                    x,
                    y,
                ) ==> #[trigger] final(self).cell(x, y) == old(self).cell(x, y),
            !old(self).spec_rectangle().spec_overlaps(other.spec_rectangle()) ==> final(self)@
                == old(self)@,
    {
        broadcast use vstd::function::group_function_axioms;

        let maybe_common = self.rectangle.intersection(&other.rectangle);
        if let Some(common) = maybe_common {
            let ghost mine = self.rectangle;
            let ghost theirs = other.rectangle;
            let ghost combine = merge_fn;
            let mut cells = common.index_iter();
            loop
                invariant
                    self.wf(),
                    other.wf(),
                    merge_fn == combine,
                    self.rectangle == mine,
                    old(self).rectangle == mine,
                    old(self).wf(),
                    other.rectangle == theirs,
                    mine.wf(),
                    theirs.wf(),
                    common == mine.spec_intersection(theirs),
                    common.wf(),
                    cells.wf(),
                    cells.rectangle() == common,
                    0 <= cells.position() <= common.spec_size(),
                    forall|x: int, y: int|
                        mine.spec_contains(x, y) && theirs.spec_contains(x, y) ==> call_requires(
                            merge_fn,
                            (#[trigger] old(self).cell(x, y), #[trigger] other.cell(x, y)),
                        ),
                    forall|x: int, y: int|
                        common.spec_contains(x, y) && common.spec_linear_index(x, y)
                            < cells.position() ==> call_ensures(
                            merge_fn,
                            (old(self).cell(x, y), other.cell(x, y)),
                            #[trigger] self.cell(x, y),
                        ),
                    forall|x: int, y: int|
                        mine.spec_contains(x, y) && !(common.spec_contains(x, y)
                            && common.spec_linear_index(x, y) < cells.position())
                            ==> #[trigger] self.cell(x, y) == old(self).cell(x, y),
                ensures
                    cells.remaining() <= 0,
                decreases cells.remaining(),
            {
                let ghost position = cells.position();
                let ghost before = *self;
                let next = cells.next();
                proof {
                    cells.lemma_position_bound();
                }
                match next {
                    Some((x, y)) => {
                        proof {
                            lemma_index_point_inside(common, position);
                            crate::rectangle::lemma_linear_index_bound(mine, x as int, y as int);
                        }
                        let index: usize = self.rectangle.linear_index(x, y);
                        let current: T = self.elements[index];
                        let theirs_value: U = other.get(x, y);
                        assert(current == self.cell(x as int, y as int));
                        assert(current == old(self).cell(x as int, y as int));
                        let merged: T = merge_fn(current, theirs_value);
                        self.elements[index] = merged;
                        proof {
                            assert forall|x2: int, y2: int|
                                mine.spec_contains(x2, y2) && (x2 != x || y2 != y) implies #[trigger] self.cell(
                                x2,
                                y2,
                            ) == before.cell(x2, y2) by {
                                lemma_index_point_of_cell(mine, x2, y2);
                                lemma_index_point_of_cell(mine, x as int, y as int);
                            }
                            assert forall|x2: int, y2: int|
                                common.spec_contains(x2, y2) && common.spec_linear_index(x2, y2)
                                    == position implies x2 == x && y2 == y by {
                                lemma_index_point_of_cell(common, x2, y2);
                            }
                        }
                    },
                    None => {
                        break ;
                    },
                }
            }
            proof {
                assert forall|x: int, y: int|
                    mine.spec_contains(x, y) && theirs.spec_contains(x, y) implies call_ensures(
                    merge_fn,
                    (old(self).cell(x, y), other.cell(x, y)),
                    #[trigger] self.cell(x, y),
                ) by {
                    crate::rectangle::lemma_linear_index_bound(common, x, y);
                }
            }
        }
    }

    /// A raster over the same rectangle in which each cell holds what
    /// `map_fn` makes of the value here.
    pub fn map<U: Copy + Default, F: FnMut(T) -> U>(&self, mut map_fn: F) -> (r: Raster<U>)
        requires
            self.wf(),
            forall|i: int| 0 <= i < self@.len() ==> call_requires(map_fn, (#[trigger] self@[i],)),
        ensures
            r.wf(),
            r.spec_rectangle() == self.spec_rectangle(),
            r@.len() == self@.len(),
            forall|i: int|
                0 <= i < self@.len() ==> call_ensures(map_fn, (self@[i],), #[trigger] r@[i]),
    {
        broadcast use vstd::function::group_function_axioms;

        let rectangle = self.rectangle;
        let size: usize = self.elements.len();
        let mut elements: Vec<U> = Vec::with_capacity(size);
        let mut index: usize = 0;
        let ghost transform = map_fn;
        while index < size
            invariant
                self.wf(),
                map_fn == transform,
                size == self.elements@.len(),
                index <= size,
                elements@.len() == index,
                forall|i: int|
                    0 <= i < self@.len() ==> call_requires(map_fn, (#[trigger] self@[i],)),
                forall|i: int|
                    0 <= i < index ==> call_ensures(map_fn, (self@[i],), #[trigger] elements@[i]),
            decreases size - index,
        {
            assert(self@[index as int] == self.elements@[index as int]);
            let mapped: U = map_fn(self.elements[index]);
            elements.push(mapped);
            index += 1;
        }
        Raster { rectangle, elements }
    }
}

} // verus!
