//! Reconstruction of a raster from samples: each sample's value is spread
//! over the pixels within the filter's reach, weighted by the filter, and
//! every pixel ends up with the weighted mean of what reached it.

use crate::raster::Raster;
use crate::rectangle::{lemma_index_point_inside, lemma_linear_index_bound, Rectangle};
use crate::sampler::{PixelSample, Sampler, SamplerTile};
use vstd::prelude::*;

pub use multithreaded::MultiThreadedRenderer;
pub use simple::SimpleRenderer;


pub mod laws;
pub mod multithreaded;
pub mod simple;

verus! {

/// The function that is sampled, together with the arithmetic on its values
/// and on weights that reconstruction needs: adding values, adding weights,
/// scaling a value by a weight and dividing it by one.
pub trait RenderFunction: Send + Sync {
    type Value: Copy + Default + Send + Sync;

    type Weight: Copy + Default + Send + Sync;

    spec fn spec_add_values(a: Self::Value, b: Self::Value) -> Self::Value;

    spec fn spec_add_weights(a: Self::Weight, b: Self::Weight) -> Self::Weight;

    spec fn spec_scale(value: Self::Value, weight: Self::Weight) -> Self::Value;

    spec fn spec_divide(value: Self::Value, weight: Self::Weight) -> Self::Value;

    spec fn spec_is_zero(weight: Self::Weight) -> bool;

    /// The value of the function at a sample.
    fn evaluate(&self, sample: &PixelSample) -> (value: Self::Value)
        requires
            sample.wf(),
    ;

    fn add_values(a: Self::Value, b: Self::Value) -> (r: Self::Value)
        ensures
            r == Self::spec_add_values(a, b),
    ;

    fn add_weights(a: Self::Weight, b: Self::Weight) -> (r: Self::Weight)
        ensures
            r == Self::spec_add_weights(a, b),
    ;

    fn scale(value: Self::Value, weight: Self::Weight) -> (r: Self::Value)
        ensures
            r == Self::spec_scale(value, weight),
    ;

    fn divide(value: Self::Value, weight: Self::Weight) -> (r: Self::Value)
        requires
            !Self::spec_is_zero(weight),
        ensures
            r == Self::spec_divide(value, weight),
    ;

    fn is_zero(weight: Self::Weight) -> (b: bool)
        ensures
            b == Self::spec_is_zero(weight),
    ;
}

/// A reconstruction kernel: the weight with which a sample counts for a
/// pixel. A kernel owes a weight of zero for every pixel that is more than
/// `reach` pixels away from the sample's own pixel along either axis, which
/// is why such pixels are never asked about. The trait has no notion of
/// zero to state that with; `laws::is_zero_beyond_reach` states it over the
/// zero of a render function, and `laws::lemma_skipping_beyond_reach` shows
/// that nothing is lost by skipping where it holds.
pub trait Filter<W>: Send + Sync {
    spec fn spec_reach(&self) -> (u32, u32);

    spec fn spec_evaluate(&self, pixel_x: u32, pixel_y: u32, sample: PixelSample) -> W;

    /// How many pixels to either side of a sample's own pixel, along x and
    /// along y, the kernel's support can touch.
    fn reach(&self) -> (r: (u32, u32))
        ensures
            r == self.spec_reach(),
    ;

    /// The weight of `sample` for the pixel `(pixel_x, pixel_y)`.
    fn evaluate(&self, pixel_x: u32, pixel_y: u32, sample: &PixelSample) -> (weight: W)
        requires
            sample.wf(),
        ensures
            weight == self.spec_evaluate(pixel_x, pixel_y, *sample),
    ;
}

/// Sampling, filtering and normalising in one step.
pub trait Renderer {
    /// The reconstructed raster over the sampler's rectangle.
    fn render<S: Sampler, R: RenderFunction, F: Filter<R::Weight>>(
        &self,
        sampler: &S,
        render_fn: &R,
        filter: &F,
    ) -> (raster: Raster<R::Value>)
        requires
            sampler.wf(),
            sampler.spec_rectangle().spec_size() <= usize::MAX,
        ensures
            raster.wf(),
            raster.spec_rectangle() == sampler.spec_rectangle(),
    ;
}

/// The only tile of a grid of one column and one row is the rectangle
/// itself.
pub proof fn lemma_single_tile(r: Rectangle)
    requires
        r.wf(),
    ensures
        crate::tiling::grid_tile(r, 1, 1, 0) == r,
{
    let left = crate::tiling::tile_edge(r.left as int, r.right as int, 1, 0);
    let right = crate::tiling::tile_edge(r.left as int, r.right as int, 1, 1);
    let top = crate::tiling::tile_edge(r.top as int, r.bottom as int, 1, 0);
    let bottom = crate::tiling::tile_edge(r.top as int, r.bottom as int, 1, 1);
    assert(left == r.left && top == r.top);
    assert(right == r.left + (r.right - r.left) / 1);
    assert(bottom == r.top + (r.bottom - r.top) / 1);
}

/// An accumulation cell after one more contribution: the value scaled by the
/// weight is added to the sum of values, the weight to the sum of weights.
pub open spec fn spec_accumulate<R: RenderFunction>(
    cell: (R::Value, R::Weight),
    value: R::Value,
    weight: R::Weight,
) -> (R::Value, R::Weight) {
    (R::spec_add_values(cell.0, R::spec_scale(value, weight)), R::spec_add_weights(cell.1, weight))
}

/// The sum of two accumulation cells, part by part.
pub open spec fn spec_combine<R: RenderFunction>(
    a: (R::Value, R::Weight),
    b: (R::Value, R::Weight),
) -> (R::Value, R::Weight) {
    (R::spec_add_values(a.0, b.0), R::spec_add_weights(a.1, b.1))
}

/// Whether `value` is what a cell resolves to: the weighted mean, or a
/// default value where no weight has been accumulated.
pub open spec fn spec_resolves_to<R: RenderFunction>(
    cell: (R::Value, R::Weight),
    value: R::Value,
) -> bool {
    if R::spec_is_zero(cell.1) {
        call_ensures(<R::Value as Default>::default, (), value)
    } else {
        value == R::spec_divide(cell.0, cell.1)
    }
}

/// Whether the pixel `(x, y)` is within `reach` pixels of the sample's pixel
/// along both axes.
pub open spec fn in_reach(sample: PixelSample, reach: (u32, u32), x: int, y: int) -> bool {
    &&& sample.pixel_x - reach.0 <= x <= sample.pixel_x + reach.0
    &&& sample.pixel_y - reach.1 <= y <= sample.pixel_y + reach.1
}

/// What one sample makes of the cell at `(x, y)`: within the filter's reach
/// of the sample the cell accumulates the value with the filter's weight,
/// elsewhere it stays as it is.
pub open spec fn spec_splat_cell<R: RenderFunction, F: Filter<R::Weight>>(
    filter: &F,
    cell: (R::Value, R::Weight),
    sample: PixelSample,
    value: R::Value,
    x: int,
    y: int,
) -> (R::Value, R::Weight) {
    if in_reach(sample, filter.spec_reach(), x, y) {
        spec_accumulate::<R>(cell, value, filter.spec_evaluate(x as u32, y as u32, sample))
    } else {
        cell
    }
}

/// What a sequence of samples with their values makes of the cell at
/// `(x, y)`, one after the other.
pub open spec fn spec_splat_all<R: RenderFunction, F: Filter<R::Weight>>(
    filter: &F,
    start: (R::Value, R::Weight),
    contributions: Seq<(PixelSample, R::Value)>,
    x: int,
    y: int,
) -> (R::Value, R::Weight)
    decreases contributions.len(),
{
    if contributions.len() == 0 {
        start
    } else {
        spec_splat_cell::<R, F>(
            filter,
            spec_splat_all::<R, F>(filter, start, contributions.drop_last(), x, y),
            contributions.last().0,
            contributions.last().1,
            x,
            y,
        )
    }
}

/// Whether every cell of `raster` holds what the contributions, in order,
/// make of the cell of `start` at the same place.
pub open spec fn is_accumulation_of<R: RenderFunction, F: Filter<R::Weight>>(
    raster: Raster<(R::Value, R::Weight)>,
    filter: &F,
    start: Seq<(R::Value, R::Weight)>,
    contributions: Seq<(PixelSample, R::Value)>,
) -> bool {
    &&& start.len() == raster@.len()
    &&& forall|x: int, y: int|
        raster.spec_rectangle().spec_contains(x, y) ==> #[trigger] raster.cell(x, y)
            == spec_splat_all::<R, F>(
            filter,
            start[raster.spec_rectangle().spec_linear_index(x, y)],
            contributions,
            x,
            y,
        )
}

/// A number of items still to come, as a count: nothing is to come where
/// the number is not positive.
pub open spec fn count_of(remaining: int) -> int {
    if remaining > 0 {
        remaining
    } else {
        0
    }
}

/// Whether every cell of `start` is a default cell.
pub open spec fn is_blank<R: RenderFunction>(start: Seq<(R::Value, R::Weight)>) -> bool {
    forall|i: int|
        0 <= i < start.len() ==> call_ensures(
            <(R::Value, R::Weight) as Default>::default,
            (),
            #[trigger] start[i],
        )
}

/// Whether `contributions` are the `count` samples that `tile` has handed
/// out from its sample number `first` on, in their order, each with a value
/// that the function gives for it; `handed` being all that the tile has
/// handed out in the end.
pub open spec fn are_samples_of_tile<T: SamplerTile, R: RenderFunction>(
    tile: &T,
    render_fn: &R,
    first: int,
    count: int,
    handed: Seq<PixelSample>,
    contributions: Seq<(PixelSample, R::Value)>,
) -> bool {
    &&& contributions.len() == count
    &&& handed.len() == first + count
    &&& forall|k: int|
        0 <= k < contributions.len() ==> (#[trigger] contributions[k]).0 == handed[first + k]
    &&& forall|k: int|
        0 <= k < contributions.len() ==> (#[trigger] contributions[k]).0.wf()
            && tile.spec_rectangle().spec_contains(
            contributions[k].0.pixel_x as int,
            contributions[k].0.pixel_y as int,
        ) && (contributions[k].0.pixel_x, contributions[k].0.pixel_y)
            == tile.spec_rectangle().index_point((first + k) / tile.spec_samples_per_pixel())
            && tile.admits(first + k, contributions[k].0) && call_ensures(
            R::evaluate,
            (render_fn, &contributions[k].0),
            contributions[k].1,
        )
}

/// Whether `contributions` are `count` samples of a tile of `sampler` over
/// `rectangle` in the order in which the tile hands them out, the first of
/// them being sample number `first` of the tile, each with a value that the
/// function gives for it.
pub open spec fn are_samples_of<S: Sampler, R: RenderFunction>(
    sampler: &S,
    render_fn: &R,
    rectangle: Rectangle,
    first: int,
    count: int,
    contributions: Seq<(PixelSample, R::Value)>,
) -> bool {
    &&& contributions.len() == count
    &&& forall|k: int|
        0 <= k < contributions.len() ==> (#[trigger] contributions[k]).0.wf()
            && rectangle.spec_contains(
            contributions[k].0.pixel_x as int,
            contributions[k].0.pixel_y as int,
        ) && (contributions[k].0.pixel_x, contributions[k].0.pixel_y) == rectangle.index_point(
            (first + k) / sampler.spec_samples_per_pixel(),
        ) && sampler.admits(rectangle, first + k, contributions[k].0) && call_ensures(
            R::evaluate,
            (render_fn, &contributions[k].0),
            contributions[k].1,
        )
}

/// The samples of the contributions, in their order.
pub open spec fn samples_of<R: RenderFunction>(
    contributions: Seq<(PixelSample, R::Value)>,
) -> Seq<PixelSample> {
    contributions.map_values(|contribution: (PixelSample, R::Value)| contribution.0)
}

/// Whether `handed` is all that a tile of `sampler` over `tile_rectangle`
/// has handed out when nothing is left to come.
pub open spec fn is_handed_out_by<S: Sampler>(
    sampler: &S,
    tile_rectangle: Rectangle,
    handed: Seq<PixelSample>,
) -> bool {
    exists|tile: S::Tile|
        #[trigger] tile.handed_out() == handed && tile.wf() && tile.spec_rectangle()
            == tile_rectangle && tile.spec_samples_per_pixel() == sampler.spec_samples_per_pixel()
            && tile.remaining() == 0
}

/// Whether `raster` is what rendering `tile` gives: a blank raster on which
/// the `count` samples that the tile has handed out from its sample number
/// `first` on have been spread in order, each with the value that the
/// function gave for it; `handed` being all that the tile has handed out in
/// the end.
pub open spec fn is_tile_rendering<T: SamplerTile, R: RenderFunction, F: Filter<R::Weight>>(
    raster: Raster<(R::Value, R::Weight)>,
    tile: &T,
    render_fn: &R,
    filter: &F,
    first: int,
    count: int,
    handed: Seq<PixelSample>,
    start: Seq<(R::Value, R::Weight)>,
    contributions: Seq<(PixelSample, R::Value)>,
) -> bool {
    &&& is_blank::<R>(start)
    &&& are_samples_of_tile::<T, R>(tile, render_fn, first, count, handed, contributions)
    &&& is_accumulation_of::<R, F>(raster, filter, start, contributions)
}

/// Whether `image` is what rendering in one piece gives: on a blank raster
/// over the sampler's rectangle all that the sampler's tile over that
/// rectangle has handed out has been spread in its order, with the values
/// that the function gave for it, and every cell has then been resolved.
pub open spec fn is_image_of<S: Sampler, R: RenderFunction, F: Filter<R::Weight>>(
    image: Raster<R::Value>,
    sampler: &S,
    render_fn: &R,
    filter: &F,
    start: Seq<(R::Value, R::Weight)>,
    contributions: Seq<(PixelSample, R::Value)>,
) -> bool {
    let rectangle = sampler.spec_rectangle();
    &&& is_blank::<R>(start)
    &&& start.len() == rectangle.spec_size()
    &&& are_samples_of::<S, R>(
        sampler,
        render_fn,
        rectangle,
        0,
        rectangle.spec_size() * sampler.spec_samples_per_pixel(),
        contributions,
    )
    &&& !rectangle.spec_is_empty() ==> is_handed_out_by::<S>(
        sampler,
        rectangle,
        samples_of::<R>(contributions),
    )
    &&& forall|x: int, y: int|
        rectangle.spec_contains(x, y) ==> spec_resolves_to::<R>(
            spec_splat_all::<R, F>(
                filter,
                start[rectangle.spec_linear_index(x, y)],
                contributions,
                x,
                y,
            ),
            #[trigger] image.cell(x, y),
        )
}

/// Whether `raster` holds what all samples of the sampler's tile over
/// `tile_rectangle`, in the order in which the tile hands them out and with
/// the values that the function gave for them, make of the blank raster
/// `start`.
pub open spec fn is_tile_accumulation<S: Sampler, R: RenderFunction, F: Filter<R::Weight>>(
    raster: Raster<(R::Value, R::Weight)>,
    sampler: &S,
    render_fn: &R,
    filter: &F,
    tile_rectangle: Rectangle,
    start: Seq<(R::Value, R::Weight)>,
    contributions: Seq<(PixelSample, R::Value)>,
) -> bool {
    &&& is_blank::<R>(start)
    &&& are_samples_of::<S, R>(
        sampler,
        render_fn,
        tile_rectangle,
        0,
        tile_rectangle.spec_size() * sampler.spec_samples_per_pixel(),
        contributions,
    )
    &&& is_handed_out_by::<S>(sampler, tile_rectangle, samples_of::<R>(contributions))
    &&& is_accumulation_of::<R, F>(raster, filter, start, contributions)
}

/// Whether `raster` is what rendering the sampler's tile over
/// `tile_rectangle` within `bounds` gives.
pub open spec fn is_rendered_tile<S: Sampler, R: RenderFunction, F: Filter<R::Weight>>(
    raster: Raster<(R::Value, R::Weight)>,
    sampler: &S,
    render_fn: &R,
    filter: &F,
    tile_rectangle: Rectangle,
    bounds: Rectangle,
) -> bool {
    &&& raster.wf()
    &&& raster.spec_rectangle() == spec_accumulation_rectangle(
        tile_rectangle,
        filter.spec_reach(),
        bounds,
    )
    &&& exists|start: Seq<(R::Value, R::Weight)>, contributions: Seq<(PixelSample, R::Value)>|
        #[trigger] is_tile_accumulation::<S, R, F>(
            raster,
            sampler,
            render_fn,
            filter,
            tile_rectangle,
            start,
            contributions,
        )
}

/// What adding up the tile rasters, in order, makes of the cell at
/// `(x, y)`: every raster that covers the cell adds its own cell to it.
pub open spec fn spec_merge_all<R: RenderFunction>(
    start: (R::Value, R::Weight),
    tile_rasters: Seq<Raster<(R::Value, R::Weight)>>,
    x: int,
    y: int,
) -> (R::Value, R::Weight)
    decreases tile_rasters.len(),
{
    if tile_rasters.len() == 0 {
        start
    } else {
        let before = spec_merge_all::<R>(start, tile_rasters.drop_last(), x, y);
        if tile_rasters.last().spec_rectangle().spec_contains(x, y) {
            spec_combine::<R>(before, tile_rasters.last().cell(x, y))
        } else {
            before
        }
    }
}

/// Whether every cell of `sums` holds what the tile rasters, in order, add
/// to the cell of `start` at the same place.
pub open spec fn is_sum_of<R: RenderFunction>(
    sums: Raster<(R::Value, R::Weight)>,
    start: Seq<(R::Value, R::Weight)>,
    tile_rasters: Seq<Raster<(R::Value, R::Weight)>>,
) -> bool {
    &&& start.len() == sums@.len()
    &&& forall|x: int, y: int|
        sums.spec_rectangle().spec_contains(x, y) ==> #[trigger] sums.cell(x, y)
            == spec_merge_all::<R>(
            start[sums.spec_rectangle().spec_linear_index(x, y)],
            tile_rasters,
            x,
            y,
        )
}

/// Whether `image` is what rendering tile by tile gives: the tiles of the
/// grid of `count_x` by `count_y` tiles over the sampler's rectangle have
/// each been rendered into a raster of its own, the rasters have been added
/// up in the order of the grid on a blank raster over the rectangle, and
/// every cell has then been resolved.
pub open spec fn is_tiled_image_of<S: Sampler, R: RenderFunction, F: Filter<R::Weight>>(
    image: Raster<R::Value>,
    sampler: &S,
    render_fn: &R,
    filter: &F,
    count_x: int,
    count_y: int,
    start: Seq<(R::Value, R::Weight)>,
    tile_rasters: Seq<Raster<(R::Value, R::Weight)>>,
) -> bool {
    let rectangle = sampler.spec_rectangle();
    &&& is_blank::<R>(start)
    &&& start.len() == rectangle.spec_size()
    &&& tile_rasters.len() == count_x * count_y
    &&& forall|t: int|
        0 <= t < tile_rasters.len() ==> is_rendered_tile::<S, R, F>(
            #[trigger] tile_rasters[t],
            sampler,
            render_fn,
            filter,
            crate::tiling::grid_tile(rectangle, count_x, count_y, t),
            rectangle,
        )
    &&& forall|x: int, y: int|
        rectangle.spec_contains(x, y) ==> spec_resolves_to::<R>(
            spec_merge_all::<R>(
                start[rectangle.spec_linear_index(x, y)],
                tile_rasters,
                x,
                y,
            ),
            #[trigger] image.cell(x, y),
        )
}

/// One more tile raster leads from one sum to the next.
pub proof fn lemma_sum_step<R: RenderFunction>(
    before: Raster<(R::Value, R::Weight)>,
    after: Raster<(R::Value, R::Weight)>,
    start: Seq<(R::Value, R::Weight)>,
    tile_rasters: Seq<Raster<(R::Value, R::Weight)>>,
    tile_raster: Raster<(R::Value, R::Weight)>,
)
    requires
        is_sum_of::<R>(before, start, tile_rasters),
        after.spec_rectangle() == before.spec_rectangle(),
        after@.len() == before@.len(),
        forall|x: int, y: int|
            before.spec_rectangle().spec_contains(x, y) && tile_raster.spec_rectangle().spec_contains(
                x,
                y,
            ) ==> #[trigger] after.cell(x, y) == spec_combine::<R>(
                before.cell(x, y),
                tile_raster.cell(x, y),
            ),
        forall|x: int, y: int|
            before.spec_rectangle().spec_contains(x, y)
                && !tile_raster.spec_rectangle().spec_contains(x, y) ==> #[trigger] after.cell(
                x,
                y,
            ) == before.cell(x, y),
    ensures
        is_sum_of::<R>(after, start, tile_rasters.push(tile_raster)),
{
    let longer = tile_rasters.push(tile_raster);
    assert(longer.drop_last() =~= tile_rasters);
    assert(longer.last() == tile_raster);
    assert forall|x: int, y: int|
        after.spec_rectangle().spec_contains(x, y) implies #[trigger] after.cell(x, y)
        == spec_merge_all::<R>(
        start[after.spec_rectangle().spec_linear_index(x, y)],
        longer,
        x,
        y,
    ) by {
        assert(before.cell(x, y) == spec_merge_all::<R>(
            start[before.spec_rectangle().spec_linear_index(x, y)],
            tile_rasters,
            x,
            y,
        ));
    }
}

/// The part of `[from - reach, until + reach)` that lies in `[low, high)`,
/// as a half-open range; where there is none, an empty range.
pub open spec fn widened_range(from: int, until: int, reach: int, low: int, high: int) -> (
    int,
    int,
) {
    let start = if from - reach >= low {
        from - reach
    } else {
        low
    };
    let end = if until + reach <= high {
        until + reach
    } else {
        high
    };
    if start <= end {
        (start, end)
    } else {
        (low, low)
    }
}

/// Computes `widened_range` within the bounds of `u32`.
fn widen_axis(from: u32, until: u64, reach: u32, low: u32, high: u32) -> (range: (u32, u32))
    requires
        from <= until <= 0x1_0000_0000,
        low <= high,
    ensures
        range.0 <= range.1,
        low <= range.0,
        range.1 <= high,
        (range.0 as int, range.1 as int) == widened_range(
            from as int,
            until as int,
            reach as int,
            low as int,
            high as int,
        ),
{
    let start: u32 = if from >= reach { from - reach } else { 0 };
    let start: u32 = if start >= low { start } else { low };
    let end: u64 = until + reach as u64;
    let end: u32 = if end <= high as u64 { end as u32 } else { high };
    if start <= end {
        (start, end)
    } else {
        (low, low)
    }
}

/// The pixels of `bounds` that a sample can contribute to.
pub fn splat_window(sample: &PixelSample, reach: (u32, u32), bounds: &Rectangle) -> (window:
    Rectangle)
    requires
        bounds.wf(),
    ensures
        window.wf(),
        forall|x: int, y: int| #[trigger]
            window.spec_contains(x, y) <==> bounds.spec_contains(x, y) && in_reach(
                *sample,
                reach,
                x,
                y,
            ),
{
    let (left, right) = widen_axis(
        sample.pixel_x,
        sample.pixel_x as u64 + 1,
        reach.0,
        bounds.left,
        bounds.right,
    );
    let (top, bottom) = widen_axis(
        sample.pixel_y,
        sample.pixel_y as u64 + 1,
        reach.1,
        bounds.top,
        bounds.bottom,
    );
    Rectangle::new(left, top, right, bottom)
}

/// The rectangle that a tile's samples can contribute to: the tile widened
/// by `reach` on all sides, as far as `bounds` goes.
pub open spec fn spec_accumulation_rectangle(
    tile: Rectangle,
    reach: (u32, u32),
    bounds: Rectangle,
) -> Rectangle {
    let across = widened_range(
        tile.left as int,
        tile.right as int,
        reach.0 as int,
        bounds.left as int,
        bounds.right as int,
    );
    let down = widened_range(
        tile.top as int,
        tile.bottom as int,
        reach.1 as int,
        bounds.top as int,
        bounds.bottom as int,
    );
    Rectangle {
        left: across.0 as u32,
        top: down.0 as u32,
        right: across.1 as u32,
        bottom: down.1 as u32,
    }
}

/// Computes `spec_accumulation_rectangle`: the cells of `bounds` that are
/// less than `reach` cells away from the tile along each axis.
pub fn accumulation_rectangle(tile: &Rectangle, reach: (u32, u32), bounds: &Rectangle) -> (r:
    Rectangle)
    requires
        tile.wf(),
        bounds.wf(),
    ensures
        r == spec_accumulation_rectangle(*tile, reach, *bounds),
        r.wf(),
        bounds.spec_size() <= usize::MAX ==> r.spec_size() <= usize::MAX,
        forall|x: int, y: int| #[trigger]
            r.spec_contains(x, y) <==> bounds.spec_contains(x, y) && tile.left - reach.0 <= x
                < tile.right + reach.0 && tile.top - reach.1 <= y < tile.bottom + reach.1,
{
    let (left, right) = widen_axis(
        tile.left,
        tile.right as u64,
        reach.0,
        bounds.left,
        bounds.right,
    );
    let (top, bottom) = widen_axis(
        tile.top,
        tile.bottom as u64,
        reach.1,
        bounds.top,
        bounds.bottom,
    );
    proof {
        let w = (right - left) as int;
        let h = (bottom - top) as int;
        let bw = bounds.spec_width();
        let bh = bounds.spec_height();
        assert(w * h <= bw * bh) by (nonlinear_arith)
            requires
                0 <= w <= bw,
                0 <= h <= bh,
        ;
    }
    Rectangle::new(left, top, right, bottom)
}

/// Spreads one sample's value over the raster: every cell of the raster
/// within the filter's reach of the sample accumulates the value with the
/// weight that the filter gives the sample for that cell. All other cells
/// stay as they are.
pub fn splat<R: RenderFunction, F: Filter<R::Weight>>(
    raster: &mut Raster<(R::Value, R::Weight)>,
    filter: &F,
    sample: &PixelSample,
    value: R::Value,
)
    requires
        old(raster).wf(),
        sample.wf(),
    ensures
        final(raster).wf(),
        final(raster).spec_rectangle() == old(raster).spec_rectangle(),
        forall|x: int, y: int|
            old(raster).spec_rectangle().spec_contains(x, y) && in_reach(
                *sample,
                filter.spec_reach(),
                x,
                y,
            ) ==> #[trigger] final(raster).cell(x, y) == spec_accumulate::<R>(
                old(raster).cell(x, y),
                value,
                filter.spec_evaluate(x as u32, y as u32, *sample),
            ),
        forall|x: int, y: int|
            old(raster).spec_rectangle().spec_contains(x, y) && !in_reach(
                *sample,
                filter.spec_reach(),
                x,
                y,
            ) ==> #[trigger] final(raster).cell(x, y) == old(raster).cell(x, y),
        final(raster)@.len() == old(raster)@.len(),
{
    proof {
        raster.lemma_len();
    }
    let ghost rect = raster.spec_rectangle();
    let reach = filter.reach();
    let window = splat_window(sample, reach, raster.rectangle());
    let mut cells = window.index_iter();
    loop
        invariant
            raster.wf(),
            old(raster).wf(),
            sample.wf(),
            raster.spec_rectangle() == rect,
            old(raster).spec_rectangle() == rect,
            reach == filter.spec_reach(),
            window.wf(),
            cells.wf(),
            cells.rectangle() == window,
            forall|x: int, y: int| #[trigger]
                window.spec_contains(x, y) <==> rect.spec_contains(x, y) && in_reach(
                    *sample,
                    reach,
                    x,
                    y,
                ),
            forall|x: int, y: int|
                window.spec_contains(x, y) && window.spec_linear_index(x, y) < cells.position()
                    ==> #[trigger] raster.cell(x, y) == spec_accumulate::<R>(
                    old(raster).cell(x, y),
                    value,
                    filter.spec_evaluate(x as u32, y as u32, *sample),
                ),
            forall|x: int, y: int|
                rect.spec_contains(x, y) && !(window.spec_contains(x, y) && window.spec_linear_index(
                    x,
                    y,
                ) < cells.position()) ==> #[trigger] raster.cell(x, y) == old(raster).cell(x, y),
        ensures
            cells.remaining() <= 0,
        decreases cells.remaining(),
    {
        let ghost position = cells.position();
        let ghost remaining = cells.remaining();
        proof {
            cells.lemma_position_bound();
        }
        let next = cells.next();
        proof {
            cells.lemma_position_bound();
        }
        match next {
            Some((x, y)) => {
                proof {
                    assert(remaining > 0);
                    lemma_index_point_inside(window, position);
                    assert(window.spec_contains(x as int, y as int));
                    assert forall|x2: int, y2: int|
                        window.spec_contains(x2, y2) && window.spec_linear_index(x2, y2)
                            == position implies x2 == x && y2 == y by {
                        crate::rectangle::lemma_index_point_of_cell(window, x2, y2);
                    }
                }
                let weight = filter.evaluate(x, y, sample);
                let cell = raster.get(x, y);
                assert(cell == old(raster).cell(x as int, y as int));
                let scaled = R::scale(value, weight);
                let updated = (R::add_values(cell.0, scaled), R::add_weights(cell.1, weight));
                raster.set(x, y, updated);
            },
            None => {
                break ;
            },
        }
    }
    proof {
        raster.lemma_len();
        assert forall|x: int, y: int|
            rect.spec_contains(x, y) && in_reach(
                *sample,
                filter.spec_reach(),
                x,
                y,
            ) implies #[trigger] raster.cell(x, y) == spec_accumulate::<R>(
            old(raster).cell(x, y),
            value,
            filter.spec_evaluate(x as u32, y as u32, *sample),
        ) by {
            assert(window.spec_contains(x, y));
            lemma_linear_index_bound(window, x, y);
        }
    }
}

/// One more contribution leads from one accumulation to the next.
pub proof fn lemma_accumulation_step<R: RenderFunction, F: Filter<R::Weight>>(
    before: Raster<(R::Value, R::Weight)>,
    after: Raster<(R::Value, R::Weight)>,
    filter: &F,
    start: Seq<(R::Value, R::Weight)>,
    contributions: Seq<(PixelSample, R::Value)>,
    sample: PixelSample,
    value: R::Value,
)
    requires
        is_accumulation_of::<R, F>(before, filter, start, contributions),
        after.spec_rectangle() == before.spec_rectangle(),
        after@.len() == before@.len(),
        forall|x: int, y: int|
            before.spec_rectangle().spec_contains(x, y) ==> #[trigger] after.cell(x, y)
                == spec_splat_cell::<R, F>(filter, before.cell(x, y), sample, value, x, y),
    ensures
        is_accumulation_of::<R, F>(after, filter, start, contributions.push((sample, value))),
{
    let longer = contributions.push((sample, value));
    assert(longer.drop_last() =~= contributions);
    assert(longer.last() == (sample, value));
    assert forall|x: int, y: int|
        after.spec_rectangle().spec_contains(x, y) implies #[trigger] after.cell(x, y)
        == spec_splat_all::<R, F>(
        filter,
        start[after.spec_rectangle().spec_linear_index(x, y)],
        longer,
        x,
        y,
    ) by {
        assert(before.cell(x, y) == spec_splat_all::<R, F>(
            filter,
            start[before.spec_rectangle().spec_linear_index(x, y)],
            contributions,
            x,
            y,
        ));
    }
}

/// A raster is the accumulation of no contributions on itself.
pub proof fn lemma_accumulation_start<R: RenderFunction, F: Filter<R::Weight>>(
    raster: Raster<(R::Value, R::Weight)>,
    filter: &F,
)
    ensures
        is_accumulation_of::<R, F>(raster, filter, raster@, Seq::empty()),
{
}

/// What `render_tile` says of the raster of a fresh tile of a sampler, said
/// of the sampler: the samples that the tile admits are those that the
/// sampler admits for the tile's rectangle.
pub proof fn lemma_tile_of_sampler<S: Sampler, R: RenderFunction, F: Filter<R::Weight>>(
    raster: Raster<(R::Value, R::Weight)>,
    tile: &S::Tile,
    sampler: &S,
    render_fn: &R,
    filter: &F,
    bounds: Rectangle,
    done: &S::Tile,
)
    requires
        done.wf(),
        done.spec_rectangle() == tile.spec_rectangle(),
        done.spec_samples_per_pixel() == tile.spec_samples_per_pixel(),
        done.remaining() == 0,
        raster.wf(),
        raster.spec_rectangle() == spec_accumulation_rectangle(
            tile.spec_rectangle(),
            filter.spec_reach(),
            bounds,
        ),
        tile.wf(),
        tile.emitted() == 0,
        tile.spec_samples_per_pixel() == sampler.spec_samples_per_pixel(),
        forall|k: int, sample: PixelSample| #[trigger]
            tile.admits(k, sample) == sampler.admits(tile.spec_rectangle(), k, sample),
        exists|start: Seq<(R::Value, R::Weight)>, contributions: Seq<(PixelSample, R::Value)>|
            #[trigger] is_tile_rendering::<S::Tile, R, F>(
                raster,
                tile,
                render_fn,
                filter,
                0,
                count_of(tile.remaining()),
                done.handed_out(),
                start,
                contributions,
            ),
    ensures
        is_rendered_tile::<S, R, F>(
            raster,
            sampler,
            render_fn,
            filter,
            tile.spec_rectangle(),
            bounds,
        ),
{
    tile.lemma_counts();
    let (start, contributions) = choose|
        start: Seq<(R::Value, R::Weight)>,
        contributions: Seq<(PixelSample, R::Value)>,
    | #[trigger]
        is_tile_rendering::<S::Tile, R, F>(
            raster,
            tile,
            render_fn,
            filter,
            0,
            count_of(tile.remaining()),
            done.handed_out(),
            start,
            contributions,
        );
    assert(done.handed_out() =~= samples_of::<R>(contributions));
    assert(is_handed_out_by::<S>(sampler, tile.spec_rectangle(), samples_of::<R>(contributions)));
    assert(is_tile_accumulation::<S, R, F>(
        raster,
        sampler,
        render_fn,
        filter,
        tile.spec_rectangle(),
        start,
        contributions,
    ));
}

/// Evaluates the function at every sample that the tile still has to hand
/// out and spreads the values over a fresh raster, which covers the tile
/// and its surroundings as far as the filter reaches within `bounds`. The
/// tile is left with nothing to come; the result holds, cell by cell, what
/// the samples that it has handed out meanwhile, one after the other, make
/// of a default cell.
pub fn render_tile<T: SamplerTile, R: RenderFunction, F: Filter<R::Weight>>(
    tile: &mut T,
    bounds: &Rectangle,
    render_fn: &R,
    filter: &F,
) -> (raster: Raster<(R::Value, R::Weight)>)
    requires
        old(tile).wf(),
        bounds.wf(),
        bounds.spec_size() <= usize::MAX,
    ensures
        final(tile).wf(),
        final(tile).spec_rectangle() == old(tile).spec_rectangle(),
        final(tile).spec_samples_per_pixel() == old(tile).spec_samples_per_pixel(),
        final(tile).remaining() == 0,
        final(tile).emitted() == old(tile).emitted() + count_of(old(tile).remaining()),
        final(tile).handed_out().subrange(0, old(tile).emitted()) == old(tile).handed_out(),
        forall|k: int, sample: PixelSample| #[trigger]
            final(tile).admits(k, sample) == old(tile).admits(k, sample),
        raster.wf(),
        raster.spec_rectangle() == spec_accumulation_rectangle(
            old(tile).spec_rectangle(),
            filter.spec_reach(),
            *bounds,
        ),
        exists|start: Seq<(R::Value, R::Weight)>, contributions: Seq<(PixelSample, R::Value)>|
            #[trigger] is_tile_rendering::<T, R, F>(
                raster,
                &*old(tile),
                render_fn,
                filter,
                old(tile).emitted(),
                count_of(old(tile).remaining()),
                final(tile).handed_out(),
                start,
                contributions,
            ),
{
    let ghost given = *tile;
    let ghost tile_rectangle = tile.spec_rectangle();
    let ghost samples_per_pixel = tile.spec_samples_per_pixel();
    let ghost first = tile.emitted();
    let ghost count = tile.remaining();
    proof {
        tile.lemma_counts();
    }
    let rectangle = accumulation_rectangle(tile.rectangle(), filter.reach(), bounds);
    let mut raster = Raster::<(R::Value, R::Weight)>::new(rectangle);
    let ghost start = raster@;
    let ghost mut contributions = Seq::<(PixelSample, R::Value)>::empty();
    proof {
        lemma_accumulation_start::<R, F>(raster, filter);
        assert(tile.handed_out().subrange(0, first) =~= given.handed_out());
    }
    loop
        invariant
            tile.wf(),
            tile.spec_rectangle() == tile_rectangle,
            raster.wf(),
            raster.spec_rectangle() == rectangle,
            is_blank::<R>(start),
            is_accumulation_of::<R, F>(raster, filter, start, contributions),
            tile.spec_samples_per_pixel() == samples_per_pixel,
            tile.emitted() == first + contributions.len(),
            first == given.handed_out().len(),
            tile.handed_out().subrange(0, first) == given.handed_out(),
            forall|k: int, sample: PixelSample| #[trigger]
                tile.admits(k, sample) == given.admits(k, sample),
            given.spec_rectangle() == tile_rectangle,
            given.spec_samples_per_pixel() == samples_per_pixel,
            are_samples_of_tile::<T, R>(
                &given,
                render_fn,
                first,
                contributions.len() as int,
                tile.handed_out(),
                contributions,
            ),
            count >= 0,
            contributions.len() + tile.remaining() == count,
            tile.remaining() >= 0,
        ensures
            tile.remaining() <= 0,
        decreases tile.remaining(),
    {
        let ghost handed_before = tile.handed_out();
        match tile.next() {
            Some(sample) => {
                let value = render_fn.evaluate(&sample);
                let ghost before = raster;
                splat::<R, F>(&mut raster, filter, &sample, value);
                proof {
                    lemma_accumulation_step::<R, F>(
                        before,
                        raster,
                        filter,
                        start,
                        contributions,
                        sample,
                        value,
                    );
                    contributions = contributions.push((sample, value));
                    assert(tile.handed_out() == handed_before.push(sample));
                    assert(tile.handed_out().subrange(0, first) =~= handed_before.subrange(
                        0,
                        first,
                    ));
                }
            },
            None => {
                break ;
            },
        }
    }
    proof {
        assert(is_tile_rendering::<T, R, F>(
            raster,
            &given,
            render_fn,
            filter,
            first,
            count_of(count),
            tile.handed_out(),
            start,
            contributions,
        ));
    }
    raster
}

/// Adds a tile's accumulation raster to the accumulation raster of the
/// whole image, cell by cell where the two overlap.
pub fn accumulate_tile<R: RenderFunction>(
    raster: &mut Raster<(R::Value, R::Weight)>,
    tile_raster: &Raster<(R::Value, R::Weight)>,
)
    requires
        old(raster).wf(),
        tile_raster.wf(),
    ensures
        final(raster).wf(),
        final(raster).spec_rectangle() == old(raster).spec_rectangle(),
        forall|x: int, y: int|
            old(raster).spec_rectangle().spec_contains(x, y)
                && tile_raster.spec_rectangle().spec_contains(x, y) ==> #[trigger] final(
                raster
            ).cell(x, y) == spec_combine::<R>(old(raster).cell(x, y), tile_raster.cell(x, y)),
        forall|x: int, y: int|
            old(raster).spec_rectangle().spec_contains(x, y)
                && !tile_raster.spec_rectangle().spec_contains(x, y) ==> #[trigger] final(
                raster
            ).cell(x, y) == old(raster).cell(x, y),
        final(raster)@.len() == old(raster)@.len(),
{
    proof {
        raster.lemma_len();
    }
    let combine = |a: (R::Value, R::Weight), b: (R::Value, R::Weight)| -> (r: (
        R::Value,
        R::Weight,
    ))
        ensures
            r == spec_combine::<R>(a, b),
        { (R::add_values(a.0, b.0), R::add_weights(a.1, b.1)) };
    raster.merge(tile_raster, combine);
    proof {
        raster.lemma_len();
    }
}

/// Turns accumulated sums into the final image: each cell becomes its sum
/// of values divided by its sum of weights, or the default value where the
/// sum of weights is zero.
pub fn normalize<R: RenderFunction>(raster: &Raster<(R::Value, R::Weight)>) -> (image: Raster<
    R::Value,
>)
    requires
        raster.wf(),
    ensures
        image.wf(),
        image.spec_rectangle() == raster.spec_rectangle(),
        image@.len() == raster@.len(),
        forall|i: int|
            0 <= i < raster@.len() ==> spec_resolves_to::<R>(raster@[i], #[trigger] image@[i]),
{
    let resolve = |cell: (R::Value, R::Weight)| -> (value: R::Value)
        ensures
            spec_resolves_to::<R>(cell, value),
        {
            if R::is_zero(cell.1) {
                <R::Value as Default>::default()
            } else {
                R::divide(cell.0, cell.1)
            }
        };
    raster.map(resolve)
}

} // verus!
