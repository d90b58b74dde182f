//! What the renderers give where the arithmetic on values and weights is
//! exact: which pixels a constant function's image holds, that rendering in
//! one piece and tile by tile agree on it, that pixels beyond a filter's
//! reach can be skipped, and that the order in which tile rasters are added
//! up does not matter.

use crate::raster::Raster;
use crate::rectangle::{lemma_linear_index_bound, Rectangle};
use crate::renderer::{
    in_reach, is_image_of, is_rendered_tile, is_tile_accumulation, is_tiled_image_of,
    spec_accumulate, spec_combine, spec_merge_all, spec_resolves_to, spec_splat_all,
    spec_splat_cell, Filter, RenderFunction,
};
use crate::sampler::{PixelSample, Sampler};
use crate::tiling::grid_tile;
use vstd::prelude::*;

verus! {

/// Whether the arithmetic is exact where the value `v` is concerned:
/// scaling `v` distributes over the sum of weights, and dividing `v` scaled
/// by a weight that is not zero by that weight gives `v` back.
pub open spec fn is_exact_for<R: RenderFunction>(v: R::Value) -> bool {
    &&& forall|a: R::Weight, b: R::Weight| #[trigger]
        R::spec_add_values(R::spec_scale(v, a), R::spec_scale(v, b)) == R::spec_scale(
            v,
            R::spec_add_weights(a, b),
        )
    &&& forall|w: R::Weight|
        !R::spec_is_zero(w) ==> #[trigger] R::spec_divide(R::spec_scale(v, w), w) == v
}

/// Whether the cell's sum of values is `v` scaled by its sum of weights.
pub open spec fn holds_constant<R: RenderFunction>(cell: (R::Value, R::Weight), v: R::Value) -> bool {
    cell.0 == R::spec_scale(v, cell.1)
}

/// Whether the function gives `v` for every sample.
pub open spec fn is_constant<R: RenderFunction>(render_fn: &R, v: R::Value) -> bool {
    forall|sample: PixelSample, value: R::Value| #[trigger]
        call_ensures(R::evaluate, (render_fn, &sample), value) ==> value == v
}

/// Whether every default cell has as its sum of values `v` scaled by its
/// sum of weights, as a cell of zeros has.
pub open spec fn blank_holds_constant<R: RenderFunction>(v: R::Value) -> bool {
    forall|cell: (R::Value, R::Weight)| #[trigger]
        call_ensures(<(R::Value, R::Weight) as Default>::default, (), cell) ==> holds_constant::<
            R,
        >(cell, v)
}

/// Whether there is only one default value.
pub open spec fn default_is_one_value<R: RenderFunction>() -> bool {
    forall|p: R::Value, q: R::Value|
        #[trigger] call_ensures(<R::Value as Default>::default, (), p) && #[trigger] call_ensures(
            <R::Value as Default>::default,
            (),
            q,
        ) ==> p == q
}

/// Whether the filter keeps what a reconstruction kernel owes: for every
/// pixel beyond its reach of a sample its weight is zero.
pub open spec fn is_zero_beyond_reach<R: RenderFunction, F: Filter<R::Weight>>(filter: &F) -> bool {
    forall|x: int, y: int, sample: PixelSample|
        !in_reach(sample, filter.spec_reach(), x, y) ==> R::spec_is_zero(
            #[trigger] filter.spec_evaluate(x as u32, y as u32, sample),
        )
}

/// Whether a contribution of weight zero leaves a cell as it is.
pub open spec fn zero_weight_adds_nothing<R: RenderFunction>() -> bool {
    forall|cell: (R::Value, R::Weight), value: R::Value, weight: R::Weight|
        R::spec_is_zero(weight) ==> #[trigger] spec_accumulate::<R>(cell, value, weight) == cell
}

/// Whether the sums of values and of weights do not depend on the order of
/// what is added.
pub open spec fn sums_are_unordered<R: RenderFunction>() -> bool {
    &&& forall|a: R::Value, b: R::Value, c: R::Value| #[trigger]
        R::spec_add_values(R::spec_add_values(a, b), c) == R::spec_add_values(
            R::spec_add_values(a, c),
            b,
        )
    &&& forall|a: R::Weight, b: R::Weight, c: R::Weight| #[trigger]
        R::spec_add_weights(R::spec_add_weights(a, b), c) == R::spec_add_weights(
            R::spec_add_weights(a, c),
            b,
        )
}

/// Skipping the pixels beyond a filter's reach loses nothing: where the
/// filter's weight is zero beyond its reach and a weight of zero adds
/// nothing, spreading a sample over the pixels within reach gives every
/// cell what spreading it over all pixels would.
pub proof fn lemma_skipping_beyond_reach<R: RenderFunction, F: Filter<R::Weight>>(
    filter: &F,
    cell: (R::Value, R::Weight),
    sample: PixelSample,
    value: R::Value,
    x: int,
    y: int,
)
    requires
        is_zero_beyond_reach::<R, F>(filter),
        zero_weight_adds_nothing::<R>(),
    ensures
        spec_splat_cell::<R, F>(filter, cell, sample, value, x, y) == spec_accumulate::<R>(
            cell,
            value,
            filter.spec_evaluate(x as u32, y as u32, sample),
        ),
{
    if !in_reach(sample, filter.spec_reach(), x, y) {
        let weight = filter.spec_evaluate(x as u32, y as u32, sample);
        assert(R::spec_is_zero(weight));
        assert(spec_accumulate::<R>(cell, value, weight) == cell);
    }
}

/// Spreading samples that all have the value `v` keeps a cell's sum of
/// values at `v` scaled by its sum of weights.
pub proof fn lemma_splat_all_constant<R: RenderFunction, F: Filter<R::Weight>>(
    filter: &F,
    start: (R::Value, R::Weight),
    contributions: Seq<(PixelSample, R::Value)>,
    x: int,
    y: int,
    v: R::Value,
)
    requires
        is_exact_for::<R>(v),
        holds_constant::<R>(start, v),
        forall|k: int| 0 <= k < contributions.len() ==> (#[trigger] contributions[k]).1 == v,
    ensures
        holds_constant::<R>(spec_splat_all::<R, F>(filter, start, contributions, x, y), v),
    decreases contributions.len(),
{
    if contributions.len() > 0 {
        let earlier = contributions.drop_last();
        assert forall|k: int| 0 <= k < earlier.len() implies (#[trigger] earlier[k]).1 == v by {
            assert(earlier[k] == contributions[k]);
        }
        lemma_splat_all_constant::<R, F>(filter, start, earlier, x, y, v);
        let before = spec_splat_all::<R, F>(filter, start, earlier, x, y);
        let last = contributions.last();
        assert(last == contributions[contributions.len() - 1]);
        let weight = filter.spec_evaluate(x as u32, y as u32, last.0);
        assert(R::spec_add_values(R::spec_scale(v, before.1), R::spec_scale(v, weight))
            == R::spec_scale(v, R::spec_add_weights(before.1, weight)));
        assert(holds_constant::<R>(
            spec_splat_cell::<R, F>(filter, before, last.0, last.1, x, y),
            v,
        ));
    }
}

/// Adding up tile rasters whose cells all have `v` scaled by their sum of
/// weights as their sum of values keeps a cell that way.
pub proof fn lemma_merge_all_constant<R: RenderFunction>(
    start: (R::Value, R::Weight),
    tile_rasters: Seq<Raster<(R::Value, R::Weight)>>,
    x: int,
    y: int,
    v: R::Value,
)
    requires
        is_exact_for::<R>(v),
        holds_constant::<R>(start, v),
        forall|t: int|
            0 <= t < tile_rasters.len() && (#[trigger] tile_rasters[t]).spec_rectangle().spec_contains(
                x,
                y,
            ) ==> holds_constant::<R>(tile_rasters[t].cell(x, y), v),
    ensures
        holds_constant::<R>(spec_merge_all::<R>(start, tile_rasters, x, y), v),
    decreases tile_rasters.len(),
{
    if tile_rasters.len() > 0 {
        let earlier = tile_rasters.drop_last();
        assert forall|t: int|
            0 <= t < earlier.len() && (#[trigger] earlier[t]).spec_rectangle().spec_contains(
                x,
                y,
            ) implies holds_constant::<R>(earlier[t].cell(x, y), v) by {
            assert(earlier[t] == tile_rasters[t]);
        }
        lemma_merge_all_constant::<R>(start, earlier, x, y, v);
        let before = spec_merge_all::<R>(start, earlier, x, y);
        let last = tile_rasters.last();
        assert(last == tile_rasters[tile_rasters.len() - 1]);
        if last.spec_rectangle().spec_contains(x, y) {
            let cell = last.cell(x, y);
            assert(holds_constant::<R>(cell, v));
            assert(R::spec_add_values(R::spec_scale(v, before.1), R::spec_scale(v, cell.1))
                == R::spec_scale(v, R::spec_add_weights(before.1, cell.1)));
        }
    }
}

/// A cell whose sum of values is `v` scaled by its sum of weights resolves
/// to `v` where its sum of weights is not zero, and to a default value
/// where it is.
pub proof fn lemma_resolve_constant<R: RenderFunction>(
    cell: (R::Value, R::Weight),
    value: R::Value,
    v: R::Value,
)
    requires
        is_exact_for::<R>(v),
        holds_constant::<R>(cell, v),
        spec_resolves_to::<R>(cell, value),
    ensures
        !R::spec_is_zero(cell.1) ==> value == v,
        R::spec_is_zero(cell.1) ==> call_ensures(<R::Value as Default>::default, (), value),
{
    if !R::spec_is_zero(cell.1) {
        assert(R::spec_divide(R::spec_scale(v, cell.1), cell.1) == v);
    }
}

/// The sums that rendering in one piece has accumulated for the pixel
/// `(x, y)` before resolving it.
pub open spec fn image_sums<S: Sampler, R: RenderFunction, F: Filter<R::Weight>>(
    sampler: &S,
    filter: &F,
    start: Seq<(R::Value, R::Weight)>,
    contributions: Seq<(PixelSample, R::Value)>,
    x: int,
    y: int,
) -> (R::Value, R::Weight) {
    spec_splat_all::<R, F>(
        filter,
        start[sampler.spec_rectangle().spec_linear_index(x, y)],
        contributions,
        x,
        y,
    )
}

/// The sums that rendering tile by tile has accumulated for the pixel
/// `(x, y)` before resolving it.
pub open spec fn tiled_image_sums<S: Sampler, R: RenderFunction>(
    sampler: &S,
    start: Seq<(R::Value, R::Weight)>,
    tile_rasters: Seq<Raster<(R::Value, R::Weight)>>,
    x: int,
    y: int,
) -> (R::Value, R::Weight) {
    spec_merge_all::<R>(
        start[sampler.spec_rectangle().spec_linear_index(x, y)],
        tile_rasters,
        x,
        y,
    )
}

/// In exact arithmetic, the image of a function that is `v` everywhere,
/// rendered in one piece, is `v` at every pixel that weight has reached and
/// a default value at every other pixel, whatever the sampler and the
/// filter are.
pub proof fn lemma_constant_image<S: Sampler, R: RenderFunction, F: Filter<R::Weight>>(
    image: Raster<R::Value>,
    sampler: &S,
    render_fn: &R,
    filter: &F,
    start: Seq<(R::Value, R::Weight)>,
    contributions: Seq<(PixelSample, R::Value)>,
    v: R::Value,
)
    requires
        is_image_of::<S, R, F>(image, sampler, render_fn, filter, start, contributions),
        is_constant::<R>(render_fn, v),
        is_exact_for::<R>(v),
        blank_holds_constant::<R>(v),
    ensures
        forall|x: int, y: int|
            sampler.spec_rectangle().spec_contains(x, y) ==> if R::spec_is_zero(
                image_sums::<S, R, F>(sampler, filter, start, contributions, x, y).1,
            ) {
                call_ensures(<R::Value as Default>::default, (), #[trigger] image.cell(x, y))
            } else {
                image.cell(x, y) == v
            },
{
    let rectangle = sampler.spec_rectangle();
    assert forall|k: int| 0 <= k < contributions.len() implies (#[trigger] contributions[k]).1
        == v by {
        assert(call_ensures(R::evaluate, (render_fn, &contributions[k].0), contributions[k].1));
    }
    assert forall|x: int, y: int| rectangle.spec_contains(x, y) implies if R::spec_is_zero(
        image_sums::<S, R, F>(sampler, filter, start, contributions, x, y).1,
    ) {
        call_ensures(<R::Value as Default>::default, (), #[trigger] image.cell(x, y))
    } else {
        image.cell(x, y) == v
    } by {
        lemma_linear_index_bound(rectangle, x, y);
        let first = start[rectangle.spec_linear_index(x, y)];
        lemma_splat_all_constant::<R, F>(filter, first, contributions, x, y, v);
        lemma_resolve_constant::<R>(
            spec_splat_all::<R, F>(filter, first, contributions, x, y),
            image.cell(x, y),
            v,
        );
    }
}

/// Every cell of a rendered tile has as its sum of values `v` scaled by its
/// sum of weights, where the function is `v` everywhere and the arithmetic
/// is exact.
pub proof fn lemma_constant_tile<S: Sampler, R: RenderFunction, F: Filter<R::Weight>>(
    raster: Raster<(R::Value, R::Weight)>,
    sampler: &S,
    render_fn: &R,
    filter: &F,
    tile_rectangle: Rectangle,
    bounds: Rectangle,
    x: int,
    y: int,
    v: R::Value,
)
    requires
        is_rendered_tile::<S, R, F>(raster, sampler, render_fn, filter, tile_rectangle, bounds),
        raster.spec_rectangle().spec_contains(x, y),
        is_constant::<R>(render_fn, v),
        is_exact_for::<R>(v),
        blank_holds_constant::<R>(v),
    ensures
        holds_constant::<R>(raster.cell(x, y), v),
{
    let (start, contributions) = choose|
        start: Seq<(R::Value, R::Weight)>,
        contributions: Seq<(PixelSample, R::Value)>,
    | #[trigger]
        is_tile_accumulation::<S, R, F>(
            raster,
            sampler,
            render_fn,
            filter,
            tile_rectangle,
            start,
            contributions,
        );
    assert forall|k: int| 0 <= k < contributions.len() implies (#[trigger] contributions[k]).1
        == v by {
        assert(call_ensures(R::evaluate, (render_fn, &contributions[k].0), contributions[k].1));
    }
    raster.lemma_len();
    lemma_linear_index_bound(raster.spec_rectangle(), x, y);
    let first = start[raster.spec_rectangle().spec_linear_index(x, y)];
    lemma_splat_all_constant::<R, F>(filter, first, contributions, x, y, v);
}

/// In exact arithmetic, the image of a function that is `v` everywhere,
/// rendered tile by tile, is `v` at every pixel that weight has reached and
/// a default value at every other pixel, whatever the sampler, the filter
/// and the grid of tiles are.
pub proof fn lemma_constant_tiled_image<S: Sampler, R: RenderFunction, F: Filter<R::Weight>>(
    image: Raster<R::Value>,
    sampler: &S,
    render_fn: &R,
    filter: &F,
    count_x: int,
    count_y: int,
    start: Seq<(R::Value, R::Weight)>,
    tile_rasters: Seq<Raster<(R::Value, R::Weight)>>,
    v: R::Value,
)
    requires
        is_tiled_image_of::<S, R, F>(
            image,
            sampler,
            render_fn,
            filter,
            count_x,
            count_y,
            start,
            tile_rasters,
        ),
        is_constant::<R>(render_fn, v),
        is_exact_for::<R>(v),
        blank_holds_constant::<R>(v),
    ensures
        forall|x: int, y: int|
            sampler.spec_rectangle().spec_contains(x, y) ==> if R::spec_is_zero(
                tiled_image_sums::<S, R>(sampler, start, tile_rasters, x, y).1,
            ) {
                call_ensures(<R::Value as Default>::default, (), #[trigger] image.cell(x, y))
            } else {
                image.cell(x, y) == v
            },
{
    let rectangle = sampler.spec_rectangle();
    assert forall|x: int, y: int| rectangle.spec_contains(x, y) implies if R::spec_is_zero(
        tiled_image_sums::<S, R>(sampler, start, tile_rasters, x, y).1,
    ) {
        call_ensures(<R::Value as Default>::default, (), #[trigger] image.cell(x, y))
    } else {
        image.cell(x, y) == v
    } by {
        lemma_linear_index_bound(rectangle, x, y);
        let first = start[rectangle.spec_linear_index(x, y)];
        assert forall|t: int|
            0 <= t < tile_rasters.len() && (#[trigger] tile_rasters[t]).spec_rectangle().spec_contains(
                x,
                y,
            ) implies holds_constant::<R>(tile_rasters[t].cell(x, y), v) by {
            lemma_constant_tile::<S, R, F>(
                tile_rasters[t],
                sampler,
                render_fn,
                filter,
                grid_tile(rectangle, count_x, count_y, t),
                rectangle,
                x,
                y,
                v,
            );
        }
        lemma_merge_all_constant::<R>(first, tile_rasters, x, y, v);
        lemma_resolve_constant::<R>(
            spec_merge_all::<R>(first, tile_rasters, x, y),
            image.cell(x, y),
            v,
        );
    }
}

/// In exact arithmetic, rendering a function that is `v` everywhere in one
/// piece and rendering it tile by tile give the same pixel wherever weight
/// has reached the pixel in both or in neither: `v` in the one case, the
/// default value in the other.
pub proof fn lemma_renderers_agree<S: Sampler, R: RenderFunction, F: Filter<R::Weight>>(
    whole: Raster<R::Value>,
    tiled: Raster<R::Value>,
    sampler: &S,
    render_fn: &R,
    filter: &F,
    start: Seq<(R::Value, R::Weight)>,
    contributions: Seq<(PixelSample, R::Value)>,
    count_x: int,
    count_y: int,
    tiled_start: Seq<(R::Value, R::Weight)>,
    tile_rasters: Seq<Raster<(R::Value, R::Weight)>>,
    v: R::Value,
)
    requires
        is_image_of::<S, R, F>(whole, sampler, render_fn, filter, start, contributions),
        is_tiled_image_of::<S, R, F>(
            tiled,
            sampler,
            render_fn,
            filter,
            count_x,
            count_y,
            tiled_start,
            tile_rasters,
        ),
        is_constant::<R>(render_fn, v),
        is_exact_for::<R>(v),
        blank_holds_constant::<R>(v),
        default_is_one_value::<R>(),
    ensures
        forall|x: int, y: int|
            sampler.spec_rectangle().spec_contains(x, y) && R::spec_is_zero(
                image_sums::<S, R, F>(sampler, filter, start, contributions, x, y).1,
            ) == R::spec_is_zero(
                tiled_image_sums::<S, R>(sampler, tiled_start, tile_rasters, x, y).1,
            ) ==> #[trigger] whole.cell(x, y) == #[trigger] tiled.cell(x, y),
{
    lemma_constant_image::<S, R, F>(whole, sampler, render_fn, filter, start, contributions, v);
    lemma_constant_tiled_image::<S, R, F>(
        tiled,
        sampler,
        render_fn,
        filter,
        count_x,
        count_y,
        tiled_start,
        tile_rasters,
        v,
    );
    assert forall|x: int, y: int|
        sampler.spec_rectangle().spec_contains(x, y) && R::spec_is_zero(
            image_sums::<S, R, F>(sampler, filter, start, contributions, x, y).1,
        ) == R::spec_is_zero(
            tiled_image_sums::<S, R>(sampler, tiled_start, tile_rasters, x, y).1,
        ) implies #[trigger] whole.cell(x, y) == #[trigger] tiled.cell(x, y) by {
        let p = whole.cell(x, y);
        let q = tiled.cell(x, y);
        if R::spec_is_zero(image_sums::<S, R, F>(sampler, filter, start, contributions, x, y).1) {
            assert(call_ensures(<R::Value as Default>::default, (), p));
            assert(call_ensures(<R::Value as Default>::default, (), q));
        }
    }
}

/// The order in which two tile rasters are added to a cell does not matter
/// where the sums do not depend on the order of what is added.
pub proof fn lemma_merge_order<R: RenderFunction>(
    start: (R::Value, R::Weight),
    tile_rasters: Seq<Raster<(R::Value, R::Weight)>>,
    first: Raster<(R::Value, R::Weight)>,
    second: Raster<(R::Value, R::Weight)>,
    x: int,
    y: int,
)
    requires
        sums_are_unordered::<R>(),
    ensures
        spec_merge_all::<R>(start, tile_rasters.push(first).push(second), x, y)
            == spec_merge_all::<R>(start, tile_rasters.push(second).push(first), x, y),
{
    let one = tile_rasters.push(first);
    let other = tile_rasters.push(second);
    assert(one.push(second).drop_last() =~= one);
    assert(other.push(first).drop_last() =~= other);
    assert(one.drop_last() =~= tile_rasters);
    assert(other.drop_last() =~= tile_rasters);
    assert(one.push(second).last() == second);
    assert(other.push(first).last() == first);
    assert(one.last() == first);
    assert(other.last() == second);
    let before = spec_merge_all::<R>(start, tile_rasters, x, y);
    let with_first = spec_merge_all::<R>(start, one, x, y);
    let with_second = spec_merge_all::<R>(start, other, x, y);
    assert(with_first == if first.spec_rectangle().spec_contains(x, y) {
        spec_combine::<R>(before, first.cell(x, y))
    } else {
        before
    });
    assert(with_second == if second.spec_rectangle().spec_contains(x, y) {
        spec_combine::<R>(before, second.cell(x, y))
    } else {
        before
    });
    assert(spec_merge_all::<R>(start, one.push(second), x, y) == if second.spec_rectangle().spec_contains(
        x,
        y,
    ) {
        spec_combine::<R>(with_first, second.cell(x, y))
    } else {
        with_first
    });
    assert(spec_merge_all::<R>(start, other.push(first), x, y) == if first.spec_rectangle().spec_contains(
        x,
        y,
    ) {
        spec_combine::<R>(with_second, first.cell(x, y))
    } else {
        with_second
    });
    if first.spec_rectangle().spec_contains(x, y) && second.spec_rectangle().spec_contains(x, y) {
        let a = first.cell(x, y);
        let b = second.cell(x, y);
        assert(R::spec_add_values(R::spec_add_values(before.0, a.0), b.0) == R::spec_add_values(
            R::spec_add_values(before.0, b.0),
            a.0,
        ));
        assert(R::spec_add_weights(R::spec_add_weights(before.1, a.1), b.1)
            == R::spec_add_weights(R::spec_add_weights(before.1, b.1), a.1));
        assert(spec_combine::<R>(spec_combine::<R>(before, a), b) == spec_combine::<R>(
            spec_combine::<R>(before, b),
            a,
        ));
    }
}

/// The sums of a cell do not depend on the order in which the tile rasters
/// arrive: exchanging two rasters that follow one another anywhere in the
/// sequence leaves the sums as they are, and every other order comes about
/// by such exchanges.
pub proof fn lemma_merge_order_anywhere<R: RenderFunction>(
    start: (R::Value, R::Weight),
    before: Seq<Raster<(R::Value, R::Weight)>>,
    first: Raster<(R::Value, R::Weight)>,
    second: Raster<(R::Value, R::Weight)>,
    after: Seq<Raster<(R::Value, R::Weight)>>,
    x: int,
    y: int,
)
    requires
        sums_are_unordered::<R>(),
    ensures
        spec_merge_all::<R>(start, before.push(first).push(second) + after, x, y)
            == spec_merge_all::<R>(start, before.push(second).push(first) + after, x, y),
    decreases after.len(),
{
    let one = before.push(first).push(second);
    let other = before.push(second).push(first);
    if after.len() == 0 {
        assert(one + after =~= one);
        assert(other + after =~= other);
        lemma_merge_order::<R>(start, before, first, second, x, y);
    } else {
        let shorter = after.drop_last();
        lemma_merge_order_anywhere::<R>(start, before, first, second, shorter, x, y);
        assert((one + after).drop_last() =~= one + shorter);
        assert((other + after).drop_last() =~= other + shorter);
        assert((one + after).last() == after.last());
        assert((other + after).last() == after.last());
    }
}

} // verus!
