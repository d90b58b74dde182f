//! The reference renderer: one thread, one accumulation raster.

use crate::raster::Raster;
use crate::rectangle::{lemma_linear_index_bound, lemma_product_zero, Rectangle};
use crate::renderer::{
    are_samples_of, is_accumulation_of, is_blank, is_handed_out_by, is_image_of,
    lemma_accumulation_start, lemma_accumulation_step, lemma_single_tile, normalize, samples_of,
    splat, Filter, RenderFunction, Renderer,
};
use crate::sampler::{PixelSample, Sampler, SamplerTile, SamplerTiles};
use vstd::prelude::*;

verus! {

/// Renders on the calling thread, spreading every sample directly over one
/// accumulation raster that covers the whole image.
pub struct SimpleRenderer {}

impl SimpleRenderer {
    pub fn new() -> (r: SimpleRenderer) {
        SimpleRenderer {  }
    }
}

impl Renderer for SimpleRenderer {
    /// The image that the samples of the sampler's single tile over its
    /// whole rectangle give.
    fn render<S: Sampler, R: RenderFunction, F: Filter<R::Weight>>(
        &self,
        sampler: &S,
        render_fn: &R,
        filter: &F,
    ) -> (raster: Raster<R::Value>)
        ensures
            exists|start: Seq<(R::Value, R::Weight)>, contributions: Seq<(PixelSample, R::Value)>|
                #[trigger] is_image_of::<S, R, F>(
                    raster,
                    sampler,
                    render_fn,
                    filter,
                    start,
                    contributions,
                ),
    {
        let rectangle = *sampler.rectangle();
        let mut sums = Raster::<(R::Value, R::Weight)>::new(rectangle);
        let mut tiles = sampler.tiles(1, 1);
        let ghost samples_per_pixel = sampler.spec_samples_per_pixel();
        let ghost size = rectangle.spec_size();
        let ghost start = sums@;
        let ghost mut contributions = Seq::<(PixelSample, R::Value)>::empty();
        let ghost mut drained: Option<S::Tile> = None;
        proof {
            lemma_accumulation_start::<R, F>(sums, filter);
            tiles.lemma_counts();
            lemma_product_zero(rectangle.spec_width(), rectangle.spec_height());
            lemma_product_zero(tiles.count_x(), tiles.count_y());
            assert(0 * samples_per_pixel == 0);
            if !rectangle.spec_is_empty() {
                assert(tiles.count_x() == 1 && tiles.count_y() == 1);
                assert(tiles.count_x() * tiles.count_y() == 1) by (nonlinear_arith)
                    requires
                        tiles.count_x() == 1,
                        tiles.count_y() == 1,
                ;
            }
        }
        loop
            invariant
                tiles.wf(),
                tiles.spec_rectangle() == rectangle,
                tiles.spec_samples_per_pixel() == samples_per_pixel,
                rectangle.wf(),
                size == rectangle.spec_size(),
                rectangle.spec_is_empty() ==> tiles.remaining() == 0 && size == 0,
                !rectangle.spec_is_empty() ==> tiles.count_x() == 1 && tiles.count_y() == 1 && 0
                    <= tiles.position() <= 1 && tiles.remaining() == 1 - tiles.position(),
                sums.wf(),
                sums.spec_rectangle() == rectangle,
                start.len() == size,
                is_blank::<R>(start),
                is_accumulation_of::<R, F>(sums, filter, start, contributions),
                tiles.remaining() > 0 ==> contributions.len() == 0,
                tiles.remaining() <= 0 ==> contributions.len() == size * samples_per_pixel,
                tiles.remaining() <= 0 && !rectangle.spec_is_empty() ==> drained.is_some()
                    && drained.unwrap().wf() && drained.unwrap().spec_rectangle() == rectangle
                    && drained.unwrap().spec_samples_per_pixel() == samples_per_pixel
                    && drained.unwrap().remaining() == 0 && drained.unwrap().handed_out()
                    == samples_of::<R>(contributions),
                rectangle == sampler.spec_rectangle(),
                samples_per_pixel == sampler.spec_samples_per_pixel(),
                forall|tile_rectangle: Rectangle, k: int, sample: PixelSample| #[trigger]
                    tiles.admits(tile_rectangle, k, sample) == sampler.admits(
                        tile_rectangle,
                        k,
                        sample,
                    ),
                are_samples_of::<S, R>(
                    sampler,
                    render_fn,
                    rectangle,
                    0,
                    contributions.len() as int,
                    contributions,
                ),
            ensures
                tiles.remaining() <= 0,
            decreases tiles.remaining(),
        {
            match tiles.next() {
                Some(tile) => {
                    let mut tile = tile;
                    proof {
                        lemma_single_tile(rectangle);
                        tile.lemma_counts();
                        assert(tile.handed_out() =~= samples_of::<R>(contributions));
                    }
                    loop
                        invariant
                            tile.wf(),
                            tile.spec_rectangle() == rectangle,
                            tile.spec_samples_per_pixel() == samples_per_pixel,
                            sums.wf(),
                            sums.spec_rectangle() == rectangle,
                            is_accumulation_of::<R, F>(sums, filter, start, contributions),
                            contributions.len() == tile.emitted(),
                            tile.handed_out() == samples_of::<R>(contributions),
                            rectangle == sampler.spec_rectangle(),
                            samples_per_pixel == sampler.spec_samples_per_pixel(),
                            forall|k: int, sample: PixelSample| #[trigger]
                                tile.admits(k, sample) == sampler.admits(rectangle, k, sample),
                            are_samples_of::<S, R>(
                                sampler,
                                render_fn,
                                rectangle,
                                0,
                                contributions.len() as int,
                                contributions,
                            ),
                        ensures
                            tile.remaining() <= 0,
                        decreases tile.remaining(),
                    {
                        match tile.next() {
                            Some(sample) => {
                                let value = render_fn.evaluate(&sample);
                                let ghost before = sums;
                                splat::<R, F>(&mut sums, filter, &sample, value);
                                proof {
                                    lemma_accumulation_step::<R, F>(
                                        before,
                                        sums,
                                        filter,
                                        start,
                                        contributions,
                                        sample,
                                        value,
                                    );
                                    contributions = contributions.push((sample, value));
                                    assert(tile.handed_out() =~= samples_of::<R>(contributions));
                                }
                            },
                            None => {
                                break ;
                            },
                        }
                    }
                    proof {
                        tile.lemma_counts();
                        drained = Some(tile);
                    }
                },
                None => {
                    break ;
                },
            }
        }
        let image = normalize::<R>(&sums);
        proof {
            sums.lemma_len();
            assert forall|x: int, y: int|
                rectangle.spec_contains(x, y) implies crate::renderer::spec_resolves_to::<R>(
                sums.cell(x, y),
                #[trigger] image.cell(x, y),
            ) by {
                lemma_linear_index_bound(rectangle, x, y);
            }
            if !rectangle.spec_is_empty() {
                assert(drained.unwrap().handed_out() == samples_of::<R>(contributions));
                assert(is_handed_out_by::<S>(sampler, rectangle, samples_of::<R>(contributions)));
            }
            assert(is_image_of::<S, R, F>(image, sampler, render_fn, filter, start, contributions));
        }
        image
    }
}

} // verus!
