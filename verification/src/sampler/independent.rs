//! Independent sampling: a fixed number of samples per pixel, each placed
//! at random in the whole pixel.

use crate::rectangle::{
    lemma_index_point_inside, lemma_size_nonnegative, Rectangle, RectangleIndexIterator,
};
use crate::sampler::{
    is_pixel_sample, next_random, tile_generator, PixelSample, Sampler, SamplerTile, SamplerTiles,
};
use crate::tiling::RectangleTileIterator;
use rand_xoshiro::Xoshiro128Plus;
use vstd::arithmetic::div_mod::lemma_fundamental_div_mod_converse;
use vstd::prelude::*;

verus! {

/// A sampler that places `samples_per_pixel` samples in every pixel of its
/// rectangle, each at a random position in the pixel.
#[derive(Clone, Debug)]
pub struct IndependentSampler {
    rectangle: Rectangle,
    samples_per_pixel: u32,
}

/// The tiles of an `IndependentSampler`, in row-major order of the grid.
#[derive(Clone, Debug)]
pub struct IndependentSamplerTileIterator {
    rect_iter: RectangleTileIterator,
    samples_per_pixel: u32,
}

/// One tile of an `IndependentSampler`.
#[derive(Clone)]
pub struct IndependentSamplerTile {
    tile_rect: Rectangle,
    tile_rect_iter: RectangleIndexIterator,
    samples_per_pixel: u32,
    pixel_sample_count: u32,
    pixel_x: u32,
    pixel_y: u32,
    rng: Xoshiro128Plus,
    handed: Ghost<Seq<PixelSample>>,
}

impl IndependentSampler {
    pub fn new(rectangle: &Rectangle, samples_per_pixel: u32) -> (s: IndependentSampler)
        requires
            rectangle.wf(),
            samples_per_pixel > 0,
        ensures
            s.wf(),
            s.spec_rectangle() == *rectangle,
            s.spec_samples_per_pixel() == samples_per_pixel,
    {
        IndependentSampler { rectangle: *rectangle, samples_per_pixel }
    }
}

impl Sampler for IndependentSampler {
    type Tile = IndependentSamplerTile;

    type TileIter = IndependentSamplerTileIterator;

    closed spec fn wf(&self) -> bool {
        self.rectangle.wf() && self.samples_per_pixel > 0
    }

    closed spec fn spec_rectangle(&self) -> Rectangle {
        self.rectangle
    }

    closed spec fn spec_samples_per_pixel(&self) -> int {
        self.samples_per_pixel as int
    }

    open spec fn admits(&self, tile_rectangle: Rectangle, k: int, sample: PixelSample) -> bool {
        is_pixel_sample(tile_rectangle, self.spec_samples_per_pixel(), k, sample)
    }

    fn rectangle(&self) -> (r: &Rectangle) {
        &self.rectangle
    }

    fn tiles(&self, tile_count_x: u32, tile_count_y: u32) -> (tiles:
        IndependentSamplerTileIterator) {
        IndependentSamplerTileIterator::new(
            &self.rectangle,
            self.samples_per_pixel,
            tile_count_x,
            tile_count_y,
        )
    }
}

impl IndependentSamplerTileIterator {
    pub fn new(
        sampler_rect: &Rectangle,
        samples_per_pixel: u32,
        tile_count_x: u32,
        tile_count_y: u32,
    ) -> (tiles: IndependentSamplerTileIterator)
        requires
            sampler_rect.wf(),
            samples_per_pixel > 0,
            tile_count_x > 0,
            tile_count_y > 0,
        ensures
            tiles.wf(),
            tiles.spec_rectangle() == *sampler_rect,
            tiles.spec_samples_per_pixel() == samples_per_pixel,
            tiles.count_x() == sampler_rect.spec_tile_count_x(tile_count_x as int),
            tiles.count_y() == sampler_rect.spec_tile_count_y(tile_count_y as int),
            tiles.position() == 0,
    {
        IndependentSamplerTileIterator {
            rect_iter: sampler_rect.tile_iter(tile_count_x, tile_count_y),
            samples_per_pixel,
        }
    }
}

impl SamplerTiles for IndependentSamplerTileIterator {
    type Tile = IndependentSamplerTile;

    closed spec fn wf(&self) -> bool {
        &&& self.rect_iter.wf()
        &&& self.samples_per_pixel > 0
    }

    closed spec fn spec_rectangle(&self) -> Rectangle {
        self.rect_iter.rectangle()
    }

    closed spec fn spec_samples_per_pixel(&self) -> int {
        self.samples_per_pixel as int
    }

    closed spec fn count_x(&self) -> int {
        self.rect_iter.count_x()
    }

    closed spec fn count_y(&self) -> int {
        self.rect_iter.count_y()
    }

    closed spec fn position(&self) -> int {
        self.rect_iter.position()
    }

    closed spec fn remaining(&self) -> int {
        self.rect_iter.remaining()
    }

    open spec fn admits(&self, tile_rectangle: Rectangle, k: int, sample: PixelSample) -> bool {
        is_pixel_sample(tile_rectangle, self.spec_samples_per_pixel(), k, sample)
    }

    proof fn lemma_counts(&self) {
        self.rect_iter.lemma_position_bound();
    }

    fn next(&mut self) -> (t: Option<IndependentSamplerTile>) {
        proof {
            self.rect_iter.lemma_position_bound();
        }
        match self.rect_iter.next() {
            Some(tile) => {
                Some(IndependentSamplerTile::new(tile, self.samples_per_pixel))
            },
            None => None,
        }
    }

    fn size_hint(&self) -> (r: (usize, Option<usize>)) {
        self.rect_iter.size_hint()
    }
}

impl IndependentSamplerTile {
    pub fn new(tile_rect: Rectangle, samples_per_pixel: u32) -> (t: IndependentSamplerTile)
        requires
            tile_rect.wf(),
            samples_per_pixel > 0,
        ensures
            t.wf(),
            t.spec_rectangle() == tile_rect,
            t.spec_samples_per_pixel() == samples_per_pixel,
            t.emitted() == 0,
    {
        let tile_rect_iter = tile_rect.index_iter();
        let rng = tile_generator(&tile_rect);
        let pixel_x: u32 = tile_rect.left;
        let pixel_y: u32 = tile_rect.top;
        proof {
            assert(0 * (samples_per_pixel as int) == 0);
        }
        IndependentSamplerTile {
            tile_rect,
            tile_rect_iter,
            samples_per_pixel,
            pixel_sample_count: samples_per_pixel,
            pixel_x,
            pixel_y,
            rng,
            handed: Ghost(Seq::empty()),
        }
    }
}

impl SamplerTile for IndependentSamplerTile {
    closed spec fn wf(&self) -> bool {
        &&& self.tile_rect.wf()
        &&& self.tile_rect_iter.wf()
        &&& self.tile_rect_iter.rectangle() == self.tile_rect
        &&& self.samples_per_pixel > 0
        &&& self.pixel_sample_count <= self.samples_per_pixel
        &&& self.tile_rect_iter.position() == 0 ==> self.pixel_sample_count
            == self.samples_per_pixel
        &&& self.tile_rect_iter.position() > 0 ==> (self.pixel_x, self.pixel_y)
            == self.tile_rect.index_point(self.tile_rect_iter.position() - 1)
        &&& self.handed@.len() == self.emitted()
    }

    closed spec fn handed_out(&self) -> Seq<PixelSample> {
        self.handed@
    }

    closed spec fn spec_rectangle(&self) -> Rectangle {
        self.tile_rect
    }

    closed spec fn spec_samples_per_pixel(&self) -> int {
        self.samples_per_pixel as int
    }

    closed spec fn emitted(&self) -> int {
        self.tile_rect_iter.position() * self.samples_per_pixel - (self.samples_per_pixel
            - self.pixel_sample_count)
    }

    closed spec fn remaining(&self) -> int {
        self.tile_rect.spec_size() * self.samples_per_pixel - self.emitted()
    }

    open spec fn admits(&self, k: int, sample: PixelSample) -> bool {
        is_pixel_sample(self.spec_rectangle(), self.spec_samples_per_pixel(), k, sample)
    }

    proof fn lemma_counts(&self) {
        let spp = self.samples_per_pixel as int;
        let position = self.tile_rect_iter.position();
        let size = self.tile_rect.spec_size();
        self.tile_rect_iter.lemma_position_bound();
        assert(position >= 1 ==> position * spp - spp >= 0 && size * spp - position * spp >= 0)
            by (nonlinear_arith)
            requires
                position <= size,
                spp >= 1,
        ;
        assert(0 * spp == 0);
    }

    fn rectangle(&self) -> (r: &Rectangle) {
        &self.tile_rect
    }

    /// The sample lies anywhere in its pixel, which is not cut into strata.
    fn next(&mut self) -> (s: Option<PixelSample>)
        ensures
            old(self).remaining() > 0 ==> s.unwrap().strata == 1,
    {
        let ghost spp = self.samples_per_pixel as int;
        let ghost position = self.tile_rect_iter.position();
        let ghost size = self.tile_rect.spec_size();
        proof {
            self.tile_rect_iter.lemma_position_bound();
            lemma_size_nonnegative(self.tile_rect);
        }
        if self.pixel_sample_count >= self.samples_per_pixel {
            match self.tile_rect_iter.next() {
                Some((px, py)) => {
                    self.pixel_sample_count = 0;
                    self.pixel_x = px;
                    self.pixel_y = py;
                    proof {
                        assert((position + 1) * spp - spp == position * spp)
                            by (nonlinear_arith);
                        assert(size * spp - position * spp > 0) by (nonlinear_arith)
                            requires
                                position < size,
                                spp > 0,
                        ;
                    }
                },
                None => {
                    proof {
                        assert(position == size);
                    }
                    return None;
                },
            }
        }
        let ghost pixel_index = self.tile_rect_iter.position() - 1;
        let ghost k = pixel_index * spp + self.pixel_sample_count;
        proof {
            assert((pixel_index + 1) * spp - (spp - self.pixel_sample_count) == k)
                by (nonlinear_arith)
                requires
                    k == pixel_index * spp + self.pixel_sample_count,
            ;
            lemma_fundamental_div_mod_converse(k, spp, pixel_index, self.pixel_sample_count as int);
            lemma_index_point_inside(self.tile_rect, pixel_index);
            assert(size * spp - k > 0) by (nonlinear_arith)
                requires
                    k == pixel_index * spp + self.pixel_sample_count,
                    self.pixel_sample_count < spp,
                    0 <= pixel_index < size,
            ;
        }
        self.pixel_sample_count += 1;
        let random_x: u32 = next_random(&mut self.rng);
        let random_y: u32 = next_random(&mut self.rng);
        let sample = PixelSample::jittered(
            self.pixel_x,
            self.pixel_y,
            1,
            (0, 0),
            (random_x, random_y),
        );
        self.handed = Ghost(self.handed@.push(sample));
        Some(sample)
    }

    fn size_hint(&self) -> (r: (usize, Option<usize>)) {
        let ghost spp = self.samples_per_pixel as int;
        let ghost position = self.tile_rect_iter.position();
        let ghost size = self.tile_rect.spec_size();
        proof {
            self.tile_rect_iter.lemma_position_bound();
            lemma_size_nonnegative(self.tile_rect);
            assert((size - position) * spp + (spp - self.pixel_sample_count) == size * spp - (
            position * spp - (spp - self.pixel_sample_count))) by (nonlinear_arith);
            assert(0 <= size - position <= (size - position) * spp) by (nonlinear_arith)
                requires
                    size - position >= 0,
                    spp >= 1,
            ;
            assert(size <= size * spp) by (nonlinear_arith)
                requires
                    size >= 0,
                    spp >= 1,
            ;
            assert(position * spp >= 0) by (nonlinear_arith)
                requires
                    position >= 0,
                    spp >= 1,
            ;
        }
        let (pixels_remaining, _) = self.tile_rect_iter.size_hint();
        let remaining: usize = pixels_remaining * self.samples_per_pixel as usize + (
        self.samples_per_pixel - self.pixel_sample_count) as usize;
        (remaining, Some(remaining))
    }
}

} // verus!
