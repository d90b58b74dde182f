//! Stratified sampling: every pixel is cut into a square grid of strata and
//! gets one sample in each of them.

use crate::rectangle::{
    lemma_index_point_inside, lemma_size_nonnegative, Rectangle, RectangleIndexIterator,
};
use crate::sampler::{
    is_stratum_sample, next_random, tile_generator, PixelSample, Sampler, SamplerTile,
    SamplerTiles,
};
use crate::tiling::RectangleTileIterator;
use rand_xoshiro::Xoshiro128Plus;
use vstd::arithmetic::div_mod::lemma_fundamental_div_mod_converse;
use vstd::prelude::*;

verus! {

/// The largest number of strata per axis: its square still fits 32 bits.
pub const MAX_STRATA: u32 = 65535;

/// A sampler that cuts every pixel of its rectangle into
/// `sqrt_samples_per_pixel x sqrt_samples_per_pixel` strata and places one
/// sample in each: in its middle, or with `jitter` anywhere in it.
#[derive(Clone, Debug)]
pub struct StratifiedSampler {
    rectangle: Rectangle,
    sqrt_samples_per_pixel: u32,
    jitter: bool,
}

/// The tiles of a `StratifiedSampler`, in row-major order of the grid.
#[derive(Clone, Debug)]
pub struct StratifiedSamplerTileIterator {
    rect_iter: RectangleTileIterator,
    sqrt_samples_per_pixel: u32,
    jitter: bool,
}

/// One tile of a `StratifiedSampler`.
#[derive(Clone)]
pub struct StratifiedSamplerTile {
    tile_rect: Rectangle,
    tile_rect_iter: RectangleIndexIterator,
    sqrt_samples_per_pixel: u32,
    pixel_x: u32,
    pixel_y: u32,
    stratum_x: u32,
    stratum_y: u32,
    jitter: bool,
    rng: Xoshiro128Plus,
    handed: Ghost<Seq<PixelSample>>,
}

impl StratifiedSampler {
    /// Strata per axis of a pixel.
    pub closed spec fn spec_strata(self) -> int {
        self.sqrt_samples_per_pixel as int
    }

    pub closed spec fn spec_jitter(self) -> bool {
        self.jitter
    }

    pub fn new(rectangle: Rectangle, sqrt_samples_per_pixel: u32, jitter: bool) -> (s:
        StratifiedSampler)
        requires
            rectangle.wf(),
            0 < sqrt_samples_per_pixel <= MAX_STRATA,
        ensures
            s.wf(),
            s.spec_rectangle() == rectangle,
            s.spec_strata() == sqrt_samples_per_pixel,
            s.spec_samples_per_pixel() == sqrt_samples_per_pixel * sqrt_samples_per_pixel,
            s.spec_jitter() == jitter,
    {
        StratifiedSampler { rectangle, sqrt_samples_per_pixel, jitter }
    }
}

impl Sampler for StratifiedSampler {
    type Tile = StratifiedSamplerTile;

    type TileIter = StratifiedSamplerTileIterator;

    closed spec fn wf(&self) -> bool {
        self.rectangle.wf() && 0 < self.sqrt_samples_per_pixel <= MAX_STRATA
    }

    closed spec fn spec_rectangle(&self) -> Rectangle {
        self.rectangle
    }

    closed spec fn spec_samples_per_pixel(&self) -> int {
        self.sqrt_samples_per_pixel * self.sqrt_samples_per_pixel
    }

    open spec fn admits(&self, tile_rectangle: Rectangle, k: int, sample: PixelSample) -> bool {
        is_stratum_sample(tile_rectangle, self.spec_strata(), !self.spec_jitter(), k, sample)
    }

    fn rectangle(&self) -> (r: &Rectangle) {
        &self.rectangle
    }

    fn tiles(&self, tile_count_x: u32, tile_count_y: u32) -> (tiles: StratifiedSamplerTileIterator)
        ensures
            tiles.spec_strata() == self.spec_strata(),
            tiles.spec_jitter() == self.spec_jitter(),
    {
        StratifiedSamplerTileIterator::new(
            &self.rectangle,
            self.sqrt_samples_per_pixel,
            tile_count_x,
            tile_count_y,
            self.jitter,
        )
    }
}

impl StratifiedSamplerTileIterator {
    /// Strata per axis of a pixel.
    pub closed spec fn spec_strata(self) -> int {
        self.sqrt_samples_per_pixel as int
    }

    pub closed spec fn spec_jitter(self) -> bool {
        self.jitter
    }

    pub fn new(
        sampler_rect: &Rectangle,
        sqrt_samples_per_pixel: u32,
        tile_count_x: u32,
        tile_count_y: u32,
        jitter: bool,
    ) -> (tiles: StratifiedSamplerTileIterator)
        requires
            sampler_rect.wf(),
            0 < sqrt_samples_per_pixel <= MAX_STRATA,
            tile_count_x > 0,
            tile_count_y > 0,
        ensures
            tiles.wf(),
            tiles.spec_rectangle() == *sampler_rect,
            tiles.spec_strata() == sqrt_samples_per_pixel,
            tiles.spec_jitter() == jitter,
            tiles.count_x() == sampler_rect.spec_tile_count_x(tile_count_x as int),
            tiles.count_y() == sampler_rect.spec_tile_count_y(tile_count_y as int),
            tiles.position() == 0,
            tiles.spec_samples_per_pixel() == sqrt_samples_per_pixel * sqrt_samples_per_pixel,
    {
        StratifiedSamplerTileIterator {
            rect_iter: sampler_rect.tile_iter(tile_count_x, tile_count_y),
            sqrt_samples_per_pixel,
            jitter,
        }
    }
}

impl SamplerTiles for StratifiedSamplerTileIterator {
    type Tile = StratifiedSamplerTile;

    closed spec fn wf(&self) -> bool {
        &&& self.rect_iter.wf()
        &&& 0 < self.sqrt_samples_per_pixel <= MAX_STRATA
    }

    closed spec fn spec_rectangle(&self) -> Rectangle {
        self.rect_iter.rectangle()
    }

    closed spec fn spec_samples_per_pixel(&self) -> int {
        self.sqrt_samples_per_pixel * self.sqrt_samples_per_pixel
    }

    closed spec fn count_x(&self) -> int {
        self.rect_iter.count_x()
    }

    closed spec fn count_y(&self) -> int {
        self.rect_iter.count_y()
    }

    closed spec fn position(&self) -> int {
        self.rect_iter.position()
    }

    closed spec fn remaining(&self) -> int {
        self.rect_iter.remaining()
    }

    open spec fn admits(&self, tile_rectangle: Rectangle, k: int, sample: PixelSample) -> bool {
        is_stratum_sample(tile_rectangle, self.spec_strata(), !self.spec_jitter(), k, sample)
    }

    proof fn lemma_counts(&self) {
        self.rect_iter.lemma_position_bound();
        lemma_strata_square(self.sqrt_samples_per_pixel as int);
    }

    /// The tile has the sampler's strata and jitters as the sampler does.
    fn next(&mut self) -> (t: Option<StratifiedSamplerTile>)
        ensures
            final(self).spec_strata() == old(self).spec_strata(),
            final(self).spec_jitter() == old(self).spec_jitter(),
            old(self).remaining() > 0 ==> t.unwrap().spec_strata() == old(self).spec_strata()
                && t.unwrap().spec_jitter() == old(self).spec_jitter(),
    {
        proof {
            self.rect_iter.lemma_position_bound();
        }
        match self.rect_iter.next() {
            Some(tile) => {
                Some(StratifiedSamplerTile::new(tile, self.sqrt_samples_per_pixel, self.jitter))
            },
            None => None,
        }
    }

    fn size_hint(&self) -> (r: (usize, Option<usize>)) {
        self.rect_iter.size_hint()
    }
}

/// Where a sample falls when the samples of a pixel are numbered stratum by
/// stratum in row-major order: number `c` is in column `c % strata` and row
/// `c / strata`, and every stratum has exactly one number below
/// `strata * strata`.
pub proof fn lemma_stratum_numbering(strata: int, stratum_x: int, stratum_y: int)
    requires
        0 <= stratum_x < strata,
        0 <= stratum_y < strata,
    ensures
        0 <= stratum_y * strata + stratum_x < strata * strata,
        (stratum_y * strata + stratum_x) % strata == stratum_x,
        (stratum_y * strata + stratum_x) / strata == stratum_y,
{
    assert(0 <= stratum_y * strata + stratum_x < strata * strata) by (nonlinear_arith)
        requires
            0 <= stratum_x < strata,
            0 <= stratum_y < strata,
    ;
    lemma_fundamental_div_mod_converse(
        stratum_y * strata + stratum_x,
        strata,
        stratum_y,
        stratum_x,
    );
}

/// The square of a number of strata within the limit fits 32 bits.
pub proof fn lemma_strata_square(strata: int)
    requires
        0 < strata <= MAX_STRATA,
    ensures
        0 < strata * strata <= 0xffff_ffff,
{
    assert(0 < strata * strata <= 65535 * 65535) by (nonlinear_arith)
        requires
            0 < strata <= 65535,
    ;
}

impl StratifiedSamplerTile {
    /// Strata per axis of a pixel.
    pub closed spec fn spec_strata(self) -> int {
        self.sqrt_samples_per_pixel as int
    }

    pub closed spec fn spec_jitter(self) -> bool {
        self.jitter
    }

    /// Every pixel gets one sample for each of its strata.
    pub proof fn lemma_samples_per_pixel(self)
        ensures
            self.spec_samples_per_pixel() == self.spec_strata() * self.spec_strata(),
    {
    }

    /// Sample number `k` of the tile lies in the stratum whose row-major
    /// number within the pixel is `k % samples_per_pixel`.
    pub open spec fn sample_stratum(self, k: int) -> (int, int) {
        let c = k % self.spec_samples_per_pixel();
        (c % self.spec_strata(), c / self.spec_strata())
    }

    pub fn new(tile_rect: Rectangle, sqrt_samples_per_pixel: u32, jitter: bool) -> (t:
        StratifiedSamplerTile)
        requires
            tile_rect.wf(),
            0 < sqrt_samples_per_pixel <= MAX_STRATA,
        ensures
            t.wf(),
            t.spec_rectangle() == tile_rect,
            t.spec_strata() == sqrt_samples_per_pixel,
            t.spec_jitter() == jitter,
            t.spec_samples_per_pixel() == sqrt_samples_per_pixel * sqrt_samples_per_pixel,
            t.emitted() == 0,
    {
        let tile_rect_iter = tile_rect.index_iter();
        let rng = tile_generator(&tile_rect);
        let pixel_x: u32 = tile_rect.left;
        let pixel_y: u32 = tile_rect.top;
        proof {
            let n = sqrt_samples_per_pixel as int;
            assert(0 * (n * n) == 0);
        }
        StratifiedSamplerTile {
            tile_rect,
            tile_rect_iter,
            sqrt_samples_per_pixel,
            pixel_x,
            pixel_y,
            stratum_x: 0,
            stratum_y: sqrt_samples_per_pixel,
            jitter,
            rng,
            handed: Ghost(Seq::empty()),
        }
    }
}

impl SamplerTile for StratifiedSamplerTile {
    closed spec fn wf(&self) -> bool {
        &&& self.tile_rect.wf()
        &&& self.tile_rect_iter.wf()
        &&& self.tile_rect_iter.rectangle() == self.tile_rect
        &&& 0 < self.sqrt_samples_per_pixel <= MAX_STRATA
        &&& self.stratum_x < self.sqrt_samples_per_pixel
        &&& self.stratum_y <= self.sqrt_samples_per_pixel
        &&& self.stratum_y == self.sqrt_samples_per_pixel ==> self.stratum_x == 0
        &&& self.tile_rect_iter.position() == 0 ==> self.stratum_y == self.sqrt_samples_per_pixel
        &&& self.tile_rect_iter.position() > 0 ==> (self.pixel_x, self.pixel_y)
            == self.tile_rect.index_point(self.tile_rect_iter.position() - 1)
        &&& self.handed@.len() == self.emitted()
    }

    closed spec fn handed_out(&self) -> Seq<PixelSample> {
        self.handed@
    }

    closed spec fn spec_rectangle(&self) -> Rectangle {
        self.tile_rect
    }

    closed spec fn spec_samples_per_pixel(&self) -> int {
        self.sqrt_samples_per_pixel * self.sqrt_samples_per_pixel
    }

    closed spec fn emitted(&self) -> int {
        self.tile_rect_iter.position() * (self.sqrt_samples_per_pixel
            * self.sqrt_samples_per_pixel) - (self.sqrt_samples_per_pixel
            * self.sqrt_samples_per_pixel - (self.stratum_y * self.sqrt_samples_per_pixel
            + self.stratum_x))
    }

    closed spec fn remaining(&self) -> int {
        self.tile_rect.spec_size() * (self.sqrt_samples_per_pixel * self.sqrt_samples_per_pixel)
            - self.emitted()
    }

    open spec fn admits(&self, k: int, sample: PixelSample) -> bool {
        is_stratum_sample(self.spec_rectangle(), self.spec_strata(), !self.spec_jitter(), k, sample)
    }

    proof fn lemma_counts(&self) {
        let n = self.sqrt_samples_per_pixel as int;
        let spp = n * n;
        let c = self.stratum_y * n + self.stratum_x;
        let position = self.tile_rect_iter.position();
        let size = self.tile_rect.spec_size();
        self.tile_rect_iter.lemma_position_bound();
        lemma_strata_square(n);
        if self.stratum_y < self.sqrt_samples_per_pixel {
            lemma_stratum_numbering(n, self.stratum_x as int, self.stratum_y as int);
        }
        assert(position >= 1 ==> position * spp - spp >= 0 && size * spp - position * spp >= 0)
            by (nonlinear_arith)
            requires
                position <= size,
                spp >= 1,
        ;
        assert(0 * spp == 0);
    }

    fn rectangle(&self) -> (r: &Rectangle) {
        &self.tile_rect
    }

    /// Sample number `emitted()` of the tile lies in the stratum that
    /// `sample_stratum` names; in its middle unless the sampler jitters.
    fn next(&mut self) -> (s: Option<PixelSample>)
        ensures
            final(self).spec_strata() == old(self).spec_strata(),
            final(self).spec_jitter() == old(self).spec_jitter(),
            old(self).remaining() > 0 ==> s.unwrap().strata == old(self).spec_strata() && (
            s.unwrap().stratum_x as int,
            s.unwrap().stratum_y as int,
            ) == old(self).sample_stratum(old(self).emitted()),
            old(self).remaining() > 0 && !old(self).spec_jitter() ==> s.unwrap().jitter_x
                == crate::sampler::JITTER_CENTER && s.unwrap().jitter_y
                == crate::sampler::JITTER_CENTER,
    {
        let ghost n = self.sqrt_samples_per_pixel as int;
        let ghost spp = n * n;
        let ghost position = self.tile_rect_iter.position();
        let ghost size = self.tile_rect.spec_size();
        proof {
            self.tile_rect_iter.lemma_position_bound();
            lemma_size_nonnegative(self.tile_rect);
            lemma_strata_square(n);
        }
        if self.stratum_y >= self.sqrt_samples_per_pixel {
            proof {
                assert(n * n + 0 == spp);
            }
            match self.tile_rect_iter.next() {
                Some((px, py)) => {
                    self.pixel_x = px;
                    self.pixel_y = py;
                    self.stratum_x = 0;
                    self.stratum_y = 0;
                    proof {
                        assert((position + 1) * spp - spp == position * spp)
                            by (nonlinear_arith);
                        assert(0 * n + 0 == 0);
                        assert(size * spp - position * spp > 0) by (nonlinear_arith)
                            requires
                                position < size,
                                spp > 0,
                        ;
                    }
                },
                None => {
                    proof {
                        assert(position == size);
                    }
                    return None;
                },
            }
        }
        let ghost pixel_index = self.tile_rect_iter.position() - 1;
        let ghost c = self.stratum_y * n + self.stratum_x;
        let ghost k = pixel_index * spp + c;
        proof {
            lemma_stratum_numbering(n, self.stratum_x as int, self.stratum_y as int);
            assert((pixel_index + 1) * spp - (spp - c) == k) by (nonlinear_arith)
                requires
                    k == pixel_index * spp + c,
            ;
            lemma_fundamental_div_mod_converse(k, spp, pixel_index, c);
            lemma_index_point_inside(self.tile_rect, pixel_index);
            assert(size * spp - k > 0) by (nonlinear_arith)
                requires
                    k == pixel_index * spp + c,
                    0 <= c < spp,
                    0 <= pixel_index < size,
            ;
            if self.stratum_x + 1 == n {
                assert((self.stratum_y + 1) * n + 0 == c + 1) by (nonlinear_arith)
                    requires
                        c == self.stratum_y * n + self.stratum_x,
                        self.stratum_x + 1 == n,
                ;
            }
        }
        let stratum = (self.stratum_x, self.stratum_y);
        let sample = if self.jitter {
            let random_x: u32 = next_random(&mut self.rng);
            let random_y: u32 = next_random(&mut self.rng);
            PixelSample::jittered(
                self.pixel_x,
                self.pixel_y,
                self.sqrt_samples_per_pixel,
                stratum,
                (random_x, random_y),
            )
        } else {
            PixelSample::centered(self.pixel_x, self.pixel_y, self.sqrt_samples_per_pixel, stratum)
        };

        self.stratum_x += 1;
        if self.stratum_x >= self.sqrt_samples_per_pixel {
            self.stratum_x = 0;
            self.stratum_y += 1;
        }
        self.handed = Ghost(self.handed@.push(sample));
        Some(sample)
    }

    fn size_hint(&self) -> (r: (usize, Option<usize>)) {
        let ghost n = self.sqrt_samples_per_pixel as int;
        let ghost spp = n * n;
        let ghost c = self.stratum_y * n + self.stratum_x;
        let ghost position = self.tile_rect_iter.position();
        let ghost size = self.tile_rect.spec_size();
        proof {
            self.tile_rect_iter.lemma_position_bound();
            lemma_size_nonnegative(self.tile_rect);
            lemma_strata_square(n);
            if self.stratum_y < self.sqrt_samples_per_pixel {
                lemma_stratum_numbering(n, self.stratum_x as int, self.stratum_y as int);
            }
            assert(0 <= self.stratum_y * n <= n * n) by (nonlinear_arith)
                requires
                    0 <= self.stratum_y <= n,
            ;
            assert((size - position) * spp + (spp - c) == size * spp - (position * spp - (spp
                - c))) by (nonlinear_arith);
            assert(0 <= size - position <= (size - position) * spp) by (nonlinear_arith)
                requires
                    size - position >= 0,
                    spp >= 1,
            ;
            assert(position * spp >= 0) by (nonlinear_arith)
                requires
                    position >= 0,
                    spp >= 1,
            ;
        }
        let (pixels_remaining, _) = self.tile_rect_iter.size_hint();
        let samples_per_pixel: u32 = self.sqrt_samples_per_pixel * self.sqrt_samples_per_pixel;
        let pixel_sample_count: u32 = self.stratum_y * self.sqrt_samples_per_pixel
            + self.stratum_x;
        let remaining: usize = pixels_remaining * samples_per_pixel as usize + (samples_per_pixel
            - pixel_sample_count) as usize;
        (remaining, Some(remaining))
    }
}

} // verus!
