//! Sub-pixel samples and the samplers that produce them tile by tile.
//!
//! Positions within a pixel are kept exactly, as whole numbers of steps of
//! 1/2^24 of a stratum, so that every statement about them is one about
//! integers.

use crate::rectangle::Rectangle;
use crate::tiling::grid_tile;
use rand::rngs::OsRng;
use rand::Rng;
use rand_xoshiro::rand_core::SeedableRng;
use rand_xoshiro::Xoshiro128Plus;
use vstd::prelude::*;

pub use independent::{IndependentSampler, IndependentSamplerTile, IndependentSamplerTileIterator};
pub use stratified::{StratifiedSampler, StratifiedSamplerTile, StratifiedSamplerTileIterator};

pub mod independent;
pub mod stratified;

verus! {

/// Number of distinct positions within a stratum along one axis.
pub const JITTER_STEPS: u32 = 16777216;

/// The position in the middle of a stratum.
pub const JITTER_CENTER: u32 = 8388608;

/// Bits of a random word that are dropped to get a position in a stratum.
pub const JITTER_SHIFT: u32 = 8;

/// One sample: the pixel it belongs to and where in the pixel it lies.
///
/// The unit square of the pixel is cut into `strata x strata` equal cells;
/// the sample lies in the cell `(stratum_x, stratum_y)`, `jitter_x` steps
/// from its left edge and `jitter_y` steps from its top edge, a step being
/// `1 / JITTER_STEPS` of the cell.
#[derive(Clone, Copy, PartialEq, Eq, Debug, Structural)]
pub struct PixelSample {
    pub pixel_x: u32,
    pub pixel_y: u32,
    pub strata: u32,
    pub stratum_x: u32,
    pub stratum_y: u32,
    pub jitter_x: u32,
    pub jitter_y: u32,
}

impl PixelSample {
    /// The stratum exists and the position lies within it.
    pub open spec fn wf(self) -> bool {
        &&& self.strata >= 1
        &&& self.stratum_x < self.strata
        &&& self.stratum_y < self.strata
        &&& self.jitter_x < JITTER_STEPS
        &&& self.jitter_y < JITTER_STEPS
    }

    /// The denominator of the offsets: steps per pixel along one axis.
    pub open spec fn spec_offset_scale(self) -> int {
        self.strata * JITTER_STEPS
    }

    /// The offset from the pixel's corner along x, in steps.
    pub open spec fn spec_offset_x(self) -> int {
        self.stratum_x * JITTER_STEPS + self.jitter_x
    }

    /// The offset from the pixel's corner along y, in steps.
    pub open spec fn spec_offset_y(self) -> int {
        self.stratum_y * JITTER_STEPS + self.jitter_y
    }

    pub fn new(
        pixel_x: u32,
        pixel_y: u32,
        strata: u32,
        stratum: (u32, u32),
        jitter: (u32, u32),
    ) -> (s: PixelSample)
        requires
            strata >= 1,
            stratum.0 < strata,
            stratum.1 < strata,
            jitter.0 < JITTER_STEPS,
            jitter.1 < JITTER_STEPS,
        ensures
            s.wf(),
            s == (PixelSample {
                pixel_x,
                pixel_y,
                strata,
                stratum_x: stratum.0,
                stratum_y: stratum.1,
                jitter_x: jitter.0,
                jitter_y: jitter.1,
            }),
    {
        PixelSample {
            pixel_x,
            pixel_y,
            strata,
            stratum_x: stratum.0,
            stratum_y: stratum.1,
            jitter_x: jitter.0,
            jitter_y: jitter.1,
        }
    }

    /// The sample in the middle of its stratum.
    pub fn centered(pixel_x: u32, pixel_y: u32, strata: u32, stratum: (u32, u32)) -> (s:
        PixelSample)
        requires
            strata >= 1,
            stratum.0 < strata,
            stratum.1 < strata,
        ensures
            s.wf(),
            s == (PixelSample {
                pixel_x,
                pixel_y,
                strata,
                stratum_x: stratum.0,
                stratum_y: stratum.1,
                jitter_x: JITTER_CENTER,
                jitter_y: JITTER_CENTER,
            }),
    {
        PixelSample::new(pixel_x, pixel_y, strata, stratum, (JITTER_CENTER, JITTER_CENTER))
    }

    /// The sample whose position in its stratum is given by the upper 24
    /// bits of two random words, one for each axis.
    pub fn jittered(
        pixel_x: u32,
        pixel_y: u32,
        strata: u32,
        stratum: (u32, u32),
        random: (u32, u32),
    ) -> (s: PixelSample)
        requires
            strata >= 1,
            stratum.0 < strata,
            stratum.1 < strata,
        ensures
            s.wf(),
            s == (PixelSample {
                pixel_x,
                pixel_y,
                strata,
                stratum_x: stratum.0,
                stratum_y: stratum.1,
                jitter_x: random.0 >> JITTER_SHIFT,
                jitter_y: random.1 >> JITTER_SHIFT,
            }),
    {
        let random_x: u32 = random.0;
        let random_y: u32 = random.1;
        assert(random_x >> 8 < 16777216) by (bit_vector);
        assert(random_y >> 8 < 16777216) by (bit_vector);
        PixelSample::new(
            pixel_x,
            pixel_y,
            strata,
            stratum,
            (random_x >> JITTER_SHIFT, random_y >> JITTER_SHIFT),
        )
    }

    pub fn pixel(&self) -> (p: (u32, u32))
        ensures
            p == (self.pixel_x, self.pixel_y),
    {
        (self.pixel_x, self.pixel_y)
    }

    /// Steps per pixel along one axis: the denominator of `sample_offset`
    /// and of `sample`.
    pub fn offset_scale(&self) -> (scale: u64)
        ensures
            scale == self.spec_offset_scale(),
    {
        assert(self.strata * JITTER_STEPS <= 0xffff_ffff * 16777216) by (nonlinear_arith)
            requires
                self.strata <= 0xffff_ffff,
                JITTER_STEPS == 16777216,
        ;
        self.strata as u64 * JITTER_STEPS as u64
    }

    /// The offset of the sample from its pixel's corner, in steps. Divided
    /// by `offset_scale` it lies in `[0, 1)` on each axis, and within the
    /// sample's stratum.
    pub fn sample_offset(&self) -> (offset: (u64, u64))
        requires
            self.wf(),
        ensures
            offset.0 == self.spec_offset_x(),
            offset.1 == self.spec_offset_y(),
            offset.0 < self.spec_offset_scale(),
            offset.1 < self.spec_offset_scale(),
            self.stratum_x * JITTER_STEPS <= offset.0 < (self.stratum_x + 1) * JITTER_STEPS,
            self.stratum_y * JITTER_STEPS <= offset.1 < (self.stratum_y + 1) * JITTER_STEPS,
    {
        proof {
            lemma_offset_bound(self.strata as int, self.stratum_x as int, self.jitter_x as int);
            lemma_offset_bound(self.strata as int, self.stratum_y as int, self.jitter_y as int);
        }
        (
            self.stratum_x as u64 * JITTER_STEPS as u64 + self.jitter_x as u64,
            self.stratum_y as u64 * JITTER_STEPS as u64 + self.jitter_y as u64,
        )
    }

    /// The absolute position of the sample, in steps: the pixel's corner
    /// plus the offset.
    pub fn sample(&self) -> (position: (u128, u128))
        requires
            self.wf(),
        ensures
            position.0 == self.pixel_x * self.spec_offset_scale() + self.spec_offset_x(),
            position.1 == self.pixel_y * self.spec_offset_scale() + self.spec_offset_y(),
    {
        let scale: u64 = self.offset_scale();
        let (offset_x, offset_y) = self.sample_offset();
        proof {
            lemma_position_fits(self.pixel_x as int, scale as int);
            lemma_position_fits(self.pixel_y as int, scale as int);
        }
        (
            self.pixel_x as u128 * scale as u128 + offset_x as u128,
            self.pixel_y as u128 * scale as u128 + offset_y as u128,
        )
    }
}

/// An offset within a stratum lies within that stratum's share of the pixel,
/// and so below the scale.
pub proof fn lemma_offset_bound(strata: int, stratum: int, jitter: int)
    requires
        0 <= stratum < strata <= 0xffff_ffff,
        0 <= jitter < JITTER_STEPS,
    ensures
        stratum * JITTER_STEPS <= stratum * JITTER_STEPS + jitter < (stratum + 1) * JITTER_STEPS,
        (stratum + 1) * JITTER_STEPS <= strata * JITTER_STEPS,
        strata * JITTER_STEPS <= 0xffff_ffff * 16777216,
        stratum * JITTER_STEPS >= 0,
{
    assert((stratum + 1) * 16777216 == stratum * 16777216 + 16777216) by (nonlinear_arith);
    assert((stratum + 1) * 16777216 <= strata * 16777216) by (nonlinear_arith)
        requires
            stratum + 1 <= strata,
    ;
    assert(strata * 16777216 <= 0xffff_ffff * 16777216) by (nonlinear_arith)
        requires
            strata <= 0xffff_ffff,
    ;
    assert(stratum * 16777216 >= 0) by (nonlinear_arith)
        requires
            stratum >= 0,
    ;
}

/// When the samples of a tile are numbered pixel by pixel, with
/// `samples_per_pixel` samples for each, the samples of pixel number `p` are
/// exactly those numbered from `p * samples_per_pixel` up to, but not
/// including, `(p + 1) * samples_per_pixel`: every pixel gets exactly
/// `samples_per_pixel` samples, and every sample belongs to one pixel.
pub proof fn lemma_sample_numbering(samples_per_pixel: int, k: int, p: int)
    requires
        samples_per_pixel > 0,
        k >= 0,
    ensures
        k / samples_per_pixel == p <==> p * samples_per_pixel <= k < (p + 1) * samples_per_pixel,
        (p + 1) * samples_per_pixel - p * samples_per_pixel == samples_per_pixel,
{
    let q = k / samples_per_pixel;
    let r = k % samples_per_pixel;
    vstd::arithmetic::div_mod::lemma_fundamental_div_mod(k, samples_per_pixel);
    vstd::arithmetic::div_mod::lemma_mod_pos_bound(k, samples_per_pixel);
    assert((p + 1) * samples_per_pixel == p * samples_per_pixel + samples_per_pixel)
        by (nonlinear_arith);
    if p * samples_per_pixel <= k < (p + 1) * samples_per_pixel {
        vstd::arithmetic::div_mod::lemma_fundamental_div_mod_converse(
            k,
            samples_per_pixel,
            p,
            k - p * samples_per_pixel,
        );
    }
    if q == p {
        assert(samples_per_pixel * q == q * samples_per_pixel) by (nonlinear_arith);
    }
}

proof fn lemma_position_fits(pixel: int, scale: int)
    requires
        0 <= pixel <= 0xffff_ffff,
        0 <= scale <= 0xffff_ffff_ffff_ffff,
    ensures
        0 <= pixel * scale <= 0xffff_ffff * 0xffff_ffff_ffff_ffff,
{
    assert(0 <= pixel * scale <= 0xffff_ffff * 0xffff_ffff_ffff_ffff) by (nonlinear_arith)
        requires
            0 <= pixel <= 0xffff_ffff,
            0 <= scale <= 0xffff_ffff_ffff_ffff,
    ;
}

/// The pseudo-random generator that each tile owns.
#[verifier::external_type_specification]
#[verifier::external_body]
pub struct ExXoshiro128Plus(Xoshiro128Plus);

/// `Clone::clone` of `Xoshiro128Plus`, which the tiles' own `Clone` goes
/// through. Nothing is claimed of the copy.
pub assume_specification[ <Xoshiro128Plus as Clone>::clone ](rng: &Xoshiro128Plus) -> (copy: Xoshiro128Plus)
;

/// `SeedableRng::from_rng` for `Xoshiro128Plus`, fed by `OsRng`: a generator
/// seeded from the operating system's entropy source, or `None` where the
/// system cannot provide entropy. Nothing is claimed of the generator's
/// state.
#[verifier::external_body]
pub(crate) fn seed_from_entropy() -> (rng: Option<Xoshiro128Plus>) {
    Xoshiro128Plus::from_rng(OsRng).ok()
}

/// The generator that `SeedableRng::seed_from_u64` expands a number into,
/// which the number alone decides.
pub uninterp spec fn generator_seeded_from(seed: u64) -> Xoshiro128Plus;

/// `SeedableRng::seed_from_u64` for `Xoshiro128Plus`: the generator that the
/// number is expanded into, the same for the same number. Nothing else is
/// claimed of its state.
#[verifier::external_body]
pub(crate) fn seed_from_number(seed: u64) -> (rng: Xoshiro128Plus)
    ensures
        rng == generator_seeded_from(seed),
{
    Xoshiro128Plus::seed_from_u64(seed)
}

/// The seed of a tile's generator where the system provides no entropy: the
/// tile's corner, so that the tiles of a grid still get streams of their
/// own.
pub open spec fn spec_fallback_seed(tile_rect: Rectangle) -> u64 {
    (tile_rect.left * 0x1_0000_0000 + tile_rect.top) as u64
}

/// Computes `spec_fallback_seed`, which fits 64 bits.
pub fn fallback_seed(tile_rect: &Rectangle) -> (seed: u64)
    ensures
        seed == tile_rect.left * 0x1_0000_0000 + tile_rect.top,
        seed == spec_fallback_seed(*tile_rect),
{
    assert(tile_rect.left * 0x1_0000_0000 <= 0xffff_ffff * 0x1_0000_0000) by (nonlinear_arith)
        requires
            tile_rect.left <= 0xffff_ffff,
    ;
    tile_rect.left as u64 * 0x1_0000_0000 + tile_rect.top as u64
}

/// The generator of the tile over `tile_rect`, given what the system's
/// entropy source handed out: the generator seeded from it, or, where it
/// handed out none, the one that `fallback_seed` of the tile is expanded
/// into.
pub fn generator_or_fallback(entropy: Option<Xoshiro128Plus>, tile_rect: &Rectangle) -> (rng:
    Xoshiro128Plus)
    ensures
        entropy.is_some() ==> rng == entropy.unwrap(),
        entropy.is_none() ==> rng == generator_seeded_from(spec_fallback_seed(*tile_rect)),
{
    match entropy {
        Some(rng) => rng,
        None => seed_from_number(fallback_seed(tile_rect)),
    }
}

/// The generator of the tile over `tile_rect`: seeded from the system's
/// entropy, or from `fallback_seed` where there is none. Which of the two
/// it is, and what the entropy was, the system decides.
pub(crate) fn tile_generator(tile_rect: &Rectangle) -> (rng: Xoshiro128Plus) {
    generator_or_fallback(seed_from_entropy(), tile_rect)
}

/// `Rng::gen` at type `u32`: the generator's next 32-bit output. Nothing is
/// claimed of the value.
#[verifier::external_body]
pub(crate) fn next_random(rng: &mut Xoshiro128Plus) -> (value: u32) {
    rng.gen()
}

/// One tile of a sampler's output: a rectangle and a single-pass sequence of
/// the samples of its pixels, pixel by pixel in row-major order, with the
/// same number of samples for every pixel.
pub trait SamplerTile: Send + Sync {
    spec fn wf(&self) -> bool;

    /// The pixels that the tile covers.
    spec fn spec_rectangle(&self) -> Rectangle;

    /// How many samples every pixel gets.
    spec fn spec_samples_per_pixel(&self) -> int;

    /// How many samples have been handed out so far.
    spec fn emitted(&self) -> int;

    /// How many samples are still to come.
    spec fn remaining(&self) -> int;

    /// The samples that the tile has handed out so far, in their order.
    spec fn handed_out(&self) -> Seq<PixelSample>;

    /// Whether `sample` is one that the tile can hand out as its sample
    /// number `k`: what the tile's sampler fixes of that sample, which is
    /// everything but a position that it draws at random.
    spec fn admits(&self, k: int, sample: PixelSample) -> bool;

    /// What is still to come is what the tile holds in all, less what has
    /// been handed out.
    proof fn lemma_counts(&self)
        requires
            self.wf(),
        ensures
            self.spec_rectangle().wf(),
            self.spec_samples_per_pixel() >= 1,
            self.emitted() >= 0,
            self.emitted() == self.handed_out().len(),
            self.remaining() >= 0,
            self.remaining() == tile_total(self.spec_rectangle(), self.spec_samples_per_pixel())
                - self.emitted(),
    ;

    fn rectangle(&self) -> (r: &Rectangle)
        requires
            self.wf(),
        ensures
            *r == self.spec_rectangle(),
            r.wf(),
    ;

    /// The next sample of the tile, or `None` when all have been handed
    /// out. Sample number `k` of the tile belongs to pixel number `k /
    /// samples_per_pixel` of the tile's rectangle, in row-major order.
    fn next(&mut self) -> (s: Option<PixelSample>)
        requires
            old(self).wf(),
        ensures
            final(self).wf(),
            final(self).spec_rectangle() == old(self).spec_rectangle(),
            final(self).spec_samples_per_pixel() == old(self).spec_samples_per_pixel(),
            old(self).remaining() > 0 ==> s.is_some() && s.unwrap().wf(),
            old(self).remaining() > 0 ==> old(self).spec_rectangle().spec_contains(
                s.unwrap().pixel_x as int,
                s.unwrap().pixel_y as int,
            ),
            old(self).remaining() > 0 ==> (s.unwrap().pixel_x, s.unwrap().pixel_y) == old(
                self
            ).spec_rectangle().index_point(
                old(self).emitted() / old(self).spec_samples_per_pixel(),
            ),
            old(self).remaining() > 0 ==> old(self).admits(old(self).emitted(), s.unwrap()),
            old(self).remaining() > 0 ==> final(self).handed_out() == old(self).handed_out().push(
                s.unwrap(),
            ),
            old(self).remaining() <= 0 ==> final(self).handed_out() == old(self).handed_out(),
            old(self).remaining() > 0 ==> final(self).emitted() == old(self).emitted() + 1
                && final(self).remaining() == old(self).remaining() - 1,
            old(self).remaining() <= 0 ==> s.is_none() && final(self).emitted() == old(
                self
            ).emitted() && final(self).remaining() == old(self).remaining(),
            forall|k: int, sample: PixelSample| #[trigger]
                final(self).admits(k, sample) == old(self).admits(k, sample),
    ;

    /// The exact number of samples still to come, as both bounds.
    fn size_hint(&self) -> (r: (usize, Option<usize>))
        requires
            self.wf(),
            self.remaining() <= usize::MAX,
        ensures
            r.0 == self.remaining(),
            r.1 == Some(r.0),
    ;
}

/// How many samples a tile over `rectangle` hands out in all.
pub open spec fn tile_total(rectangle: Rectangle, samples_per_pixel: int) -> int {
    rectangle.spec_size() * samples_per_pixel
}

/// The single-pass sequence of a sampler's tiles: the tiles of a grid over
/// the sampler's rectangle, in row-major order.
pub trait SamplerTiles {
    type Tile: SamplerTile;

    spec fn wf(&self) -> bool;

    /// The rectangle that is divided into tiles.
    spec fn spec_rectangle(&self) -> Rectangle;

    /// How many samples every pixel gets.
    spec fn spec_samples_per_pixel(&self) -> int;

    /// Number of columns of the grid of tiles.
    spec fn count_x(&self) -> int;

    /// Number of rows of the grid of tiles.
    spec fn count_y(&self) -> int;

    /// How many tiles have been handed out so far.
    spec fn position(&self) -> int;

    /// How many tiles are still to come.
    spec fn remaining(&self) -> int;

    /// Whether `sample` is one that a tile over `tile_rectangle` can hand
    /// out as its sample number `k`.
    spec fn admits(&self, tile_rectangle: Rectangle, k: int, sample: PixelSample) -> bool;

    /// What is still to come is the grid less what has been handed out, and
    /// the grid fits the rectangle.
    proof fn lemma_counts(&self)
        requires
            self.wf(),
        ensures
            self.spec_rectangle().wf(),
            self.spec_samples_per_pixel() >= 1,
            0 <= self.count_x() <= self.spec_rectangle().spec_width(),
            0 <= self.count_y() <= self.spec_rectangle().spec_height(),
            self.count_x() == 0 ==> self.count_y() == 0,
            self.position() >= 0,
            self.remaining() >= 0,
            self.remaining() == self.count_x() * self.count_y() - self.position(),
    ;

    /// The next tile of the grid, with all of its samples still to come,
    /// or `None` when all tiles have been handed out.
    fn next(&mut self) -> (t: Option<Self::Tile>)
        requires
            old(self).wf(),
        ensures
            final(self).wf(),
            final(self).spec_rectangle() == old(self).spec_rectangle(),
            final(self).spec_samples_per_pixel() == old(self).spec_samples_per_pixel(),
            final(self).count_x() == old(self).count_x(),
            final(self).count_y() == old(self).count_y(),
            old(self).remaining() > 0 ==> t.is_some() && t.unwrap().wf() && t.unwrap().emitted()
                == 0 && t.unwrap().spec_samples_per_pixel() == old(self).spec_samples_per_pixel()
                && t.unwrap().spec_rectangle() == grid_tile(
                old(self).spec_rectangle(),
                old(self).count_x(),
                old(self).count_y(),
                old(self).position(),
            ) && final(self).position() == old(self).position() + 1 && final(self).remaining()
                == old(self).remaining() - 1,
            old(self).remaining() <= 0 ==> t.is_none() && final(self).position() == old(
                self
            ).position() && final(self).remaining() == old(self).remaining(),
            old(self).remaining() > 0 ==> forall|k: int, sample: PixelSample| #[trigger]
                t.unwrap().admits(k, sample) == old(self).admits(
                    t.unwrap().spec_rectangle(),
                    k,
                    sample,
                ),
            forall|tile_rectangle: Rectangle, k: int, sample: PixelSample| #[trigger]
                final(self).admits(tile_rectangle, k, sample) == old(self).admits(
                    tile_rectangle,
                    k,
                    sample,
                ),
    ;

    /// The exact number of tiles still to come, as both bounds.
    fn size_hint(&self) -> (r: (usize, Option<usize>))
        requires
            self.wf(),
            self.remaining() <= usize::MAX,
        ensures
            r.0 == self.remaining(),
            r.1 == Some(r.0),
    ;
}

/// A source of samples over a rectangle of pixels, handed out in tiles that
/// partition the rectangle, with the same number of samples for every
/// pixel.
pub trait Sampler: Send + Sync {
    type Tile: SamplerTile;

    type TileIter: SamplerTiles<Tile = Self::Tile>;

    spec fn wf(&self) -> bool;

    /// The pixels that the sampler covers.
    spec fn spec_rectangle(&self) -> Rectangle;

    /// How many samples every pixel gets.
    spec fn spec_samples_per_pixel(&self) -> int;

    /// Whether `sample` is one that a tile of this sampler over
    /// `tile_rectangle` can hand out as its sample number `k`.
    spec fn admits(&self, tile_rectangle: Rectangle, k: int, sample: PixelSample) -> bool;

    fn rectangle(&self) -> (r: &Rectangle)
        requires
            self.wf(),
        ensures
            *r == self.spec_rectangle(),
            r.wf(),
    ;

    /// The tiles of a grid of the requested counts over the rectangle, the
    /// counts being cut down to the rectangle's width and height.
    fn tiles(&self, tile_count_x: u32, tile_count_y: u32) -> (tiles: Self::TileIter)
        requires
            self.wf(),
            tile_count_x > 0,
            tile_count_y > 0,
        ensures
            tiles.wf(),
            tiles.spec_rectangle() == self.spec_rectangle(),
            tiles.spec_samples_per_pixel() == self.spec_samples_per_pixel(),
            tiles.count_x() == self.spec_rectangle().spec_tile_count_x(tile_count_x as int),
            tiles.count_y() == self.spec_rectangle().spec_tile_count_y(tile_count_y as int),
            tiles.position() == 0,
            forall|tile_rectangle: Rectangle, k: int, sample: PixelSample| #[trigger]
                tiles.admits(tile_rectangle, k, sample) == self.admits(tile_rectangle, k, sample),
    ;
}

/// Whether `sample` can be sample number `k` of a tile over `rectangle`
/// that cuts every pixel into `strata x strata` strata and has one sample
/// for each: the sample belongs to pixel number `k / (strata * strata)` of
/// the tile and lies in the stratum whose row-major number within the pixel
/// is `k % (strata * strata)`; in the middle of it where `centered`.
pub open spec fn is_stratum_sample(
    rectangle: Rectangle,
    strata: int,
    centered: bool,
    k: int,
    sample: PixelSample,
) -> bool {
    let number = k % (strata * strata);
    &&& sample.wf()
    &&& (sample.pixel_x, sample.pixel_y) == rectangle.index_point(k / (strata * strata))
    &&& sample.strata == strata
    &&& sample.stratum_x == number % strata
    &&& sample.stratum_y == number / strata
    &&& centered ==> sample.jitter_x == JITTER_CENTER && sample.jitter_y == JITTER_CENTER
}

/// Whether `sample` can be sample number `k` of a tile over `rectangle`
/// that places `samples_per_pixel` samples anywhere in every pixel: the
/// sample belongs to pixel number `k / samples_per_pixel` of the tile, and
/// the pixel is its only stratum.
pub open spec fn is_pixel_sample(
    rectangle: Rectangle,
    samples_per_pixel: int,
    k: int,
    sample: PixelSample,
) -> bool {
    &&& sample.wf()
    &&& (sample.pixel_x, sample.pixel_y) == rectangle.index_point(k / samples_per_pixel)
    &&& sample.strata == 1
    &&& sample.stratum_x == 0
    &&& sample.stratum_y == 0
}

} // verus!
