//! Configuration of the renderer that works on many tiles at once, and the
//! choice of its tile grid.

use crate::raster::Raster;
use crate::rectangle::{lemma_linear_index_bound, Rectangle};
use crate::renderer::{
    accumulate_tile, is_rendered_tile, is_sum_of, is_tiled_image_of, lemma_sum_step,
    lemma_tile_of_sampler, normalize, render_tile, spec_resolves_to, Filter, RenderFunction,
};
use crate::sampler::{PixelSample, Sampler, SamplerTile, SamplerTiles};
use crate::tiling::grid_tile;
use vstd::prelude::*;

verus! {

/// Tiles that each worker gets on average unless told otherwise.
pub const DEFAULT_TILES_PER_WORKER: usize = 24;

/// Capacity of the queue of tiles that wait for a worker.
pub const INPUT_CHANNEL_CAPACITY: usize = 2048;

/// Capacity of the queue of finished tile rasters that wait to be merged.
pub const OUTPUT_CHANNEL_CAPACITY: usize = 2048;

/// The largest number of tiles that a grid is planned for.
pub const MAX_TILE_TARGET: u64 = 0xffff_ffff;

/// How many workers render, and how many tiles each of them gets on
/// average.
#[derive(Clone, Debug)]
pub struct MultiThreadedRenderer {
    worker_count: usize,
    tiles_per_worker: usize,
}

/// Whether `root` is the integer square root of `n`, rounded down.
pub open spec fn is_floor_sqrt(n: int, root: int) -> bool {
    0 <= root && root * root <= n < (root + 1) * (root + 1)
}

/// Whether `root` is the whole number nearest to the square root of `n`.
pub open spec fn is_rounded_sqrt(n: int, root: int) -> bool {
    (n == 0 && root == 0) || (root >= 1 && root * root - root < n <= root * root + root)
}

/// Whether `count` tiles along an axis suit a grid of about `target` tiles
/// over a rectangle with `along` cells on this axis and `across` on the
/// other: the nearest whole number to the square root of `target * along /
/// across`, but at least one.
pub open spec fn is_axis_tile_count(target: int, along: int, across: int, count: int) -> bool {
    if along == 0 || across == 0 {
        count == 1
    } else {
        let wanted = (target * along) / across;
        if wanted == 0 {
            count == 1
        } else {
            is_rounded_sqrt(wanted, count)
        }
    }
}

/// The integer square root, rounded down.
pub fn floor_sqrt(n: u64) -> (root: u64)
    ensures
        is_floor_sqrt(n as int, root as int),
        root <= 0xffff_ffff,
{
    let mut low: u64 = 0;
    let mut high: u64 = 0x1_0000_0000;
    assert(0x1_0000_0000 * 0x1_0000_0000 > n) by (nonlinear_arith)
        requires
            n <= 0xffff_ffff_ffff_ffff,
    ;
    while high - low > 1
        invariant
            low < high <= 0x1_0000_0000,
            low * low <= n < high * high,
        decreases high - low,
    {
        let middle: u64 = low + (high - low) / 2;
        assert(middle * middle <= 0xffff_ffff * 0xffff_ffff) by (nonlinear_arith)
            requires
                middle <= 0xffff_ffff,
        ;
        if middle * middle <= n {
            low = middle;
        } else {
            high = middle;
        }
    }
    low
}

/// The whole number nearest to the square root.
pub fn rounded_sqrt(n: u64) -> (root: u64)
    requires
        n <= 0xffff_ffff * 0xffff_ffff,
    ensures
        is_rounded_sqrt(n as int, root as int),
        root <= 0xffff_ffff,
{
    let floor: u64 = floor_sqrt(n);
    assert(floor * floor <= 0xffff_ffff * 0xffff_ffff) by (nonlinear_arith)
        requires
            floor <= 0xffff_ffff,
    ;
    assert((floor + 1) * (floor + 1) == floor * floor + 2 * floor + 1) by (nonlinear_arith);
    if n - floor * floor > floor {
        assert((floor + 1) * (floor + 1) - (floor + 1) == floor * floor + floor)
            by (nonlinear_arith);
        assert((floor + 1) * (floor + 1) + (floor + 1) == floor * floor + 3 * floor + 2)
            by (nonlinear_arith);
        assert(floor < 0xffff_ffff) by (nonlinear_arith)
            requires
                n <= 0xffff_ffff * 0xffff_ffff,
                n > floor * floor + floor,
                floor <= 0xffff_ffff,
        ;
        floor + 1
    } else {
        assert(n == 0 ==> floor == 0) by (nonlinear_arith)
            requires
                floor * floor <= n,
                floor >= 0,
        ;
        assert(floor >= 1 ==> floor * floor - floor < floor * floor);
        floor
    }
}

/// The number of tiles along one axis for a grid of about `target` tiles.
fn axis_tile_count(target: u64, along: u32, across: u32) -> (count: u32)
    requires
        target <= MAX_TILE_TARGET,
    ensures
        count >= 1,
        is_axis_tile_count(target as int, along as int, across as int, count as int),
{
    if along == 0 || across == 0 {
        return 1;
    }
    assert(target * along <= 0xffff_ffff * 0xffff_ffff) by (nonlinear_arith)
        requires
            target <= 0xffff_ffff,
            along <= 0xffff_ffff,
    ;
    let product: u64 = target * along as u64;
    let wanted: u64 = product / across as u64;
    assert(wanted <= product) by (nonlinear_arith)
        requires
            wanted == product / (across as u64),
            across >= 1,
    ;
    if wanted == 0 {
        1
    } else {
        let root: u64 = rounded_sqrt(wanted);
        root as u32
    }
}

/// `num_cpus::get`: the number of logical processors that this process may
/// use. Nothing is claimed of the number.
#[verifier::external_body]
fn available_cpus() -> (count: usize) {
    num_cpus::get()
}

impl MultiThreadedRenderer {
    pub closed spec fn spec_worker_count(self) -> int {
        self.worker_count as int
    }

    pub closed spec fn spec_tiles_per_worker(self) -> int {
        self.tiles_per_worker as int
    }

    /// There is at least one worker, with at least one tile.
    pub open spec fn wf(self) -> bool {
        self.spec_worker_count() >= 1 && self.spec_tiles_per_worker() >= 1
    }

    /// The number of tiles that the grid aims at: the workers times the
    /// tiles of each, cut down to `MAX_TILE_TARGET`.
    pub open spec fn spec_tile_target(self) -> int {
        let product = self.spec_worker_count() * self.spec_tiles_per_worker();
        if product <= MAX_TILE_TARGET {
            product
        } else {
            MAX_TILE_TARGET as int
        }
    }

    /// Whether `grid` holds the numbers of tiles along x and along y that
    /// `tile_grid` chooses for an image over `rectangle`.
    pub open spec fn is_grid_for(self, rectangle: Rectangle, grid: (int, int)) -> bool {
        &&& grid.0 >= 1
        &&& grid.1 >= 1
        &&& is_axis_tile_count(
            self.spec_tile_target(),
            rectangle.spec_width(),
            rectangle.spec_height(),
            grid.0,
        )
        &&& is_axis_tile_count(
            self.spec_tile_target(),
            rectangle.spec_height(),
            rectangle.spec_width(),
            grid.1,
        )
    }

    pub fn new(worker_count: usize, tiles_per_worker: usize) -> (r: MultiThreadedRenderer)
        requires
            worker_count >= 1,
            tiles_per_worker >= 1,
        ensures
            r.wf(),
            r.spec_worker_count() == worker_count,
            r.spec_tiles_per_worker() == tiles_per_worker,
    {
        MultiThreadedRenderer { worker_count, tiles_per_worker }
    }

    /// One worker for each processor that is available, but at least one,
    /// and `DEFAULT_TILES_PER_WORKER` tiles for each.
    pub fn with_defaults() -> (r: MultiThreadedRenderer)
        ensures
            r.wf(),
            r.spec_tiles_per_worker() == DEFAULT_TILES_PER_WORKER,
    {
        MultiThreadedRenderer::with_workers(available_cpus())
    }

    /// The default configuration for a machine with `available`
    /// processors: that many workers, or one where none is reported.
    pub fn with_workers(available: usize) -> (r: MultiThreadedRenderer)
        ensures
            r.wf(),
            r.spec_worker_count() == if available == 0 {
                1
            } else {
                available as int
            },
            r.spec_tiles_per_worker() == DEFAULT_TILES_PER_WORKER,
    {
        let worker_count: usize = if available == 0 { 1 } else { available };
        MultiThreadedRenderer::new(worker_count, DEFAULT_TILES_PER_WORKER)
    }

    pub fn worker_count(&self) -> (count: usize)
        ensures
            count == self.spec_worker_count(),
    {
        self.worker_count
    }

    pub fn tiles_per_worker(&self) -> (count: usize)
        ensures
            count == self.spec_tiles_per_worker(),
    {
        self.tiles_per_worker
    }

    /// The number of tiles that the grid aims at.
    pub fn tile_target(&self) -> (target: u64)
        ensures
            target == self.spec_tile_target(),
            target <= MAX_TILE_TARGET,
    {
        let workers: u64 = if self.worker_count as u64 <= MAX_TILE_TARGET {
            self.worker_count as u64
        } else {
            MAX_TILE_TARGET
        };
        let tiles: u64 = if self.tiles_per_worker as u64 <= MAX_TILE_TARGET {
            self.tiles_per_worker as u64
        } else {
            MAX_TILE_TARGET
        };
        let ghost w = self.worker_count as int;
        let ghost t = self.tiles_per_worker as int;
        assert(workers * tiles <= 0xffff_ffff * 0xffff_ffff) by (nonlinear_arith)
            requires
                workers <= 0xffff_ffff,
                tiles <= 0xffff_ffff,
        ;
        assert(w * t >= workers * tiles) by (nonlinear_arith)
            requires
                w >= workers >= 0,
                t >= tiles >= 0,
        ;
        assert(w > 0xffff_ffff && t >= 1 ==> w * t > 0xffff_ffff) by (nonlinear_arith);
        assert(t > 0xffff_ffff && w >= 1 ==> w * t > 0xffff_ffff) by (nonlinear_arith);
        assert(w == 0 ==> w * t == 0) by (nonlinear_arith);
        assert(t == 0 ==> w * t == 0) by (nonlinear_arith);
        let product: u64 = workers * tiles;
        if product <= MAX_TILE_TARGET {
            product
        } else {
            MAX_TILE_TARGET
        }
    }

    /// The grid of tiles for an image over `rectangle`: about `tile_target`
    /// tiles in all, shared between the axes in the proportion of the
    /// rectangle's width to its height.
    pub fn tile_grid(&self, rectangle: &Rectangle) -> (counts: (u32, u32))
        requires
            rectangle.wf(),
        ensures
            self.is_grid_for(*rectangle, (counts.0 as int, counts.1 as int)),
    {
        let target: u64 = self.tile_target();
        let width: u32 = rectangle.width();
        let height: u32 = rectangle.height();
        (axis_tile_count(target, width, height), axis_tile_count(target, height, width))
    }

    /// Renders tile by tile on the calling thread: the grid is chosen by
    /// `tile_grid`, every tile is rendered into a raster of its own by
    /// `render_tile`, the tile rasters are added up by `accumulate_tile` in
    /// the order of the grid, and the sum is normalised. These are the steps
    /// that the workers and the aggregator of a parallel run perform, there
    /// in no fixed order.
    pub fn render_in_order<S: Sampler, R: RenderFunction, F: Filter<R::Weight>>(
        &self,
        sampler: &S,
        render_fn: &R,
        filter: &F,
    ) -> (raster: Raster<R::Value>)
        requires
            sampler.wf(),
            sampler.spec_rectangle().spec_size() <= usize::MAX,
        ensures
            raster.wf(),
            raster.spec_rectangle() == sampler.spec_rectangle(),
            exists|
                grid: (int, int),
                start: Seq<(R::Value, R::Weight)>,
                tile_rasters: Seq<Raster<(R::Value, R::Weight)>>,
            |
                self.is_grid_for(sampler.spec_rectangle(), grid) && #[trigger] is_tiled_image_of::<
                    S,
                    R,
                    F,
                >(
                    raster,
                    sampler,
                    render_fn,
                    filter,
                    sampler.spec_rectangle().spec_tile_count_x(grid.0),
                    sampler.spec_rectangle().spec_tile_count_y(grid.1),
                    start,
                    tile_rasters,
                ),
    {
        let rectangle = *sampler.rectangle();
        let (tile_count_x, tile_count_y) = self.tile_grid(&rectangle);
        let mut sums = Raster::<(R::Value, R::Weight)>::new(rectangle);
        let mut tiles = sampler.tiles(tile_count_x, tile_count_y);
        let ghost samples_per_pixel = sampler.spec_samples_per_pixel();
        let ghost count_x = tiles.count_x();
        let ghost count_y = tiles.count_y();
        let ghost start = sums@;
        let ghost mut tile_rasters = Seq::<Raster<(R::Value, R::Weight)>>::empty();
        proof {
            sums.lemma_len();
        }
        loop
            invariant
                tiles.wf(),
                tiles.spec_rectangle() == rectangle,
                tiles.spec_samples_per_pixel() == samples_per_pixel,
                tiles.count_x() == count_x,
                tiles.count_y() == count_y,
                sums.wf(),
                sums.spec_rectangle() == rectangle,
                rectangle.wf(),
                rectangle.spec_size() <= usize::MAX,
                is_sum_of::<R>(sums, start, tile_rasters),
                tile_rasters.len() == tiles.position(),
                rectangle == sampler.spec_rectangle(),
                samples_per_pixel == sampler.spec_samples_per_pixel(),
                forall|tile_rectangle: Rectangle, k: int, sample: PixelSample| #[trigger]
                    tiles.admits(tile_rectangle, k, sample) == sampler.admits(
                        tile_rectangle,
                        k,
                        sample,
                    ),
                forall|t: int|
                    0 <= t < tile_rasters.len() ==> is_rendered_tile::<S, R, F>(
                        #[trigger] tile_rasters[t],
                        sampler,
                        render_fn,
                        filter,
                        grid_tile(rectangle, count_x, count_y, t),
                        rectangle,
                    ),
            ensures
                tiles.remaining() <= 0,
            decreases tiles.remaining(),
        {
            let ghost position = tiles.position();
            match tiles.next() {
                Some(tile) => {
                    let mut tile = tile;
                    let ghost given = tile;
                    proof {
                        tile.lemma_counts();
                    }
                    let tile_raster = render_tile::<S::Tile, R, F>(
                        &mut tile,
                        &rectangle,
                        render_fn,
                        filter,
                    );
                    let ghost before = sums;
                    accumulate_tile::<R>(&mut sums, &tile_raster);
                    proof {
                        lemma_sum_step::<R>(before, sums, start, tile_rasters, tile_raster);
                        lemma_tile_of_sampler::<S, R, F>(
                            tile_raster,
                            &given,
                            sampler,
                            render_fn,
                            filter,
                            rectangle,
                            &tile,
                        );
                        tile_rasters = tile_rasters.push(tile_raster);
                    }
                },
                None => {
                    break ;
                },
            }
        }
        let image = normalize::<R>(&sums);
        proof {
            tiles.lemma_counts();
            sums.lemma_len();
            assert forall|x: int, y: int| rectangle.spec_contains(x, y) implies spec_resolves_to::<
                R,
            >(sums.cell(x, y), #[trigger] image.cell(x, y)) by {
                lemma_linear_index_bound(rectangle, x, y);
            }
            assert(self.is_grid_for(rectangle, (tile_count_x as int, tile_count_y as int)));
            assert(is_tiled_image_of::<S, R, F>(
                image,
                sampler,
                render_fn,
                filter,
                rectangle.spec_tile_count_x(tile_count_x as int),
                rectangle.spec_tile_count_y(tile_count_y as int),
                start,
                tile_rasters,
            ));
        }
        image
    }
}

} // verus!
