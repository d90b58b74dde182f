use std::sync::Mutex;

use sample_render::raster::Raster;
use sample_render::rectangle::Rectangle;
use sample_render::renderer::multithreaded::{floor_sqrt, rounded_sqrt, DEFAULT_TILES_PER_WORKER};
use sample_render::renderer::{
    accumulate_tile, accumulation_rectangle, normalize, render_tile, splat, splat_window, Filter,
    MultiThreadedRenderer, RenderFunction, Renderer, SimpleRenderer,
};
use sample_render::sampler::{
    PixelSample, Sampler, SamplerTile, SamplerTiles, StratifiedSampler,
};

/// A function with the same real value everywhere.
struct Constant(f32);

impl RenderFunction for Constant {
    type Value = f32;
    type Weight = f32;

    fn spec_add_values(a: f32, b: f32) -> f32 {
        a + b
    }

    fn spec_add_weights(a: f32, b: f32) -> f32 {
        a + b
    }

    fn spec_scale(value: f32, weight: f32) -> f32 {
        value * weight
    }

    fn spec_divide(value: f32, weight: f32) -> f32 {
        value / weight
    }

    fn spec_is_zero(weight: f32) -> bool {
        weight == 0.0
    }

    fn evaluate(&self, _sample: &PixelSample) -> f32 {
        self.0
    }

    fn add_values(a: f32, b: f32) -> f32 {
        a + b
    }

    fn add_weights(a: f32, b: f32) -> f32 {
        a + b
    }

    fn scale(value: f32, weight: f32) -> f32 {
        value * weight
    }

    fn divide(value: f32, weight: f32) -> f32 {
        value / weight
    }

    fn is_zero(weight: f32) -> bool {
        weight == 0.0
    }
}

/// Whole-number values and weights: the value is the pixel's column plus
/// ten times its row.
struct Position;

impl RenderFunction for Position {
    type Value = u64;
    type Weight = u64;

    fn spec_add_values(a: u64, b: u64) -> u64 {
        a + b
    }

    fn spec_add_weights(a: u64, b: u64) -> u64 {
        a + b
    }

    fn spec_scale(value: u64, weight: u64) -> u64 {
        value * weight
    }

    fn spec_divide(value: u64, weight: u64) -> u64 {
        value / weight
    }

    fn spec_is_zero(weight: u64) -> bool {
        weight == 0
    }

    fn evaluate(&self, sample: &PixelSample) -> u64 {
        sample.pixel_x as u64 + 10 * sample.pixel_y as u64
    }

    fn add_values(a: u64, b: u64) -> u64 {
        a + b
    }

    fn add_weights(a: u64, b: u64) -> u64 {
        a + b
    }

    fn scale(value: u64, weight: u64) -> u64 {
        value * weight
    }

    fn divide(value: u64, weight: u64) -> u64 {
        value / weight
    }

    fn is_zero(weight: u64) -> bool {
        weight == 0
    }
}

/// Whole-number values and weights: seven everywhere.
struct Seven;

impl RenderFunction for Seven {
    type Value = u64;
    type Weight = u64;

    fn spec_add_values(a: u64, b: u64) -> u64 {
        a + b
    }

    fn spec_add_weights(a: u64, b: u64) -> u64 {
        a + b
    }

    fn spec_scale(value: u64, weight: u64) -> u64 {
        value * weight
    }

    fn spec_divide(value: u64, weight: u64) -> u64 {
        value / weight
    }

    fn spec_is_zero(weight: u64) -> bool {
        weight == 0
    }

    fn evaluate(&self, _sample: &PixelSample) -> u64 {
        7
    }

    fn add_values(a: u64, b: u64) -> u64 {
        a + b
    }

    fn add_weights(a: u64, b: u64) -> u64 {
        a + b
    }

    fn scale(value: u64, weight: u64) -> u64 {
        value * weight
    }

    fn divide(value: u64, weight: u64) -> u64 {
        value / weight
    }

    fn is_zero(weight: u64) -> bool {
        weight == 0
    }
}

fn distance(pixel_x: u32, pixel_y: u32, sample: &PixelSample) -> (f32, f32) {
    let scale = sample.offset_scale() as f32;
    let (offset_x, offset_y) = sample.sample_offset();
    let sample_x = sample.pixel_x as f32 + offset_x as f32 / scale;
    let sample_y = sample.pixel_y as f32 + offset_y as f32 / scale;
    (pixel_x as f32 + 0.5 - sample_x, pixel_y as f32 + 0.5 - sample_y)
}

struct BoxKernel {
    radius_x: f32,
    radius_y: f32,
}

impl Filter<f32> for BoxKernel {
    fn spec_reach(&self) -> (u32, u32) {
        self.reach()
    }

    fn spec_evaluate(&self, pixel_x: u32, pixel_y: u32, sample: PixelSample) -> f32 {
        self.evaluate(pixel_x, pixel_y, &sample)
    }

    fn reach(&self) -> (u32, u32) {
        ((self.radius_x + 0.5).floor() as u32, (self.radius_y + 0.5).floor() as u32)
    }

    fn evaluate(&self, pixel_x: u32, pixel_y: u32, sample: &PixelSample) -> f32 {
        let (dx, dy) = distance(pixel_x, pixel_y, sample);
        if dx.abs() <= self.radius_x && dy.abs() <= self.radius_y { 1.0 } else { 0.0 }
    }
}

struct TriangleKernel {
    radius_x: f32,
    radius_y: f32,
}

impl Filter<f32> for TriangleKernel {
    fn spec_reach(&self) -> (u32, u32) {
        self.reach()
    }

    fn spec_evaluate(&self, pixel_x: u32, pixel_y: u32, sample: PixelSample) -> f32 {
        self.evaluate(pixel_x, pixel_y, &sample)
    }

    fn reach(&self) -> (u32, u32) {
        ((self.radius_x + 0.5).floor() as u32, (self.radius_y + 0.5).floor() as u32)
    }

    fn evaluate(&self, pixel_x: u32, pixel_y: u32, sample: &PixelSample) -> f32 {
        let (dx, dy) = distance(pixel_x, pixel_y, sample);
        f32::max(0.0, self.radius_x - dx.abs()) * f32::max(0.0, self.radius_y - dy.abs())
    }
}

/// Weight one for every pixel within reach.
struct Flat(u32, u32);

impl Filter<u64> for Flat {
    fn spec_reach(&self) -> (u32, u32) {
        self.reach()
    }

    fn spec_evaluate(&self, pixel_x: u32, pixel_y: u32, sample: PixelSample) -> u64 {
        self.evaluate(pixel_x, pixel_y, &sample)
    }

    fn reach(&self) -> (u32, u32) {
        (self.0, self.1)
    }

    fn evaluate(&self, _pixel_x: u32, _pixel_y: u32, _sample: &PixelSample) -> u64 {
        1
    }
}

/// Weight two for the sample's own pixel and one for the others in reach.
struct Peak;

impl Filter<u64> for Peak {
    fn spec_reach(&self) -> (u32, u32) {
        self.reach()
    }

    fn spec_evaluate(&self, pixel_x: u32, pixel_y: u32, sample: PixelSample) -> u64 {
        self.evaluate(pixel_x, pixel_y, &sample)
    }

    fn reach(&self) -> (u32, u32) {
        (1, 1)
    }

    fn evaluate(&self, pixel_x: u32, pixel_y: u32, sample: &PixelSample) -> u64 {
        if (pixel_x, pixel_y) == sample.pixel() { 2 } else { 1 }
    }
}

#[test]
fn single_sample_at_center_gives_the_constant() {
    let sampler = StratifiedSampler::new(Rectangle::new(3, 4, 11, 9), 1, false);
    let filter = BoxKernel { radius_x: 0.5, radius_y: 0.5 };
    let image = SimpleRenderer::new().render(&sampler, &Constant(1.0), &filter);
    assert_eq!(*image.rectangle(), Rectangle::new(3, 4, 11, 9));
    let mut cells = image.rectangle().index_iter();
    while let Some((x, y)) = cells.next() {
        assert_eq!(image.get(x, y), 1.0);
    }
}

#[test]
fn renderers_agree_on_a_constant_function() {
    let sampler = StratifiedSampler::new(Rectangle::new(0, 0, 13, 9), 2, false);
    let function = Constant(0.75);
    let simple = SimpleRenderer::new();
    let tiled = MultiThreadedRenderer::new(2, 3);
    let wide = TriangleKernel { radius_x: 2.0, radius_y: 2.0 };
    let narrow = BoxKernel { radius_x: 0.5, radius_y: 0.5 };

    let a = simple.render(&sampler, &function, &wide);
    let b = tiled.render_in_order(&sampler, &function, &wide);
    let c = simple.render(&sampler, &function, &narrow);
    let d = tiled.render_in_order(&sampler, &function, &narrow);
    assert_eq!(*a.rectangle(), *b.rectangle());
    let mut cells = a.rectangle().index_iter();
    while let Some((x, y)) = cells.next() {
        assert!((a.get(x, y) - 0.75).abs() < 1e-5);
        assert!((b.get(x, y) - 0.75).abs() < 1e-5);
        assert!((a.get(x, y) - b.get(x, y)).abs() < 1e-5);
        assert!((c.get(x, y) - 0.75).abs() < 1e-5);
        assert!((c.get(x, y) - d.get(x, y)).abs() < 1e-5);
    }
}

#[test]
fn renderers_agree_exactly_on_whole_numbers() {
    let sampler = StratifiedSampler::new(Rectangle::new(2, 1, 9, 8), 1, false);
    let a = SimpleRenderer::new().render(&sampler, &Position, &Peak);
    let b = MultiThreadedRenderer::new(3, 4).render_in_order(&sampler, &Position, &Peak);
    let mut cells = a.rectangle().index_iter();
    let mut count = 0;
    while let Some((x, y)) = cells.next() {
        assert_eq!(a.get(x, y), b.get(x, y));
        count += 1;
    }
    assert_eq!(count, 49);
    // In the middle of the image nine samples reach a pixel, its own twice:
    // the weights add up to ten and the values to ten times the pixel's own.
    assert_eq!(a.get(5, 4), 45);
}

#[test]
fn splat_accumulates_within_reach_only() {
    let mut raster = Raster::<(u64, u64)>::new(Rectangle::new(0, 0, 5, 4));
    raster.set(1, 1, (100, 7));
    let sample = PixelSample::centered(1, 2, 1, (0, 0));
    splat::<Position, Flat>(&mut raster, &Flat(1, 0), &sample, 5);
    let mut cells = raster.rectangle().index_iter();
    while let Some((x, y)) = cells.next() {
        let expected = match (x, y) {
            (0, 2) | (1, 2) | (2, 2) => (5, 1),
            (1, 1) => (100, 7),
            _ => (0, 0),
        };
        assert_eq!(raster.get(x, y), expected);
    }
    splat::<Position, Peak>(&mut raster, &Peak, &sample, 3);
    assert_eq!(raster.get(1, 2), (5 + 6, 1 + 2));
    assert_eq!(raster.get(1, 1), (100 + 3, 7 + 1));
    assert_eq!(raster.get(3, 2), (0, 0));
}

#[test]
fn splat_outside_the_raster_changes_nothing() {
    let mut raster = Raster::<(u64, u64)>::new(Rectangle::new(10, 10, 12, 12));
    let sample = PixelSample::centered(3, 3, 1, (0, 0));
    splat::<Position, Flat>(&mut raster, &Flat(2, 2), &sample, 5);
    let mut cells = raster.rectangle().index_iter();
    while let Some((x, y)) = cells.next() {
        assert_eq!(raster.get(x, y), (0, 0));
    }
}

#[test]
fn splat_window_is_clipped_to_the_bounds() {
    let bounds = Rectangle::new(2, 2, 10, 10);
    let inside = PixelSample::centered(5, 6, 1, (0, 0));
    assert_eq!(splat_window(&inside, (1, 2), &bounds), Rectangle::new(4, 4, 7, 9));
    let corner = PixelSample::centered(2, 9, 1, (0, 0));
    assert_eq!(splat_window(&corner, (3, 3), &bounds), Rectangle::new(2, 6, 6, 10));
    let far = PixelSample::centered(20, 5, 1, (0, 0));
    assert!(splat_window(&far, (1, 1), &bounds).is_empty());
    let edge = PixelSample::centered(u32::MAX, 0, 1, (0, 0));
    assert!(splat_window(&edge, (u32::MAX, 0), &bounds).is_empty());
    assert_eq!(
        splat_window(&edge, (u32::MAX, u32::MAX), &bounds),
        Rectangle::new(2, 2, 10, 10)
    );
}

#[test]
fn accumulation_rectangle_widens_and_clips() {
    let bounds = Rectangle::new(0, 0, 20, 10);
    let tile = Rectangle::new(5, 2, 8, 4);
    assert_eq!(accumulation_rectangle(&tile, (2, 1), &bounds), Rectangle::new(3, 1, 10, 5));
    assert_eq!(accumulation_rectangle(&tile, (0, 0), &bounds), tile);
    assert_eq!(accumulation_rectangle(&tile, (9, 9), &bounds), Rectangle::new(0, 0, 17, 10));
    assert_eq!(accumulation_rectangle(&tile, (u32::MAX, u32::MAX), &bounds), bounds);
}

#[test]
fn render_tile_covers_the_border() {
    let bounds = Rectangle::new(0, 0, 6, 6);
    let sampler = StratifiedSampler::new(bounds, 1, false);
    let mut tiles = sampler.tiles(2, 2);
    let mut first = tiles.next().unwrap();
    assert_eq!(first.size_hint(), (9, Some(9)));
    let raster = render_tile::<_, Position, Flat>(&mut first, &bounds, &Position, &Flat(1, 1));
    assert_eq!(first.size_hint(), (0, Some(0)));
    assert_eq!(first.next(), None);
    assert_eq!(*raster.rectangle(), Rectangle::new(0, 0, 4, 4));
    // The corner pixel is reached by the samples of four pixels.
    assert_eq!(raster.get(0, 0), (0 + 1 + 10 + 11, 4));
    // The pixel beyond the tile is reached by the tile's last column and row only.
    assert_eq!(raster.get(3, 3), (22, 1));
    assert_eq!(raster.get(3, 0), (2 + 12, 2));
}

#[test]
fn accumulate_tile_adds_overlapping_cells() {
    let mut sums = Raster::<(u64, u64)>::new(Rectangle::new(0, 0, 3, 1));
    sums.set(1, 0, (4, 1));
    let mut part = Raster::<(u64, u64)>::new(Rectangle::new(1, 0, 5, 1));
    part.set(1, 0, (6, 2));
    part.set(2, 0, (8, 3));
    part.set(3, 0, (9, 9));
    accumulate_tile::<Position>(&mut sums, &part);
    assert_eq!(sums.get(0, 0), (0, 0));
    assert_eq!(sums.get(1, 0), (10, 3));
    assert_eq!(sums.get(2, 0), (8, 3));
}

#[test]
fn normalize_divides_or_gives_the_default() {
    let mut sums = Raster::<(f32, f32)>::new(Rectangle::new(0, 0, 3, 1));
    sums.set(0, 0, (3.0, 2.0));
    sums.set(2, 0, (5.0, 0.0));
    let image = normalize::<Constant>(&sums);
    assert_eq!(*image.rectangle(), Rectangle::new(0, 0, 3, 1));
    assert_eq!(image.get(0, 0), 1.5);
    assert_eq!(image.get(1, 0), 0.0);
    assert_eq!(image.get(2, 0), 0.0);
}

#[test]
fn square_roots() {
    assert_eq!(floor_sqrt(0), 0);
    assert_eq!(floor_sqrt(1), 1);
    assert_eq!(floor_sqrt(3), 1);
    assert_eq!(floor_sqrt(4), 2);
    assert_eq!(floor_sqrt(192), 13);
    assert_eq!(floor_sqrt(u64::MAX), 0xffff_ffff);
    assert_eq!(rounded_sqrt(0), 0);
    assert_eq!(rounded_sqrt(2), 1);
    assert_eq!(rounded_sqrt(3), 2);
    assert_eq!(rounded_sqrt(6), 2);
    assert_eq!(rounded_sqrt(7), 3);
    assert_eq!(rounded_sqrt(192), 14);
    assert_eq!(rounded_sqrt(0xffff_ffff * 0xffff_ffff), 0xffff_ffff);
}

#[test]
fn tile_grid_follows_the_aspect_ratio() {
    let renderer = MultiThreadedRenderer::new(8, 24);
    assert_eq!(renderer.worker_count(), 8);
    assert_eq!(renderer.tiles_per_worker(), 24);
    assert_eq!(renderer.tile_target(), 192);
    assert_eq!(renderer.tile_grid(&Rectangle::new(0, 0, 100, 100)), (14, 14));
    assert_eq!(renderer.tile_grid(&Rectangle::new(0, 0, 1920, 1080)), (18, 10));
    assert_eq!(renderer.tile_grid(&Rectangle::new(0, 0, 1080, 1920)), (10, 18));
    assert_eq!(renderer.tile_grid(&Rectangle::new(0, 0, 1000, 1)), (438, 1));
    assert_eq!(renderer.tile_grid(&Rectangle::new(5, 5, 5, 9)), (1, 1));
    let huge = MultiThreadedRenderer::new(usize::MAX, 2);
    assert_eq!(huge.tile_target(), 0xffff_ffff);
}

#[test]
fn default_renderer_has_workers() {
    let renderer = MultiThreadedRenderer::with_defaults();
    assert!(renderer.worker_count() >= 1);
    assert_eq!(renderer.tiles_per_worker(), DEFAULT_TILES_PER_WORKER);
    assert_eq!(renderer.tiles_per_worker(), 24);
    assert_eq!(MultiThreadedRenderer::with_workers(0).worker_count(), 1);
    assert_eq!(MultiThreadedRenderer::with_workers(6).worker_count(), 6);
}

#[test]
fn constant_function_renders_constant_in_exact_arithmetic() {
    let sampler = StratifiedSampler::new(Rectangle::new(4, 0, 15, 6), 2, true);
    let a = SimpleRenderer::new().render(&sampler, &Seven, &Peak);
    let b = MultiThreadedRenderer::new(4, 2).render_in_order(&sampler, &Seven, &Peak);
    let c = MultiThreadedRenderer::new(1, 1).render_in_order(&sampler, &Seven, &Flat(3, 0));
    assert_eq!(*a.rectangle(), Rectangle::new(4, 0, 15, 6));
    assert_eq!(*b.rectangle(), Rectangle::new(4, 0, 15, 6));
    let mut cells = a.rectangle().index_iter();
    while let Some((x, y)) = cells.next() {
        assert_eq!(a.get(x, y), 7);
        assert_eq!(b.get(x, y), 7);
        assert_eq!(c.get(x, y), 7);
    }
}

#[test]
fn pixels_without_weight_get_the_default() {
    /// Weight zero everywhere.
    struct Nothing;

    impl Filter<u64> for Nothing {
        fn spec_reach(&self) -> (u32, u32) {
            (1, 1)
        }

        fn spec_evaluate(&self, _pixel_x: u32, _pixel_y: u32, _sample: PixelSample) -> u64 {
            0
        }

        fn reach(&self) -> (u32, u32) {
            (1, 1)
        }

        fn evaluate(&self, _pixel_x: u32, _pixel_y: u32, _sample: &PixelSample) -> u64 {
            0
        }
    }

    let sampler = StratifiedSampler::new(Rectangle::new(0, 0, 3, 3), 1, false);
    let image = SimpleRenderer::new().render(&sampler, &Seven, &Nothing);
    let mut cells = image.rectangle().index_iter();
    while let Some((x, y)) = cells.next() {
        assert_eq!(image.get(x, y), 0);
    }
}

#[test]
fn rendering_an_empty_rectangle_gives_an_empty_image() {
    let sampler = StratifiedSampler::new(Rectangle::new(5, 5, 5, 9), 2, false);
    let a = SimpleRenderer::new().render(&sampler, &Seven, &Peak);
    let b = MultiThreadedRenderer::new(2, 2).render_in_order(&sampler, &Seven, &Peak);
    assert_eq!(*a.rectangle(), Rectangle::new(5, 5, 5, 9));
    assert_eq!(*b.rectangle(), Rectangle::new(5, 5, 5, 9));
    assert_eq!(a.rectangle().size(), 0);
}

/// Weight one for the sample's own pixel and zero for every other, with a
/// reach that may be wider than the support.
struct Own(u32);

impl Filter<u64> for Own {
    fn spec_reach(&self) -> (u32, u32) {
        (self.0, self.0)
    }

    fn spec_evaluate(&self, pixel_x: u32, pixel_y: u32, sample: PixelSample) -> u64 {
        self.evaluate(pixel_x, pixel_y, &sample)
    }

    fn reach(&self) -> (u32, u32) {
        (self.0, self.0)
    }

    fn evaluate(&self, pixel_x: u32, pixel_y: u32, sample: &PixelSample) -> u64 {
        if (pixel_x, pixel_y) == sample.pixel() { 1 } else { 0 }
    }
}

#[test]
fn a_wider_reach_changes_nothing_where_the_weight_is_zero() {
    let sampler = StratifiedSampler::new(Rectangle::new(1, 1, 6, 5), 2, false);
    let narrow = SimpleRenderer::new().render(&sampler, &Position, &Own(0));
    let wide = SimpleRenderer::new().render(&sampler, &Position, &Own(3));
    let mut cells = narrow.rectangle().index_iter();
    while let Some((x, y)) = cells.next() {
        assert_eq!(narrow.get(x, y), x as u64 + 10 * y as u64);
        assert_eq!(wide.get(x, y), narrow.get(x, y));
    }
}

#[test]
fn the_order_of_tile_rasters_does_not_matter() {
    let bounds = Rectangle::new(0, 0, 6, 4);
    let sampler = StratifiedSampler::new(bounds, 1, false);
    let mut rasters = Vec::new();
    let mut tiles = sampler.tiles(3, 2);
    while let Some(mut tile) = tiles.next() {
        rasters.push(render_tile::<_, Position, Peak>(&mut tile, &bounds, &Position, &Peak));
    }
    assert_eq!(rasters.len(), 6);
    let mut forward = Raster::<(u64, u64)>::new(bounds);
    for raster in rasters.iter() {
        accumulate_tile::<Position>(&mut forward, raster);
    }
    let mut backward = Raster::<(u64, u64)>::new(bounds);
    for raster in rasters.iter().rev() {
        accumulate_tile::<Position>(&mut backward, raster);
    }
    let whole = SimpleRenderer::new().render(&sampler, &Position, &Peak);
    let from_forward = normalize::<Position>(&forward);
    let mut cells = bounds.index_iter();
    while let Some((x, y)) = cells.next() {
        assert_eq!(forward.get(x, y), backward.get(x, y));
        assert_eq!(from_forward.get(x, y), whole.get(x, y));
    }
}

#[test]
fn every_sample_is_evaluated_once_where_it_lies() {
    /// Records every sample that it is asked about.
    struct Recorder(Mutex<Vec<PixelSample>>);

    impl RenderFunction for Recorder {
        type Value = u64;
        type Weight = u64;

        fn spec_add_values(a: u64, b: u64) -> u64 {
            a + b
        }

        fn spec_add_weights(a: u64, b: u64) -> u64 {
            a + b
        }

        fn spec_scale(value: u64, weight: u64) -> u64 {
            value * weight
        }

        fn spec_divide(value: u64, weight: u64) -> u64 {
            value / weight
        }

        fn spec_is_zero(weight: u64) -> bool {
            weight == 0
        }

        fn evaluate(&self, sample: &PixelSample) -> u64 {
            self.0.lock().unwrap().push(*sample);
            1
        }

        fn add_values(a: u64, b: u64) -> u64 {
            a + b
        }

        fn add_weights(a: u64, b: u64) -> u64 {
            a + b
        }

        fn scale(value: u64, weight: u64) -> u64 {
            value * weight
        }

        fn divide(value: u64, weight: u64) -> u64 {
            value / weight
        }

        fn is_zero(weight: u64) -> bool {
            weight == 0
        }
    }

    let rectangle = Rectangle::new(2, 3, 4, 5);
    let sampler = StratifiedSampler::new(rectangle, 2, false);
    let mut expected = Vec::new();
    for (x, y) in [(2, 3), (3, 3), (2, 4), (3, 4)] {
        for stratum in [(0, 0), (1, 0), (0, 1), (1, 1)] {
            expected.push(PixelSample::centered(x, y, 2, stratum));
        }
    }

    let recorder = Recorder(Mutex::new(Vec::new()));
    SimpleRenderer::new().render(&sampler, &recorder, &Peak);
    assert_eq!(*recorder.0.lock().unwrap(), expected);

    let recorder = Recorder(Mutex::new(Vec::new()));
    MultiThreadedRenderer::new(1, 1).render_in_order(&sampler, &recorder, &Peak);
    assert_eq!(*recorder.0.lock().unwrap(), expected);

    let jittered = StratifiedSampler::new(rectangle, 2, true);
    let recorder = Recorder(Mutex::new(Vec::new()));
    SimpleRenderer::new().render(&jittered, &recorder, &Peak);
    let seen = recorder.0.lock().unwrap();
    assert_eq!(seen.len(), expected.len());
    for (sample, centered) in seen.iter().zip(expected.iter()) {
        assert_eq!(sample.pixel(), centered.pixel());
        assert_eq!(sample.strata, 2);
        assert_eq!((sample.stratum_x, sample.stratum_y), (centered.stratum_x, centered.stratum_y));
    }
    assert!(seen.iter().any(|sample| sample.jitter_x != centered_jitter()));
}

fn centered_jitter() -> u32 {
    PixelSample::centered(0, 0, 1, (0, 0)).jitter_x
}
