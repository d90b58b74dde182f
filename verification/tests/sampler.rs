use rand_xoshiro::rand_core::SeedableRng;
use rand_xoshiro::Xoshiro128Plus;
use sample_render::rectangle::Rectangle;
use sample_render::sampler::{
    fallback_seed, generator_or_fallback, IndependentSampler, PixelSample, Sampler, SamplerTile,
    SamplerTiles, StratifiedSampler, JITTER_CENTER, JITTER_STEPS,
};

#[test]
fn stratified_sampler() {
    let rect = Rectangle::new(10, 20, 22, 30);
    let sampler = StratifiedSampler::new(rect, 2, true);

    let mut tile_count = 0;
    let mut tiles = sampler.tiles(3, 2);
    while let Some(mut tile) = tiles.next() {
        println!("***** tile: {:?}", tile.rectangle());
        tile_count += 1;

        let mut sample_count = 0;
        while let Some(sample) = tile.next() {
            println!("  --- sample: {:?}", sample);
            sample_count += 1;
        }

        // Total rect size is 12 * 10, 4 samples per pixel, divided by 6 tiles
        assert_eq!(sample_count, 12 * 10 * 4 / 6, "wrong number of samples in tile");
    }

    assert_eq!(tile_count, 6, "wrong number of tiles");
}

#[test]
fn independent_sampler() {
    let rect = Rectangle::new(10, 20, 22, 30);
    let sampler = IndependentSampler::new(&rect, 2);

    let mut tile_count = 0;
    let mut tiles = sampler.tiles(3, 2);
    while let Some(mut tile) = tiles.next() {
        tile_count += 1;

        let mut sample_count = 0;
        while let Some(_sample) = tile.next() {
            sample_count += 1;
        }

        // Total rect size is 12 * 10, 2 samples per pixel, divided by 6 tiles
        assert_eq!(sample_count, 12 * 10 * 2 / 6, "wrong number of samples in tile");
    }

    assert_eq!(tile_count, 6, "wrong number of tiles");
}

#[test]
fn stratified_sampler_without_jitter_hits_stratum_centers() {
    let rect = Rectangle::new(10, 20, 22, 30);
    let sampler = StratifiedSampler::new(rect, 2, false);
    assert_eq!(*sampler.rectangle(), rect);

    let mut per_pixel = vec![Vec::new(); rect.size()];
    let mut tiles = sampler.tiles(3, 2);
    assert_eq!(tiles.size_hint(), (6, Some(6)));
    while let Some(mut tile) = tiles.next() {
        let tile_rect = *tile.rectangle();
        assert_eq!(tile.size_hint(), (80, Some(80)));
        let mut sample_count = 0;
        while let Some(sample) = tile.next() {
            sample_count += 1;
            assert_eq!(tile.size_hint(), (80 - sample_count, Some(80 - sample_count)));
            let (x, y) = sample.pixel();
            assert!(tile_rect.contains(x, y));
            assert_eq!(sample.offset_scale(), 2 * JITTER_STEPS as u64);
            per_pixel[rect.linear_index(x, y)].push(sample.sample_offset());
        }
        assert_eq!(sample_count, 12 * 10 * 4 / 6);
        assert_eq!(tile.next(), None);
    }
    // Quarter and three quarters of the pixel, as steps out of 2 * JITTER_STEPS.
    let quarter = JITTER_CENTER as u64;
    let three_quarters = 3 * JITTER_CENTER as u64;
    for offsets in per_pixel {
        assert_eq!(
            offsets,
            vec![
                (quarter, quarter),
                (three_quarters, quarter),
                (quarter, three_quarters),
                (three_quarters, three_quarters),
            ]
        );
    }
}

#[test]
fn stratified_sampler_with_jitter_stays_in_stratum() {
    let rect = Rectangle::new(0, 0, 4, 3);
    let sampler = StratifiedSampler::new(rect, 3, true);
    let mut tiles = sampler.tiles(2, 1);
    let mut total = 0;
    while let Some(mut tile) = tiles.next() {
        let mut k = 0u32;
        while let Some(sample) = tile.next() {
            assert_eq!(sample.strata, 3);
            assert_eq!(sample.stratum_x, k % 9 % 3);
            assert_eq!(sample.stratum_y, k % 9 / 3);
            assert!(sample.jitter_x < JITTER_STEPS);
            assert!(sample.jitter_y < JITTER_STEPS);
            let (offset_x, offset_y) = sample.sample_offset();
            assert!(offset_x < sample.offset_scale());
            assert!(offset_y < sample.offset_scale());
            assert_eq!(offset_x / JITTER_STEPS as u64, sample.stratum_x as u64);
            assert_eq!(offset_y / JITTER_STEPS as u64, sample.stratum_y as u64);
            k += 1;
            total += 1;
        }
    }
    assert_eq!(total, 4 * 3 * 9);
}

#[test]
fn independent_sampler_visits_pixels_in_row_major_order() {
    let rect = Rectangle::new(5, 6, 8, 8);
    let sampler = IndependentSampler::new(&rect, 3);
    assert_eq!(*sampler.rectangle(), rect);
    let mut tiles = sampler.tiles(1, 1);
    let mut tile = tiles.next().unwrap();
    assert!(tiles.next().is_none());
    assert_eq!(*tile.rectangle(), rect);
    assert_eq!(tile.size_hint(), (18, Some(18)));
    let mut pixels = Vec::new();
    while let Some(sample) = tile.next() {
        assert_eq!(sample.strata, 1);
        assert_eq!((sample.stratum_x, sample.stratum_y), (0, 0));
        assert!(sample.jitter_x < JITTER_STEPS && sample.jitter_y < JITTER_STEPS);
        pixels.push(sample.pixel());
    }
    let mut expected = Vec::new();
    for y in 6..8 {
        for x in 5..8 {
            for _ in 0..3 {
                expected.push((x, y));
            }
        }
    }
    assert_eq!(pixels, expected);
}

#[test]
fn sampler_tiles_are_the_rectangle_tiles() {
    let rect = Rectangle::new(0, 0, 10, 7);
    let sampler = StratifiedSampler::new(rect, 1, false);
    let mut tiles = sampler.tiles(3, 2);
    let mut rect_tiles = rect.tile_iter(3, 2);
    while let Some(tile) = tiles.next() {
        assert_eq!(Some(*tile.rectangle()), rect_tiles.next());
    }
    assert_eq!(rect_tiles.next(), None);
}

#[test]
fn sampler_tile_counts_are_cut_down_to_the_rectangle() {
    let rect = Rectangle::new(0, 0, 2, 1);
    let sampler = IndependentSampler::new(&rect, 1);
    let mut tiles = sampler.tiles(5, 5);
    assert_eq!(tiles.size_hint(), (2, Some(2)));
    let mut count = 0;
    while let Some(mut tile) = tiles.next() {
        count += 1;
        assert_eq!(tile.rectangle().size(), 1);
        assert!(tile.next().is_some());
        assert!(tile.next().is_none());
    }
    assert_eq!(count, 2);
}

#[test]
fn pixel_sample_jittered_uses_upper_bits() {
    let sample = PixelSample::jittered(3, 4, 2, (1, 0), (0xffff_ffff, 0x0000_0100));
    assert_eq!(sample.pixel(), (3, 4));
    assert_eq!((sample.jitter_x, sample.jitter_y), (JITTER_STEPS - 1, 1));
    assert_eq!(
        sample.sample_offset(),
        (JITTER_STEPS as u64 + (JITTER_STEPS - 1) as u64, 1)
    );
    assert_eq!(sample.offset_scale(), 2 * JITTER_STEPS as u64);
    let scale = sample.offset_scale() as u128;
    assert_eq!(
        sample.sample(),
        (3 * scale + 2 * JITTER_STEPS as u128 - 1, 4 * scale + 1)
    );
}

#[test]
fn pixel_sample_centered_is_in_the_middle() {
    let sample = PixelSample::centered(0, 0, 1, (0, 0));
    assert_eq!(sample, PixelSample::new(0, 0, 1, (0, 0), (JITTER_CENTER, JITTER_CENTER)));
    assert_eq!(sample.sample_offset(), (JITTER_CENTER as u64, JITTER_CENTER as u64));
    assert_eq!(2 * sample.sample_offset().0, sample.offset_scale());
}

#[test]
fn fallback_seed_is_the_tile_corner() {
    assert_eq!(fallback_seed(&Rectangle::new(3, 5, 9, 9)), 3 * (1u64 << 32) + 5);
    assert_eq!(fallback_seed(&Rectangle::new(0, 0, 1, 1)), 0);
    assert_eq!(fallback_seed(&Rectangle::new(u32::MAX, u32::MAX, u32::MAX, u32::MAX)), u64::MAX);
}

#[test]
fn independent_samples_are_spread_over_the_pixel() {
    let sampler = IndependentSampler::new(&Rectangle::new(0, 0, 1, 1), 256);
    let mut tiles = sampler.tiles(1, 1);
    let mut tile = tiles.next().unwrap();
    let mut offsets = Vec::new();
    while let Some(sample) = tile.next() {
        assert_eq!(sample.pixel(), (0, 0));
        offsets.push(sample.sample_offset());
    }
    assert_eq!(offsets.len(), 256);
    let first = offsets[0];
    assert!(offsets.iter().any(|&offset| offset.0 != first.0));
    assert!(offsets.iter().any(|&offset| offset.1 != first.1));
    assert!(offsets.iter().any(|&offset| offset.0 < JITTER_CENTER as u64));
    assert!(offsets.iter().any(|&offset| offset.0 >= JITTER_CENTER as u64));
}

#[test]
fn generator_is_the_entropy_seeded_one_or_the_fallback() {
    let tile = Rectangle::new(3, 5, 9, 9);
    let seeded = Xoshiro128Plus::seed_from_u64(42);
    assert_eq!(generator_or_fallback(Some(seeded.clone()), &tile), seeded);
    let fallback = generator_or_fallback(None, &tile);
    assert_eq!(fallback, Xoshiro128Plus::seed_from_u64(3 * (1u64 << 32) + 5));
    assert_ne!(fallback, seeded);
    assert_ne!(fallback, generator_or_fallback(None, &Rectangle::new(5, 3, 9, 9)));
    assert_ne!(fallback, Xoshiro128Plus::seed_from_u64(0));
}
