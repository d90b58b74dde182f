use sample_render::rectangle::Rectangle;

#[test]
fn rectangle_new() {
    let rect = Rectangle::new(10, 20, 100, 220);
    assert_eq!(rect.left, 10);
    assert_eq!(rect.top, 20);
    assert_eq!(rect.right, 100);
    assert_eq!(rect.bottom, 220);
}

#[test]
fn rectangle_width() {
    let rect = Rectangle::new(10, 20, 100, 220);
    assert_eq!(rect.width(), 90);
}

#[test]
fn rectangle_height() {
    let rect = Rectangle::new(10, 20, 100, 220);
    assert_eq!(rect.height(), 200);
}

#[test]
fn rectangle_size() {
    let rect = Rectangle::new(10, 20, 100, 220);
    assert_eq!(rect.size(), 90 * 200);
}

#[test]
fn rectangle_is_empty() {
    assert!(!Rectangle::new(10, 20, 11, 220).is_empty());
    assert!(!Rectangle::new(10, 20, 100, 21).is_empty());
    assert!(Rectangle::new(10, 20, 10, 220).is_empty());
    assert!(Rectangle::new(10, 20, 100, 20).is_empty());
}

#[test]
fn rectangle_contains() {
    let rect = Rectangle::new(10, 20, 100, 220);
    assert!(rect.contains(10, 20));
    assert!(rect.contains(99, 219));
    assert!(!rect.contains(9, 19));
    assert!(!rect.contains(100, 220));
}

#[test]
fn rectangle_union() {
    let rect1 = Rectangle::new(10, 20, 100, 220);

    // rect2 is outside rect1 to the top left
    let rect2 = Rectangle::new(5, 10, 8, 12);
    assert_eq!(rect1.union(&rect2), Rectangle::new(5, 10, 100, 220));

    // rect2's top left is outside rect1's top left, rect2's right bottom is inside rect1
    let rect2 = Rectangle::new(5, 10, 50, 80);
    assert_eq!(rect1.union(&rect2), Rectangle::new(5, 10, 100, 220));

    // rect2's top left is outside rect1's top left, rect2's right bottom is outside rect1 to the right bottom
    let rect2 = Rectangle::new(5, 10, 120, 240);
    assert_eq!(rect1.union(&rect2), Rectangle::new(5, 10, 120, 240));

    // rect2's top left is inside rect1, rect2's right bottom is outside rect1 to the right bottom
    let rect2 = Rectangle::new(15, 25, 120, 240);
    assert_eq!(rect1.union(&rect2), Rectangle::new(10, 20, 120, 240));
}

#[test]
fn rectangle_intersection() {
    let rect1 = Rectangle::new(10, 20, 100, 220);

    // rect2 is outside rect1 to the top left
    let rect2 = Rectangle::new(5, 10, 8, 12);
    assert_eq!(rect1.intersection(&rect2), None);

    // rect2's top left is outside rect1's top left, rect2's right bottom is inside rect1
    let rect2 = Rectangle::new(5, 10, 50, 80);
    assert_eq!(rect1.intersection(&rect2), Some(Rectangle::new(10, 20, 50, 80)));

    // rect2's top left is outside rect1's top left, rect2's right bottom is outside rect1 to the right bottom
    let rect2 = Rectangle::new(5, 10, 120, 240);
    assert_eq!(rect1.intersection(&rect2), Some(Rectangle::new(10, 20, 100, 220)));

    // rect2's top left is inside rect1, rect2's right bottom is outside rect1 to the right bottom
    let rect2 = Rectangle::new(15, 25, 120, 240);
    assert_eq!(rect1.intersection(&rect2), Some(Rectangle::new(15, 25, 100, 220)));
}

#[test]
fn rectangle_overlaps() {
    let rect1 = Rectangle::new(10, 20, 100, 220);

    // rect2 is outside rect1 to the top left
    let rect2 = Rectangle::new(5, 10, 8, 12);
    assert!(!rect1.overlaps(&rect2));

    // rect2's top left is outside rect1's top left, rect2's right bottom is inside rect1
    let rect2 = Rectangle::new(5, 10, 50, 80);
    assert!(rect1.overlaps(&rect2));

    // rect2's top left is outside rect1's top left, rect2's right bottom is outside rect1 to the right bottom
    let rect2 = Rectangle::new(5, 10, 120, 240);
    assert!(rect1.overlaps(&rect2));

    // rect2's top left is inside rect1, rect2's right bottom is outside rect1 to the right bottom
    let rect2 = Rectangle::new(15, 25, 120, 240);
    assert!(rect1.overlaps(&rect2));
}

#[test]
fn rectangle_index_iter() {
    let rect = Rectangle::new(10, 20, 100, 220);

    let (mut min_x, mut max_x) = (u32::MAX, u32::MIN);
    let (mut min_y, mut max_y) = (u32::MAX, u32::MIN);
    let mut count = 0;

    let mut indices = rect.index_iter();
    while let Some((x, y)) = indices.next() {
        (min_x, max_x) = (min_x.min(x), max_x.max(x));
        (min_y, max_y) = (min_y.min(y), max_y.max(y));
        count += 1;
    }

    assert_eq!((min_x, max_x), (10, 99));
    assert_eq!((min_y, max_y), (20, 219));
    assert_eq!(count, 90 * 200);
}

#[test]
fn rectangle_tile_iter_horizontal() {
    for width in 8..122 {
        let rect = Rectangle::new(13, 0, 13 + width, 10);

        let mut count = 0;
        let mut last_right = 13;

        let mut tiles = rect.tile_iter(11, 1);
        while let Some(tile) = tiles.next() {
            count += 1;

            assert!(!tile.is_empty(), "empty tile");

            assert_eq!(tile.left, last_right, "horizontal gap between tiles");
            last_right = tile.right;
        }

        let expected_count = width.min(11); // not more than the width of the rectangle
        assert_eq!(count, expected_count, "incorrect horizontal tile count: {} != {}", count, expected_count);
    }
}

#[test]
fn rectangle_tile_iter_example() {
    let rect = Rectangle::new(0, 0, 1920, 1080);
    println!("***** rect: {:?}", rect);

    let mut tiles = rect.tile_iter(16, 9);
    while let Some(tile) = tiles.next() {
        println!("  --- tile: {:?}; w={}, h={}", tile, tile.width(), tile.height());
    }
}

#[test]
fn rectangle_linear_index() {
    let rect = Rectangle::new(10, 20, 100, 220);
    assert_eq!(rect.linear_index(10, 20), 0);
    assert_eq!(rect.linear_index(99, 20), 89);
    assert_eq!(rect.linear_index(10, 21), 90);
    assert_eq!(rect.linear_index(10, 22), 180);
    assert_eq!(rect.linear_index(99, 219), 90 * 200 - 1);
}

#[test]
fn index_iter_is_row_major_and_complete() {
    let rect = Rectangle::new(3, 7, 6, 9);
    let mut indices = rect.index_iter();
    assert_eq!(indices.size_hint(), (6, Some(6)));
    let mut seen = Vec::new();
    while let Some(point) = indices.next() {
        seen.push(point);
        assert_eq!(indices.size_hint(), (6 - seen.len(), Some(6 - seen.len())));
    }
    assert_eq!(seen, vec![(3, 7), (4, 7), (5, 7), (3, 8), (4, 8), (5, 8)]);
    assert_eq!(indices.next(), None);
    assert_eq!(indices.next(), None);
    for (i, (x, y)) in seen.iter().enumerate() {
        assert!(rect.contains(*x, *y));
        assert_eq!(rect.linear_index(*x, *y), i);
    }
}

#[test]
fn index_iter_of_empty_rectangles_yields_nothing() {
    assert_eq!(Rectangle::new(4, 4, 4, 9).index_iter().next(), None);
    assert_eq!(Rectangle::new(4, 4, 9, 4).index_iter().next(), None);
    assert_eq!(Rectangle::new(4, 4, 4, 4).index_iter().size_hint(), (0, Some(0)));
}

#[test]
fn tile_iter_partitions_the_rectangle() {
    for (left, top, right, bottom, count_x, count_y) in [
        (0u32, 0u32, 10u32, 7u32, 3u32, 2u32),
        (5, 9, 18, 20, 4, 4),
        (2, 3, 3, 4, 5, 5),
        (0, 0, 17, 1, 7, 3),
        (1, 1, 8, 30, 9, 9),
    ] {
        let rect = Rectangle::new(left, top, right, bottom);
        let mut covered = vec![0u32; rect.size()];
        let mut total = 0;
        let mut tiles = rect.tile_iter(count_x, count_y);
        let expected_tiles = (count_x.min(rect.width()) * count_y.min(rect.height())) as usize;
        assert_eq!(tiles.size_hint(), (expected_tiles, Some(expected_tiles)));
        let mut tile_count = 0;
        while let Some(tile) = tiles.next() {
            tile_count += 1;
            total += tile.size();
            assert!(!tile.is_empty());
            let mut cells = tile.index_iter();
            while let Some((x, y)) = cells.next() {
                assert!(rect.contains(x, y));
                covered[rect.linear_index(x, y)] += 1;
            }
        }
        assert_eq!(tile_count, expected_tiles);
        assert_eq!(total, rect.size());
        assert!(covered.iter().all(|&n| n == 1));
    }
}

#[test]
fn tile_iter_last_tile_takes_the_remainder() {
    let rect = Rectangle::new(0, 0, 10, 1);
    let mut tiles = rect.tile_iter(3, 1);
    assert_eq!(tiles.next(), Some(Rectangle::new(0, 0, 3, 1)));
    assert_eq!(tiles.next(), Some(Rectangle::new(3, 0, 6, 1)));
    assert_eq!(tiles.next(), Some(Rectangle::new(6, 0, 10, 1)));
    assert_eq!(tiles.next(), None);
    assert_eq!(tiles.next(), None);
}

#[test]
fn tile_iter_grid_is_row_major() {
    let rect = Rectangle::new(10, 20, 14, 26);
    let mut tiles = rect.tile_iter(2, 3);
    assert_eq!(tiles.next(), Some(Rectangle::new(10, 20, 12, 22)));
    assert_eq!(tiles.next(), Some(Rectangle::new(12, 20, 14, 22)));
    assert_eq!(tiles.next(), Some(Rectangle::new(10, 22, 12, 24)));
    assert_eq!(tiles.size_hint(), (3, Some(3)));
    assert_eq!(tiles.next(), Some(Rectangle::new(12, 22, 14, 24)));
    assert_eq!(tiles.next(), Some(Rectangle::new(10, 24, 12, 26)));
    assert_eq!(tiles.next(), Some(Rectangle::new(12, 24, 14, 26)));
    assert_eq!(tiles.next(), None);
}

#[test]
fn tile_iter_of_empty_rectangles_yields_nothing() {
    assert_eq!(Rectangle::new(4, 4, 4, 9).tile_iter(2, 2).next(), None);
    assert_eq!(Rectangle::new(4, 4, 9, 4).tile_iter(2, 2).next(), None);
    assert_eq!(Rectangle::new(4, 4, 4, 9).tile_iter(2, 2).size_hint(), (0, Some(0)));
}

#[test]
fn union_and_intersection_with_touching_rectangles() {
    let a = Rectangle::new(0, 0, 2, 2);
    let b = Rectangle::new(2, 0, 4, 2);
    assert!(!a.overlaps(&b));
    assert_eq!(a.intersection(&b), None);
    assert_eq!(a.union(&b), Rectangle::new(0, 0, 4, 2));
}
