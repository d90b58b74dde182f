use sample_render::raster::Raster;
use sample_render::rectangle::Rectangle;

fn counting_raster(rectangle: Rectangle) -> Raster<i16> {
    let mut source = Raster::<i16>::new(rectangle);
    let mut v = 0i16;
    let mut cells = rectangle.index_iter();
    while let Some((x, y)) = cells.next() {
        source.set(x, y, v);
        v += 1;
    }
    source
}

#[test]
fn raster_rectangle() {
    let raster = Raster::<u8>::new(Rectangle::new(10, 20, 100, 220));
    assert_eq!(*raster.rectangle(), Rectangle::new(10, 20, 100, 220));
}

#[test]
fn raster_get_set() {
    let mut raster = Raster::<u8>::new(Rectangle::new(10, 20, 100, 220));
    raster.set(12, 40, 64u8);
    assert_eq!(raster.get(12, 40), 64u8);
}

#[test]
fn raster_get_mut() {
    let mut raster = Raster::<u8>::new(Rectangle::new(10, 20, 100, 220));
    *raster.get_mut(12, 40) = 64u8;
    assert_eq!(raster.get(12, 40), 64u8);
}

#[test]
fn raster_merge() {
    let source = counting_raster(Rectangle::new(0, 0, 50, 80));

    let mut target = Raster::<i16>::new(Rectangle::new(10, 20, 100, 220));
    target.merge(&source, |v1, v2| v1 + v2);

    assert_eq!(*target.rectangle(), Rectangle::new(10, 20, 100, 220));
    let mut cells = target.rectangle().index_iter();
    while let Some((x, y)) = cells.next() {
        if x < 50 && y < 80 {
            assert_eq!(target.get(x, y), (y * 50 + x) as i16);
        } else {
            assert_eq!(target.get(x, y), 0);
        }
    }
}

#[test]
fn raster_map() {
    let source = counting_raster(Rectangle::new(0, 0, 50, 80));

    let result = source.map(|v| v + 1);

    assert_eq!(*result.rectangle(), Rectangle::new(0, 0, 50, 80));
    let mut cells = source.rectangle().index_iter();
    while let Some((x, y)) = cells.next() {
        assert_eq!(result.get(x, y), (y * 50 + x) as i16 + 1);
        assert_eq!(source.get(x, y), (y * 50 + x) as i16);
    }
}

#[test]
fn raster_new_holds_defaults() {
    let raster = Raster::<(i32, bool)>::new(Rectangle::new(1, 2, 4, 5));
    let mut cells = raster.rectangle().index_iter();
    let mut count = 0;
    while let Some((x, y)) = cells.next() {
        assert_eq!(raster.get(x, y), (0, false));
        count += 1;
    }
    assert_eq!(count, 9);
}

#[test]
fn raster_set_changes_one_cell_only() {
    let mut raster = Raster::<u8>::new(Rectangle::new(0, 0, 3, 3));
    raster.set(1, 2, 9);
    let mut cells = raster.rectangle().index_iter();
    while let Some((x, y)) = cells.next() {
        assert_eq!(raster.get(x, y), if (x, y) == (1, 2) { 9 } else { 0 });
    }
}

#[test]
fn raster_merge_with_disjoint_raster_changes_nothing() {
    let mut a = counting_raster(Rectangle::new(0, 0, 2, 2));
    let mut b = Raster::<i16>::new(Rectangle::new(5, 5, 7, 7));
    b.set(5, 5, 100);
    b.set(6, 6, 100);
    a.merge(&b, |v1, v2| v1 + v2 + 1000);
    assert_eq!(a.get(0, 0), 0);
    assert_eq!(a.get(1, 0), 1);
    assert_eq!(a.get(0, 1), 2);
    assert_eq!(a.get(1, 1), 3);
}

#[test]
fn raster_merge_can_mix_element_types() {
    let mut sums = Raster::<u32>::new(Rectangle::new(0, 0, 3, 1));
    let mut flags = Raster::<bool>::new(Rectangle::new(1, 0, 5, 1));
    flags.set(1, 0, true);
    let mut calls = 0;
    sums.merge(&flags, |sum, flag| {
        calls += 1;
        if flag { sum + 10 } else { sum + 1 }
    });
    assert_eq!(calls, 2);
    assert_eq!((sums.get(0, 0), sums.get(1, 0), sums.get(2, 0)), (0, 10, 1));
}

#[test]
fn raster_map_keeps_the_shape() {
    let source = counting_raster(Rectangle::new(3, 4, 8, 6));
    let mapped = source.map(|v| v > 4);
    assert_eq!(*mapped.rectangle(), *source.rectangle());
    assert_eq!(mapped.rectangle().size(), 10);
    assert!(!mapped.get(7, 4));
    assert!(mapped.get(3, 5));
}
