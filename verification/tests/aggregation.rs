use voxel_tiler_core::build_voxelizer::SimpleVoxelizerDefaultOptions;
use voxel_tiler_core::collection::VoxelCollection;
use voxel_tiler_core::element::{add_color_with_weight_check, Resolution, Voxel, ONE_METER};
use voxel_tiler_core::hmap3d::HMap3DVoxelCollection;
use voxel_tiler_core::voxelizer::{SimpleVoxelizer, Voxelizer};

fn cell_of(point: (f64, f64, f64), resolution: f64) -> (i32, i32, i32) {
    (
        (point.0 / resolution).floor() as i32,
        (point.1 / resolution).floor() as i32,
        (point.2 / resolution).floor() as i32,
    )
}

#[test]
fn one_metre_is_the_bit_pattern_of_one() {
    assert_eq!(ONE_METER, 1.0f64.to_bits());
}

#[test]
fn three_points_in_one_cell_are_averaged() {
    let resolution = 1.0f64;
    let points = vec![
        (cell_of((0.1, 0.1, 0.1), resolution), (60u8, 120u8, 180u8)),
        (cell_of((0.2, 0.3, 0.2), resolution), (0, 0, 0)),
        (cell_of((0.05, 0.05, 0.9), resolution), (120, 240, 0)),
    ];
    let mut voxelizer =
        SimpleVoxelizer::<SimpleVoxelizerDefaultOptions>::new(Resolution::Mater(resolution.to_bits())).unwrap();
    voxelizer.add(points);
    let store = voxelizer.finish(());
    let entries = store.to_vec();
    assert_eq!(entries.len(), 1);
    assert_eq!(entries[0].0, (0, 0, 0));
    assert_eq!(entries[0].1.weight, 3);
    assert_eq!(entries[0].1.color, (180, 360, 180));
    assert_eq!(store.to_points(), vec![((0, 0, 0), (60, 120, 60))]);
    assert_eq!(store.get_resolution(), resolution.to_bits());
}

#[test]
fn weight_saturates_at_its_largest_value() {
    let mut store = HMap3DVoxelCollection::default();
    for _ in 0..300 {
        store.insert_one((7, 7, 7), Voxel::new((4, 0, 0)));
    }
    let entries = store.to_vec();
    assert_eq!(entries.len(), 1);
    assert_eq!(entries[0].1.weight, 255);
    assert_eq!(entries[0].1.color, (4 * 255, 0, 0));
    assert_eq!(store.to_points(), vec![((7, 7, 7), (4, 0, 0))]);
}

#[test]
fn a_full_voxel_takes_nothing_more() {
    let mut current = Voxel { color: (1000, 2000, 3000), weight: 255 };
    add_color_with_weight_check(&mut current, Voxel { color: (9, 9, 9), weight: 7 });
    assert_eq!(current, Voxel { color: (1000, 2000, 3000), weight: 255 });
}

#[test]
fn an_offered_weight_is_cut_to_what_fits() {
    let mut current = Voxel { color: (100, 0, 50), weight: 250 };
    add_color_with_weight_check(&mut current, Voxel { color: (10, 20, 30), weight: 9 });
    assert_eq!(current, Voxel { color: (100 + 10 * 5, 20 * 5, 50 + 30 * 5), weight: 255 });
}

#[test]
fn an_offered_weight_that_fits_is_taken_whole() {
    let mut current = Voxel { color: (100, 0, 50), weight: 2 };
    add_color_with_weight_check(&mut current, Voxel { color: (10, 20, 30), weight: 3 });
    assert_eq!(current, Voxel { color: (130, 60, 140), weight: 5 });
}

#[test]
fn the_pool_stops_at_its_largest_value() {
    let mut current = Voxel { color: (65000, 0, 0), weight: 1 };
    add_color_with_weight_check(&mut current, Voxel { color: (300, 1, 65535), weight: 2 });
    assert_eq!(current, Voxel { color: (65535, 2, 65535), weight: 3 });
}

#[test]
fn the_average_divides_and_stops_at_the_largest_channel() {
    assert_eq!(Voxel { color: (180, 361, 0), weight: 3 }.average(), (60, 120, 0));
    assert_eq!(Voxel { color: (65535, 255, 256), weight: 1 }.average(), (255, 255, 255));
    assert_eq!(Voxel { color: (9, 9, 9), weight: 0 }.average(), (0, 0, 0));
    assert_eq!(Voxel::of_color((1, 2, 3)), Voxel { color: (1, 2, 3), weight: 1 });
    assert_eq!(Voxel::new((300, 2, 3)), Voxel { color: (300, 2, 3), weight: 1 });
    assert_eq!(Voxel::default(), Voxel { color: (0, 0, 0), weight: 0 });
}

#[test]
fn insertion_order_does_not_change_the_cells() {
    let entries = vec![
        ((0, 0, 0), Voxel::new((10, 20, 30))),
        ((1, 0, 0), Voxel::new((1, 1, 1))),
        ((0, 0, 0), Voxel::new((50, 0, 7))),
        ((0, 0, 0), Voxel::new((3, 3, 3))),
        ((1, 0, 0), Voxel::new((9, 8, 7))),
    ];
    let mut reversed = entries.clone();
    reversed.reverse();
    let first = HMap3DVoxelCollection::new(entries, None, (0, 0, 0), ONE_METER);
    let second = HMap3DVoxelCollection::new(reversed, None, (0, 0, 0), ONE_METER);
    let mut a = first.to_vec();
    let mut b = second.to_vec();
    a.sort_by_key(|entry| entry.0);
    b.sort_by_key(|entry| entry.0);
    assert_eq!(a, b);
    assert_eq!(
        a,
        vec![
            ((0, 0, 0), Voxel { color: (63, 23, 40), weight: 3 }),
            ((1, 0, 0), Voxel { color: (10, 9, 8), weight: 2 }),
        ]
    );
    let mut colors = first.to_points();
    colors.sort();
    assert_eq!(colors, vec![((0, 0, 0), (21, 7, 13)), ((1, 0, 0), (5, 4, 4))]);
}

#[test]
fn every_stored_weight_is_at_least_one() {
    let mut store = HMap3DVoxelCollection::default();
    store.insert_one((0, 0, 0), Voxel { color: (1, 1, 1), weight: 0 });
    assert!(!store.has(&(0, 0, 0)));
    store.insert_one((0, 0, 0), Voxel { color: (1, 1, 1), weight: 200 });
    store.insert_one((0, 0, 0), Voxel { color: (1, 1, 1), weight: 200 });
    store.insert_one((2, 0, 0), Voxel { color: (1, 1, 1), weight: 1 });
    for (_, voxel) in store.to_vec() {
        assert!(voxel.weight >= 1);
    }
    assert!(store.has(&(0, 0, 0)));
}
