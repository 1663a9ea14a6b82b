use voxel_tiler_core::collection::{
    calc_bounds, calc_bounds_from_2, JoinVoxelCollection, MergeError, VoxelCollection,
};
use voxel_tiler_core::element::{greater, lesser, step, Int, Number, Point, Voxel, ONE_METER};
use voxel_tiler_core::hmap2d::HMap2DVoxelCollection;
use voxel_tiler_core::hmap3d::HMap3DVoxelCollection;
use voxel_tiler_core::point_cloud::PointCloud;
use voxel_tiler_core::vec2::Vec2VoxelCollection;
use voxel_tiler_core::vec3::Vec3VoxelCollection;

fn sorted(mut entries: Vec<((i32, i32, i32), Voxel)>) -> Vec<((i32, i32, i32), Voxel)> {
    entries.sort_by_key(|entry| entry.0);
    entries
}

fn sample() -> Vec<((i32, i32, i32), Voxel)> {
    vec![
        ((1, 2, 3), Voxel::new((10, 20, 30))),
        ((-1, 0, 5), Voxel::new((1, 1, 1))),
        ((1, 2, 3), Voxel::new((30, 40, 50))),
    ]
}

#[test]
fn neighbours_stop_at_the_ends_of_the_range() {
    let point = (i32::MAX, i32::MIN, 0);
    assert_eq!(point.right(), None);
    assert_eq!(point.left(), Some((i32::MAX - 1, i32::MIN, 0)));
    assert_eq!(point.front(), Some((i32::MAX, i32::MIN + 1, 0)));
    assert_eq!(point.back(), None);
    assert_eq!(point.top(), Some((i32::MAX, i32::MIN, 1)));
    assert_eq!(point.bottom(), Some((i32::MAX, i32::MIN, -1)));
}

#[test]
fn planar_points_have_no_neighbour_above_or_below() {
    let point = (3, i32::MAX);
    assert_eq!(point.right(), Some((4, i32::MAX)));
    assert_eq!(point.left(), Some((2, i32::MAX)));
    assert_eq!(point.front(), None);
    assert_eq!(point.back(), Some((3, i32::MAX - 1)));
    assert_eq!(point.top(), None);
    assert_eq!(point.bottom(), None);
}

#[test]
fn bounds_are_least_and_greatest_by_axis() {
    let cells = vec![(1, 9, -3), (4, -2, 0), (-7, 3, 8)];
    assert_eq!(<(i32, i32, i32)>::calc_bounds(&cells), ((-7, -2, -3), (4, 9, 8)));
    let planar = vec![(1, 9), (4, -2), (-7, 3)];
    assert_eq!(<(i32, i32)>::calc_bounds(&planar), ((-7, -2), (4, 9)));
    assert_eq!(calc_bounds(&sample()), ((-1, 0, 3), (1, 2, 5)));
    assert_eq!(calc_bounds(&Vec::new()), ((0, 0, 0), (0, 0, 0)));
    assert_eq!(
        calc_bounds_from_2(((0, 5, -1), (3, 6, 0)), ((-2, 7, -1), (1, 9, 4))),
        ((-2, 5, -1), (3, 9, 4))
    );
}

#[test]
fn hash_store_merges_into_an_occupied_cell() {
    let mut store = HMap3DVoxelCollection::new(sample(), None, (5, 5, 5), ONE_METER);
    assert_eq!(
        sorted(store.to_vec()),
        vec![
            ((-1, 0, 5), Voxel { color: (1, 1, 1), weight: 1 }),
            ((1, 2, 3), Voxel { color: (40, 60, 80), weight: 2 }),
        ]
    );
    assert!(store.has(&(1, 2, 3)));
    assert!(!store.has(&(1, 2, 4)));
    assert!(!store.has_bounds());
    assert_eq!(store.get_bounds(), ((-1, 0, 3), (1, 2, 5)));
    assert!(store.has_bounds());
    assert_eq!(store.get_offset(), (5, 5, 5));
    assert_eq!(sorted(store.to_vec_with_offset())[0].0, (4, 5, 10));
    let mut with_offset = store.to_points_with_offset();
    with_offset.sort();
    assert_eq!(with_offset, vec![((4, 5, 10), (1, 1, 1)), ((6, 7, 8), (20, 30, 40))]);
    store.insert_one((9, 9, 9), Voxel::new((0, 0, 0)));
    assert!(!store.has_bounds());
    assert_eq!(store.get_bounds(), ((-1, 0, 3), (9, 9, 9)));
}

#[test]
fn hash_store_keeps_the_box_it_is_given() {
    let mut store = HMap3DVoxelCollection::new(sample(), Some(((-9, -9, -9), (9, 9, 9))), (0, 0, 0), 7);
    assert!(store.has_bounds());
    assert_eq!(store.get_bounds(), ((-9, -9, -9), (9, 9, 9)));
    assert_eq!(store.get_resolution(), 7);
}

#[test]
fn empty_store_has_the_box_of_the_origin() {
    let mut store = HMap3DVoxelCollection::default();
    assert_eq!(store.get_bounds(), ((0, 0, 0), (0, 0, 0)));
    assert_eq!(store.to_vec(), Vec::new());
    assert_eq!(store.get_resolution(), ONE_METER);
}

#[test]
fn offset_goes_to_the_least_corner() {
    let mut store = HMap3DVoxelCollection::new(sample(), None, (5, 5, 5), ONE_METER);
    store.offset_to_min();
    assert_eq!(store.get_offset(), (-1, 0, 3));
    store.set_offset((1, 1, 1));
    assert_eq!(store.get_offset(), (1, 1, 1));
    assert_eq!(sorted(store.into_vec_with_offset())[1].0, (2, 3, 4));
}

#[test]
fn grid_store_drops_cells_outside_its_box() {
    let mut store = Vec3VoxelCollection::new(sample(), None, (0, 0, 0), ONE_METER);
    assert_eq!(store.get_bounds(), ((-1, 0, 3), (1, 2, 5)));
    assert_eq!(store.field.len(), 3);
    assert_eq!(store.field[0].len(), 3);
    assert_eq!(store.field[0][0].len(), 3);
    store.insert_one((2, 0, 3), Voxel::new((9, 9, 9)));
    store.insert_one((-1, 0, 2), Voxel::new((9, 9, 9)));
    store.insert_one((0, 1, 4), Voxel::new((9, 9, 9)));
    assert!(!store.has(&(2, 0, 3)));
    assert!(!store.has(&(-1, 0, 2)));
    assert!(store.has(&(0, 1, 4)));
    assert!(!store.has(&(0, 0, 4)));
    assert_eq!(
        sorted(store.to_vec()),
        vec![
            ((-1, 0, 5), Voxel { color: (1, 1, 1), weight: 1 }),
            ((0, 1, 4), Voxel { color: (9, 9, 9), weight: 1 }),
            ((1, 2, 3), Voxel { color: (40, 60, 80), weight: 2 }),
        ]
    );
    assert_eq!(store.get_bounds(), ((-1, 0, 3), (1, 2, 5)));
    assert!(store.has_bounds());
}

#[test]
fn grid_store_over_an_empty_box_holds_nothing() {
    let store = Vec3VoxelCollection::new(sample(), Some(((0, 0, 0), (-1, 5, 5))), (0, 0, 0), ONE_METER);
    assert_eq!(store.to_vec(), Vec::new());
    assert!(!store.has(&(0, 0, 0)));
    let usual = Vec3VoxelCollection::default();
    assert_eq!(usual.to_vec(), Vec::new());
    assert_eq!(usual.get_offset(), (0, 0, 0));
}

#[test]
fn column_store_replaces_a_voxel_at_another_height() {
    let mut store = Vec2VoxelCollection::new(sample(), None, (0, 0, 0), ONE_METER);
    assert_eq!(store.get_bounds_xy(), ((-1, 0), (1, 2)));
    assert_eq!(store.get_bounds(), ((-1, 0, 3), (1, 2, 5)));
    store.insert_one((1, 2, 8), Voxel::new((7, 7, 7)));
    assert!(store.has(&(1, 2, 8)));
    assert!(!store.has(&(1, 2, 3)));
    assert_eq!(
        sorted(store.to_vec()),
        vec![
            ((-1, 0, 5), Voxel { color: (1, 1, 1), weight: 1 }),
            ((1, 2, 8), Voxel { color: (7, 7, 7), weight: 1 }),
        ]
    );
    assert_eq!(store.get_bounds(), ((-1, 0, 5), (1, 2, 8)));
    store.insert_one((1, 2, 8), Voxel::new((1, 1, 1)));
    assert_eq!(sorted(store.to_vec())[1].1, Voxel { color: (8, 8, 8), weight: 2 });
    store.insert_one((5, 5, 5), Voxel::new((1, 1, 1)));
    assert!(!store.has(&(5, 5, 5)));
}

#[test]
fn column_hash_store_replaces_a_voxel_at_another_height() {
    let mut store = HMap2DVoxelCollection::new(sample(), None, (0, 0, 0), ONE_METER);
    store.insert_one((1, 2, 8), Voxel::new((7, 7, 7)));
    store.insert_one((-1, 0, 5), Voxel::new((3, 3, 3)));
    assert!(store.has(&(1, 2, 8)));
    assert!(!store.has(&(1, 2, 3)));
    assert_eq!(
        sorted(store.to_vec()),
        vec![
            ((-1, 0, 5), Voxel { color: (4, 4, 4), weight: 2 }),
            ((1, 2, 8), Voxel { color: (7, 7, 7), weight: 1 }),
        ]
    );
    assert_eq!(store.get_bounds(), ((-1, 0, 5), (1, 2, 8)));
    assert_eq!(HMap2DVoxelCollection::default().to_vec(), Vec::new());
}

#[test]
fn list_store_merges_like_the_others() {
    let mut store = PointCloud::new(sample(), None, (0, 0, 0), ONE_METER);
    assert_eq!(
        store.to_vec(),
        vec![
            ((1, 2, 3), Voxel { color: (40, 60, 80), weight: 2 }),
            ((-1, 0, 5), Voxel { color: (1, 1, 1), weight: 1 }),
        ]
    );
    assert!(store.has(&(-1, 0, 5)));
    assert!(!store.has(&(0, 0, 5)));
    assert_eq!(store.get_bounds(), ((-1, 0, 3), (1, 2, 5)));
    assert_eq!(store.into_points(), vec![((1, 2, 3), (20, 30, 40)), ((-1, 0, 5), (1, 1, 1))]);
    assert_eq!(PointCloud::default().to_vec(), Vec::new());
}

#[test]
fn merge_refuses_different_resolutions() {
    let first = HMap3DVoxelCollection::new(sample(), None, (0, 0, 0), 1);
    let second = HMap3DVoxelCollection::new(sample(), None, (0, 0, 0), 2);
    assert_eq!(first.merge(second).err(), Some(MergeError::ResolutionMismatch));
}

#[test]
fn merge_makes_a_grid_that_holds_both() {
    let first = Vec3VoxelCollection::new(vec![((0, 0, 0), Voxel::new((1, 2, 3)))], None, (10, 0, 0), ONE_METER);
    let second = HMap3DVoxelCollection::new(
        vec![((5, 5, 5), Voxel::new((4, 5, 6)))],
        Some(((5, 5, 5), (5, 5, 5))),
        (0, 0, 1),
        ONE_METER,
    );
    let mut merged = first.merge(second).unwrap();
    assert_eq!(merged.get_offset(), (0, 0, 0));
    assert_eq!(merged.get_resolution(), ONE_METER);
    assert_eq!(merged.get_bounds(), ((5, 0, 0), (10, 5, 6)));
    assert_eq!(
        sorted(merged.into_vec()),
        vec![
            ((5, 5, 6), Voxel { color: (4, 5, 6), weight: 1 }),
            ((10, 0, 0), Voxel { color: (1, 2, 3), weight: 1 }),
        ]
    );
}

#[test]
fn insert_offers_the_cells_of_another_store() {
    let mut first = HMap3DVoxelCollection::new(sample(), None, (0, 0, 0), ONE_METER);
    let second = PointCloud::new(vec![((0, 2, 3), Voxel::new((2, 2, 2)))], None, (1, 0, 0), ONE_METER);
    first.insert(second);
    assert_eq!(
        sorted(first.to_vec()),
        vec![
            ((-1, 0, 5), Voxel { color: (1, 1, 1), weight: 1 }),
            ((1, 2, 3), Voxel { color: (42, 62, 82), weight: 3 }),
        ]
    );
}

#[test]
fn absorb_grows_a_grid_around_new_entries() {
    let first = Vec3VoxelCollection::new(vec![((0, 0, 0), Voxel::new((1, 2, 3)))], None, (0, 0, 0), ONE_METER);
    let mut grown = first.absorb(vec![((3, 0, 0), Voxel::new((9, 9, 9))), ((0, 0, 0), Voxel::new((3, 2, 1)))]);
    assert_eq!(grown.get_bounds(), ((0, 0, 0), (3, 0, 0)));
    assert_eq!(
        sorted(grown.to_vec()),
        vec![
            ((0, 0, 0), Voxel { color: (4, 4, 4), weight: 2 }),
            ((3, 0, 0), Voxel { color: (9, 9, 9), weight: 1 }),
        ]
    );
}

#[test]
fn batch_changes_every_voxel() {
    let mut store = HMap3DVoxelCollection::new(sample(), Some(((-9, -9, -9), (9, 9, 9))), (1, 2, 3), 5);
    store.batch(|voxel: Voxel| Voxel { color: (voxel.color.0 + 1, 0, 0), weight: voxel.weight });
    assert_eq!(
        sorted(store.to_vec()),
        vec![
            ((-1, 0, 5), Voxel { color: (2, 0, 0), weight: 1 }),
            ((1, 2, 3), Voxel { color: (41, 0, 0), weight: 2 }),
        ]
    );
    assert_eq!(store.get_offset(), (1, 2, 3));
    assert_eq!(store.get_resolution(), 5);
    assert_eq!(store.get_bounds(), ((-9, -9, -9), (9, 9, 9)));
}

#[test]
fn builder_sets_what_the_store_is_made_from() {
    let store: HMap3DVoxelCollection = HMap3DVoxelCollection::builder()
        .points(vec![((1, 1, 1), (200, 100, 0)), ((1, 1, 1), (100, 100, 1))])
        .offset((2, 2, 2))
        .resolution(9)
        .bounds(((0, 0, 0), (4, 4, 4)))
        .build();
    assert_eq!(store.to_vec(), vec![((1, 1, 1), Voxel { color: (300, 200, 1), weight: 2 })]);
    assert_eq!(store.get_offset(), (2, 2, 2));
    assert_eq!(store.get_resolution(), 9);
    assert!(store.has_bounds());
    let usual: PointCloud = PointCloud::builder().voxels(sample()).build();
    assert_eq!(usual.get_resolution(), ONE_METER);
    assert_eq!(usual.get_offset(), (0, 0, 0));
    assert!(!usual.has_bounds());
    assert_eq!(usual.to_vec().len(), 2);
}

#[test]
fn numbers_know_the_ends_of_their_range() {
    assert_eq!(<i32 as Number>::min_value(), i32::MIN);
    assert_eq!(<i32 as Number>::max_value(), i32::MAX);
    assert_eq!(<u8 as Number>::max_value(), 255);
    assert_eq!(<u16 as Number>::min_value(), 0);
    assert_eq!(<u16 as Int>::one(), 1);
    assert_eq!(Int::checked_add(&250u8, &5u8), Some(255));
    assert_eq!(Int::checked_add(&250u8, &6u8), None);
    assert_eq!(Int::checked_sub(&5u16, &6u16), None);
    assert_eq!(Int::checked_sub(&i32::MIN, &-1), Some(i32::MIN + 1));
    assert_eq!(step(&7, true), Some(8));
    assert_eq!(step(&0u8, false), None);
    assert_eq!(step(&i32::MAX, true), None);
    assert_eq!(lesser(3, -4), -4);
    assert_eq!(greater(3, -4), 3);
}

#[test]
fn a_new_height_makes_the_column_store_measure_again() {
    let mut store =
        Vec2VoxelCollection::new(vec![((0, 0, 5), Voxel { color: (1, 1, 1), weight: 1 })], None, (0, 0, 0), ONE_METER);
    assert_eq!(store.bounds_z, Some((5, 5)));
    store.insert_one((0, 0, 9), Voxel { color: (2, 2, 2), weight: 1 });
    assert_eq!(store.bounds_z, None);
    assert_eq!(store.to_vec(), vec![((0, 0, 9), Voxel { color: (2, 2, 2), weight: 1 })]);
    assert_eq!(store.get_bounds(), ((0, 0, 9), (0, 0, 9)));
    store.insert_one((0, 0, 9), Voxel { color: (2, 2, 2), weight: 0 });
    store.insert_one((7, 7, 7), Voxel { color: (2, 2, 2), weight: 1 });
    assert_eq!(store.bounds_z, Some((9, 9)));
}

#[test]
fn a_vacant_voxel_leaves_the_box_as_it_is() {
    let mut hash = HMap2DVoxelCollection::new(sample(), Some(((-9, -9, -9), (9, 9, 9))), (0, 0, 0), ONE_METER);
    hash.insert_one((1, 1, 1), Voxel { color: (2, 2, 2), weight: 0 });
    assert_eq!(hash.bounds, Some(((-9, -9, -9), (9, 9, 9))));
    let mut list = PointCloud::new(sample(), Some(((-9, -9, -9), (9, 9, 9))), (0, 0, 0), ONE_METER);
    list.insert_one((1, 1, 1), Voxel { color: (2, 2, 2), weight: 0 });
    assert_eq!(list.bounds, Some(((-9, -9, -9), (9, 9, 9))));
    let mut cells = HMap3DVoxelCollection::new(sample(), Some(((-9, -9, -9), (9, 9, 9))), (0, 0, 0), ONE_METER);
    cells.insert_one((1, 1, 1), Voxel { color: (2, 2, 2), weight: 0 });
    assert_eq!(cells.bounds, Some(((-9, -9, -9), (9, 9, 9))));
    cells.insert_one((1, 1, 1), Voxel { color: (2, 2, 2), weight: 1 });
    assert_eq!(cells.bounds, None);
}
