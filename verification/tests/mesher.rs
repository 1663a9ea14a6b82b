use voxel_tiler_core::collection::VoxelCollection;
use voxel_tiler_core::element::{Voxel, ONE_METER};
use voxel_tiler_core::hmap2d::HMap2DVoxelCollection;
use voxel_tiler_core::hmap3d::HMap3DVoxelCollection;
use voxel_tiler_core::mesher::{Mesher, ValidSide, BACK, BORDER, BOTTOM, FRONT, LEFT, RIGHT, TOP};
use voxel_tiler_core::point_cloud::PointCloud;
use voxel_tiler_core::vec2::Vec2VoxelCollection;
use voxel_tiler_core::vec3::Vec3VoxelCollection;
use voxel_tiler_core::voxel_mesh::VoxelMesh;

fn corners_named(mesh: &VoxelMesh, color: (u8, u8, u8)) -> Vec<(i64, i64, i64)> {
    let vertices = mesh.vertices();
    let groups = mesh.to_groups();
    for (group, indices) in groups {
        if group == color {
            return indices.into_iter().map(|index| vertices[index]).collect();
        }
    }
    Vec::new()
}

fn one_cell(side: ValidSide) -> VoxelMesh {
    let store = HMap3DVoxelCollection::new(vec![((2, 3, 4), Voxel::new((5, 6, 7)))], None, (0, 0, 0), ONE_METER);
    Mesher::meshing(store, side)
}

#[test]
fn two_neighbours_share_no_face() {
    let store = HMap3DVoxelCollection::new(
        vec![((0, 0, 0), Voxel::new((255, 0, 0))), ((1, 0, 0), Voxel::new((255, 0, 0)))],
        None,
        (0, 0, 0),
        ONE_METER,
    );
    let mesh = Mesher::meshing(store, ValidSide::all());
    assert_eq!(mesh.vertices().len(), 12);
    let groups = mesh.into_groups();
    assert_eq!(groups.len(), 1);
    assert_eq!(groups[0].0, (255, 0, 0));
    assert_eq!(groups[0].1.len() / 6, 10);
    assert_eq!(groups[0].1.len() % 6, 0);
}

#[test]
fn single_cell_without_border_has_no_face() {
    let store = HMap3DVoxelCollection::new(vec![((0, 0, 0), Voxel::new((9, 9, 9)))], None, (0, 0, 0), ONE_METER);
    let mesh = Mesher::meshing(store, ValidSide::all().without(BORDER));
    assert_eq!(mesh.vertices().len(), 0);
    assert_eq!(mesh.into_groups().len(), 0);
}

#[test]
fn faces_wind_against_the_clock_seen_from_outside() {
    let base = (2i64, 3i64, 4i64);
    let at = |d: (i64, i64, i64)| (base.0 + d.0, base.1 + d.1, base.2 + d.2);
    let table: Vec<(u8, [(i64, i64, i64); 6])> = vec![
        (LEFT, [(0, 0, 0), (0, 0, 1), (0, 1, 1), (0, 1, 1), (0, 1, 0), (0, 0, 0)]),
        (RIGHT, [(1, 0, 0), (1, 1, 0), (1, 1, 1), (1, 1, 1), (1, 0, 1), (1, 0, 0)]),
        (BOTTOM, [(0, 0, 0), (0, 1, 0), (1, 1, 0), (1, 1, 0), (1, 0, 0), (0, 0, 0)]),
        (TOP, [(0, 0, 1), (1, 0, 1), (1, 1, 1), (1, 1, 1), (0, 1, 1), (0, 0, 1)]),
        (BACK, [(0, 0, 0), (1, 0, 0), (1, 0, 1), (1, 0, 1), (0, 0, 1), (0, 0, 0)]),
        (FRONT, [(1, 1, 1), (1, 1, 0), (0, 1, 0), (0, 1, 0), (0, 1, 1), (1, 1, 1)]),
    ];
    for (flag, offsets) in table {
        let mesh = one_cell(ValidSide::from_bits(flag | BORDER));
        let expected: Vec<(i64, i64, i64)> = offsets.iter().map(|d| at(*d)).collect();
        assert_eq!(corners_named(&mesh, (5, 6, 7)), expected);
        assert_eq!(mesh.vertices().len(), 4);
    }
}

#[test]
fn faces_of_one_cell_come_in_the_order_of_the_directions() {
    let mesh = one_cell(ValidSide::all());
    let named = corners_named(&mesh, (5, 6, 7));
    assert_eq!(named.len(), 36);
    assert_eq!(named[0], (2, 3, 4));
    assert_eq!(named[6], (3, 3, 4));
    assert_eq!(named[12], (2, 3, 4));
    assert_eq!(named[18], (2, 3, 5));
    assert_eq!(named[24], (2, 3, 4));
    assert_eq!(named[30], (3, 4, 5));
    assert_eq!(mesh.vertices().len(), 8);
}

#[test]
fn vertices_occur_once_and_indices_name_vertices() {
    let store = HMap3DVoxelCollection::new(
        vec![
            ((0, 0, 0), Voxel::new((255, 0, 0))),
            ((1, 0, 0), Voxel::new((0, 255, 0))),
            ((1, 1, 0), Voxel::new((255, 0, 0))),
            ((5, 5, 5), Voxel::new((1, 2, 3))),
        ],
        None,
        (0, 0, 0),
        ONE_METER,
    );
    let mesh = Mesher::meshing(store, ValidSide::all());
    let vertices = mesh.vertices();
    let mut unique = vertices.clone();
    unique.sort();
    unique.dedup();
    assert_eq!(unique.len(), vertices.len());
    let mut faces = 0;
    for (_, indices) in mesh.to_groups() {
        assert_eq!(indices.len() % 3, 0);
        faces += indices.len() / 6;
        for index in indices {
            assert!(index < vertices.len());
        }
    }
    assert_eq!(faces, 6 * 4 - 4);
    assert_eq!(mesh.to_groups().len(), 3);
}

#[test]
fn the_box_of_the_surface_reaches_one_past_the_cells() {
    let store = HMap3DVoxelCollection::new(
        vec![((-2, 0, 1), Voxel::new((1, 1, 1))), ((3, 4, 1), Voxel::new((1, 1, 1)))],
        None,
        (7, 8, 9),
        42,
    );
    let mesh = Mesher::meshing(store, ValidSide::all());
    let bounds = mesh.bounds();
    assert_eq!(bounds, ((-2, 0, 1), (4, 5, 2)));
    assert_eq!(bounds.1.0 - bounds.0.0, (3 - -2) + 1);
    assert_eq!(bounds.1.1 - bounds.0.1, (4 - 0) + 1);
    assert_eq!(bounds.1.2 - bounds.0.2, (1 - 1) + 1);
    assert_eq!(mesh.offset(), (7, 8, 9));
    assert_eq!(mesh.resolution(), 42);
}

#[test]
fn disabled_sides_carry_no_face() {
    let mesh = one_cell(ValidSide::empty().with(BORDER));
    assert_eq!(mesh.vertices().len(), 0);
    let side = ValidSide::all().without(TOP).without(BOTTOM);
    assert_eq!(side.bits(), LEFT | RIGHT | FRONT | BACK | BORDER);
    assert!(side.contains(LEFT));
    assert!(!side.contains(TOP));
    assert!(!side.contains(TOP | LEFT));
    let mesh = one_cell(side);
    assert_eq!(corners_named(&mesh, (5, 6, 7)).len(), 4 * 6);
}

#[test]
fn inner_faces_stay_when_the_border_is_left_out() {
    let mut cells = Vec::new();
    for x in 0..3 {
        for y in 0..3 {
            for z in 0..3 {
                if (x, y, z) != (1, 1, 1) {
                    cells.push(((x, y, z), Voxel::new((8, 8, 8))));
                }
            }
        }
    }
    let store = Vec3VoxelCollection::new(cells, None, (0, 0, 0), ONE_METER);
    let mesh = Mesher::meshing(store, ValidSide::all().without(BORDER));
    let named = corners_named(&mesh, (8, 8, 8));
    assert_eq!(named.len(), 6 * 6);
    for corner in named {
        assert!(1 <= corner.0 && corner.0 <= 2);
        assert!(1 <= corner.1 && corner.1 <= 2);
        assert!(1 <= corner.2 && corner.2 <= 2);
    }
    assert_eq!(mesh.vertices().len(), 8);
}

#[test]
fn cells_at_the_end_of_the_range_are_meshed() {
    let store = HMap3DVoxelCollection::new(
        vec![((i32::MAX, i32::MIN, 0), Voxel::new((1, 1, 1)))],
        None,
        (0, 0, 0),
        ONE_METER,
    );
    let mesh = Mesher::meshing(store, ValidSide::all());
    assert_eq!(mesh.vertices().len(), 8);
    assert_eq!(mesh.bounds().1, (i32::MAX as i64 + 1, i32::MIN as i64 + 1, 1));
}

#[test]
fn every_kind_of_store_is_meshed_alike() {
    let cells = vec![
        ((0, 0, 0), Voxel::new((10, 0, 0))),
        ((1, 0, 0), Voxel::new((10, 0, 0))),
        ((1, 1, 2), Voxel::new((0, 10, 0))),
        ((0, 0, 0), Voxel::new((30, 0, 0))),
    ];
    let meshes = vec![
        Mesher::meshing(HMap3DVoxelCollection::new(cells.clone(), None, (0, 0, 0), ONE_METER), ValidSide::all()),
        Mesher::meshing(HMap2DVoxelCollection::new(cells.clone(), None, (0, 0, 0), ONE_METER), ValidSide::all()),
        Mesher::meshing(Vec3VoxelCollection::new(cells.clone(), None, (0, 0, 0), ONE_METER), ValidSide::all()),
        Mesher::meshing(Vec2VoxelCollection::new(cells.clone(), None, (0, 0, 0), ONE_METER), ValidSide::all()),
        Mesher::meshing(PointCloud::new(cells.clone(), None, (0, 0, 0), ONE_METER), ValidSide::all()),
    ];
    for mesh in meshes {
        assert_eq!(mesh.bounds(), ((0, 0, 0), (2, 2, 3)));
        assert_eq!(mesh.vertices().len(), 12 + 8);
        let mut colors: Vec<((u8, u8, u8), usize)> =
            mesh.to_groups().into_iter().map(|(color, indices)| (color, indices.len() / 6)).collect();
        colors.sort();
        assert_eq!(colors, vec![((0, 10, 0), 6), ((10, 0, 0), 5), ((20, 0, 0), 5)]);
    }
}

#[test]
fn every_corner_is_named_by_a_triangle() {
    let store = HMap3DVoxelCollection::new(
        vec![
            ((0, 0, 0), Voxel::new((255, 0, 0))),
            ((1, 0, 0), Voxel::new((0, 255, 0))),
            ((4, 4, 4), Voxel::new((255, 0, 0))),
        ],
        None,
        (0, 0, 0),
        ONE_METER,
    );
    let mesh = Mesher::meshing(store, ValidSide::all().without(TOP));
    let count = mesh.vertices().len();
    let mut named = vec![false; count];
    for (_, indices) in mesh.to_groups() {
        for index in indices {
            named[index] = true;
        }
    }
    assert!(count > 0);
    assert!(named.into_iter().all(|used| used));
}
