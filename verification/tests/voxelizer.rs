use coordinate_transformer::ZoomLv;
use voxel_tiler_core::build_voxelizer::{
    BuildMapTileVoxelizerDefault, BuildSimpleVoxelizerDefault, BuildVoxelizer, MapTileVoxelizerDefaultOptions,
    SimpleVoxelizerDefaultOptions, TerrainTileVoxelizerDefaultOptions,
};
use voxel_tiler_core::collection::VoxelCollection;
use voxel_tiler_core::element::{Resolution, Voxel, ONE_METER};
use voxel_tiler_core::glb_gen::{GlbGen, GlbParts};
use voxel_tiler_core::image_sampler::JTerrainImageSampler;
use voxel_tiler_core::las::flatten_color;
use voxel_tiler_core::mesher::{Mesher, ValidSide};
use voxel_tiler_core::ply::PlyStructs;
use voxel_tiler_core::tiler::VoxelTiler;
use voxel_tiler_core::voxel::{VoxelCollection as PixelVoxels, VoxelPointCloud};
use voxel_tiler_core::voxelizer::{ConfigError, MapTileVoxelizer, SimpleVoxelizer, Voxelizer};

fn sorted(mut entries: Vec<((i32, i32, i32), Voxel)>) -> Vec<((i32, i32, i32), Voxel)> {
    entries.sort_by_key(|entry| entry.0);
    entries
}

#[test]
fn points_in_neighbouring_tiles_go_to_two_tiles() {
    let zoom_lv = ZoomLv::Lv15;
    let mut voxelizer =
        MapTileVoxelizer::<MapTileVoxelizerDefaultOptions>::new(Resolution::Tile { zoom_lv }).unwrap();
    voxelizer.add(vec![((255, 300, 0), (1, 2, 3), 11), ((256, 300, 0), (4, 5, 6), 12)]);
    assert_eq!(voxelizer.resolution_range(), Some((11, 12)));
    let tiles = voxelizer.finish_tiles();
    assert_eq!(tiles.len(), 2);
    assert_eq!(tiles[0].0, (0, 1));
    assert_eq!(tiles[1].0, (1, 1));
    assert_eq!(tiles[0].1.to_vec(), vec![((255, 300, 0), Voxel { color: (1, 2, 3), weight: 1 })]);
    assert_eq!(tiles[1].1.to_vec(), vec![((256, 300, 0), Voxel { color: (4, 5, 6), weight: 1 })]);
    assert_eq!(tiles[0].1.get_resolution(), 11);
    assert_eq!(tiles[1].1.get_resolution(), 12);
}

#[test]
fn a_tile_keeps_the_resolution_of_its_first_point() {
    let mut voxelizer = MapTileVoxelizer::<TerrainTileVoxelizerDefaultOptions>::new(Resolution::Tile {
        zoom_lv: ZoomLv::Lv17,
    })
    .unwrap();
    voxelizer.add(vec![((10, 10, 4), (10, 0, 0), 30), ((10, 10, 4), (20, 0, 0), 20)]);
    voxelizer.add(vec![((600, 10, 1), (7, 7, 7), 10), ((10, 10, 4), (30, 0, 0), 40)]);
    assert_eq!(voxelizer.resolution_range(), Some((10, 30)));
    let store = voxelizer.finish(25);
    assert_eq!(store.get_resolution(), 25);
    assert_eq!(
        sorted(store.to_vec()),
        vec![
            ((10, 10, 4), Voxel { color: (60, 0, 0), weight: 3 }),
            ((600, 10, 1), Voxel { color: (7, 7, 7), weight: 1 }),
        ]
    );
}

#[test]
fn a_voxelizer_without_tiles_has_no_resolution() {
    let voxelizer = MapTileVoxelizer::<MapTileVoxelizerDefaultOptions>::new(Resolution::Tile {
        zoom_lv: ZoomLv::Lv0,
    })
    .unwrap();
    assert_eq!(voxelizer.resolution_range(), None);
    assert_eq!(voxelizer.finish_tiles().len(), 0);
}

#[test]
fn voxelizers_refuse_the_wrong_kind_of_resolution() {
    assert_eq!(
        SimpleVoxelizer::<SimpleVoxelizerDefaultOptions>::new(Resolution::Tile { zoom_lv: ZoomLv::Lv3 }).err(),
        Some(ConfigError::NotMetric)
    );
    assert_eq!(
        MapTileVoxelizer::<MapTileVoxelizerDefaultOptions>::new(Resolution::Mater(ONE_METER)).err(),
        Some(ConfigError::NotTiled)
    );
    assert_eq!(
        BuildSimpleVoxelizerDefault::voxelize_one(Vec::new(), Resolution::Tile { zoom_lv: ZoomLv::Lv3 }, ()).err(),
        Some(ConfigError::NotMetric)
    );
    assert_eq!(
        BuildMapTileVoxelizerDefault::voxelize_one(Vec::new(), Resolution::Mater(ONE_METER), 5).err(),
        Some(ConfigError::NotTiled)
    );
}

#[test]
fn the_plain_voxelizer_gathers_over_several_clouds() {
    let mut voxelizer = BuildSimpleVoxelizerDefault::build_voxelizer(Resolution::Mater(33)).unwrap();
    voxelizer.add(vec![((0, 0, 0), (10, 10, 10)), ((4, 0, 0), (1, 1, 1))]);
    voxelizer.add(vec![((0, 0, 0), (20, 20, 20))]);
    voxelizer.add(Vec::new());
    let mut store = voxelizer.finish(());
    assert_eq!(store.get_resolution(), 33);
    assert_eq!(store.get_offset(), (0, 0, 0));
    assert_eq!(
        sorted(store.to_vec()),
        vec![
            ((0, 0, 0), Voxel { color: (30, 30, 30), weight: 2 }),
            ((4, 0, 0), Voxel { color: (1, 1, 1), weight: 1 }),
        ]
    );
    assert_eq!(store.get_bounds(), ((0, 0, 0), (4, 0, 0)));
}

#[test]
fn one_cloud_is_voxelized_in_one_call() {
    let store = BuildSimpleVoxelizerDefault::voxelize_one(
        vec![((1, 1, 1), (200, 0, 0)), ((1, 1, 1), (100, 0, 0))],
        Resolution::Mater(ONE_METER),
        (),
    )
    .unwrap();
    assert_eq!(store.to_points(), vec![((1, 1, 1), (150, 0, 0))]);
}

#[test]
fn a_cloud_is_split_by_tile_in_the_order_of_its_points() {
    let cloud = VoxelPointCloud::new(
        vec![
            ((256, 300, 1), (1, 1, 1)),
            ((255, 300, 2), (2, 2, 2)),
            ((511, 511, 3), (3, 3, 3)),
            ((0, 256, 4), (4, 4, 4)),
        ],
        ZoomLv::Lv15,
    );
    let tiles = cloud.split_by_tile();
    assert_eq!(tiles.len(), 2);
    assert_eq!(tiles[0].0, (1, 1));
    assert_eq!(tiles[0].1.points, vec![((256, 300, 1), (1, 1, 1)), ((511, 511, 3), (3, 3, 3))]);
    assert_eq!(tiles[0].1.zoom_lv, ZoomLv::Lv15);
    assert_eq!(tiles[1].0, (0, 1));
    assert_eq!(tiles[1].1.points, vec![((255, 300, 2), (2, 2, 2)), ((0, 256, 4), (4, 4, 4))]);
    assert_eq!(VoxelPointCloud::empty().split_by_tile().len(), 0);
    assert_eq!(VoxelPointCloud::empty().zoom_lv, ZoomLv::Lv0);
}

#[test]
fn a_cell_becomes_a_voxel_when_it_holds_enough_points() {
    let points = vec![
        ((1, 1, 1), (200, 200, 200)),
        ((1, 1, 1), (10, 20, 30)),
        ((2, 2, 2), (9, 9, 9)),
        ((1, 1, 1), (20, 40, 61)),
        ((3, 3, 3), (5, 5, 5)),
        ((3, 3, 3), (8, 7, 7)),
    ];
    let all = vec![((1, 1, 1), (76, 86, 97)), ((2, 2, 2), (9, 9, 9)), ((3, 3, 3), (6, 6, 6))];
    let voxels = PixelVoxels::from_voxel_point_cloud(VoxelPointCloud::new(points.clone(), ZoomLv::Lv9), 1);
    assert_eq!(voxels.voxels, all);
    assert_eq!(voxels.zoom_lv, ZoomLv::Lv9);
    let voxels = PixelVoxels::from_voxel_point_cloud(VoxelPointCloud::new(points.clone(), ZoomLv::Lv9), 0);
    assert_eq!(voxels.voxels, all);
    let voxels = PixelVoxels::from_voxel_point_cloud(VoxelPointCloud::new(points.clone(), ZoomLv::Lv9), 2);
    assert_eq!(voxels.voxels, vec![((1, 1, 1), (76, 86, 97)), ((3, 3, 3), (6, 6, 6))]);
    let voxels = PixelVoxels::from_voxel_point_cloud(VoxelPointCloud::new(points.clone(), ZoomLv::Lv9), 3);
    assert_eq!(voxels.voxels, vec![((1, 1, 1), (76, 86, 97))]);
    let voxels = PixelVoxels::from_voxel_point_cloud(VoxelPointCloud::new(points, ZoomLv::Lv9), 4);
    assert_eq!(voxels.voxels, Vec::new());
    assert_eq!(PixelVoxels::empty().voxels, Vec::new());
    assert_eq!(PixelVoxels::empty().zoom_lv, ZoomLv::Lv0);
    assert_eq!(PixelVoxels::new(vec![((1, 2, 3), (4, 5, 6))], ZoomLv::Lv1).voxels, vec![((1, 2, 3), (4, 5, 6))]);
}

#[test]
fn one_point_is_one_voxel_of_its_color() {
    let cloud = VoxelPointCloud::new(vec![((1, 2, 3), (10, 20, 30))], ZoomLv::Lv0);
    let voxels = PixelVoxels::from_voxel_point_cloud(cloud, 1);
    assert_eq!(voxels.voxels, vec![((1, 2, 3), (10, 20, 30))]);
    assert_eq!(voxels.zoom_lv, ZoomLv::Lv0);
    let cloud = VoxelPointCloud::new(vec![((1, 2, 3), (10, 20, 30)), ((1, 2, 3), (20, 21, 31))], ZoomLv::Lv0);
    assert_eq!(PixelVoxels::from_voxel_point_cloud(cloud, 2).voxels, vec![((1, 2, 3), (15, 20, 30))]);
}

#[test]
fn voxels_are_gathered_tile_by_tile() {
    let points = vec![
        ((300, 0, 1), (0, 0, 0)),
        ((0, 0, 1), (0, 0, 0)),
        ((300, 0, 1), (8, 8, 8)),
        ((0, 0, 1), (2, 2, 2)),
        ((0, 0, 1), (4, 4, 4)),
        ((0, 700, 1), (6, 6, 6)),
    ];
    let tiles = VoxelTiler::from_pixel_point_cloud(VoxelPointCloud::new(points.clone(), ZoomLv::Lv20), 1);
    assert_eq!(tiles.len(), 3);
    assert_eq!(tiles[0].0, (1, 0));
    assert_eq!(tiles[0].1.voxels, vec![((300, 0, 1), (4, 4, 4))]);
    assert_eq!(tiles[1].0, (0, 0));
    assert_eq!(tiles[1].1.voxels, vec![((0, 0, 1), (2, 2, 2))]);
    assert_eq!(tiles[2].0, (0, 2));
    assert_eq!(tiles[2].1.voxels, vec![((0, 700, 1), (6, 6, 6))]);
    assert_eq!(tiles[2].1.zoom_lv, ZoomLv::Lv20);
    let tiles = VoxelTiler::from_pixel_point_cloud(VoxelPointCloud::new(points.clone(), ZoomLv::Lv20), 0);
    assert_eq!(tiles.len(), 3);
    let tiles = VoxelTiler::from_pixel_point_cloud(VoxelPointCloud::new(points.clone(), ZoomLv::Lv20), 3);
    assert_eq!(tiles.len(), 1);
    assert_eq!(tiles[0].0, (0, 0));
    assert_eq!(tiles[0].1.voxels, vec![((0, 0, 1), (2, 2, 2))]);
    assert_eq!(VoxelTiler::from_pixel_point_cloud(VoxelPointCloud::new(points, ZoomLv::Lv20), 4).len(), 0);
    assert_eq!(VoxelTiler::from_pixel_point_cloud(VoxelPointCloud::empty(), 1).len(), 0);
}

#[test]
fn points_in_neighbouring_tiles_become_one_voxel_each() {
    let cloud =
        VoxelPointCloud::new(vec![((255, 300, 0), (255, 0, 0)), ((256, 300, 0), (255, 0, 0))], ZoomLv::Lv15);
    let tiles = VoxelTiler::from_pixel_point_cloud(cloud, 1);
    assert_eq!(tiles.len(), 2);
    assert_eq!(tiles[0].0, (0, 1));
    assert_eq!(tiles[0].1.voxels, vec![((255, 300, 0), (255, 0, 0))]);
    assert_eq!(tiles[1].0, (1, 1));
    assert_eq!(tiles[1].1.voxels, vec![((256, 300, 0), (255, 0, 0))]);
}

#[test]
fn altitude_pixels_are_decoded_in_centimetres() {
    assert_eq!(JTerrainImageSampler::altitude((0, 0, 0)), Some(0));
    assert_eq!(JTerrainImageSampler::altitude((0, 1, 2)), Some(258));
    assert_eq!(JTerrainImageSampler::altitude((127, 255, 255)), Some(8388607));
    assert_eq!(JTerrainImageSampler::altitude((128, 0, 0)), None);
    assert_eq!(JTerrainImageSampler::altitude((128, 0, 1)), Some(-8388607));
    assert_eq!(JTerrainImageSampler::altitude((255, 255, 255)), Some(-1));
    assert_eq!(
        JTerrainImageSampler::altitudes(&vec![(0, 0, 5), (128, 0, 0), (255, 255, 0)]),
        vec![Some(5), None, Some(-256)]
    );
}

#[test]
fn every_pixel_with_a_height_gives_one_voxel() {
    let mut heights = vec![None; 300];
    heights[0] = Some(2);
    heights[1] = Some(0);
    heights[2] = Some(-3);
    heights[257] = Some(1);
    let mut colors = vec![(0u8, 0u8, 0u8); 300];
    colors[0] = (1, 1, 1);
    colors[1] = (2, 2, 2);
    colors[2] = (4, 4, 4);
    colors[257] = (3, 3, 3);
    let store = JTerrainImageSampler::sampling(99, heights.clone(), Some(colors));
    assert_eq!(store.get_resolution(), 99);
    assert_eq!(store.get_offset(), (0, 0, 0));
    assert_eq!(
        sorted(store.to_vec()),
        vec![
            ((0, 0, 2), Voxel { color: (1, 1, 1), weight: 1 }),
            ((1, 0, 0), Voxel { color: (2, 2, 2), weight: 1 }),
            ((1, 1, 1), Voxel { color: (3, 3, 3), weight: 1 }),
            ((2, 0, -3), Voxel { color: (4, 4, 4), weight: 1 }),
        ]
    );
    assert!(store.has(&(0, 0, 2)));
    assert!(!store.has(&(0, 0, 1)));
    let black = JTerrainImageSampler::sampling(99, heights.clone(), None);
    assert_eq!(black.to_vec().len(), 4);
    assert_eq!(black.to_points()[0].1, (0, 0, 0));
    let short = JTerrainImageSampler::sampling(99, heights, Some(vec![(5, 5, 5)]));
    assert_eq!(short.to_vec(), vec![((0, 0, 2), Voxel { color: (5, 5, 5), weight: 1 })]);
}

#[test]
fn deep_colors_are_flattened_by_dividing() {
    assert_eq!(flatten_color(Some((65535, 256, 255))), (255, 1, 0));
    assert_eq!(flatten_color(Some((512, 32768, 0))), (2, 128, 0));
    assert_eq!(flatten_color(None), (0, 0, 0));
}

#[test]
fn a_cloud_becomes_a_surface_and_a_layout() {
    let resolution = 0.5f64;
    let cloud = [((0.1f64, 0.2f64, 0.3f64), (200u8, 0u8, 0u8)), ((0.4, 0.4, 0.4), (100, 0, 0)), ((-0.2, 0.1, 0.1), (0, 0, 9))];
    let cells: Vec<((i32, i32, i32), (u8, u8, u8))> = cloud
        .iter()
        .map(|(point, color)| {
            (
                (
                    (point.0 / resolution).floor() as i32,
                    (point.1 / resolution).floor() as i32,
                    (point.2 / resolution).floor() as i32,
                ),
                *color,
            )
        })
        .collect();
    let store =
        BuildSimpleVoxelizerDefault::voxelize_one(cells, Resolution::Mater(resolution.to_bits()), ()).unwrap();
    let mesh = Mesher::meshing(store, ValidSide::all());
    assert_eq!(mesh.bounds(), ((-1, 0, 0), (1, 1, 1)));
    assert_eq!(mesh.resolution(), resolution.to_bits());
    let vertices = mesh.vertices();
    assert_eq!(vertices.len(), 12);
    let groups = mesh.to_groups();
    let ply = PlyStructs::tabulate(vertices.clone(), groups.clone(), mesh.offset()).unwrap();
    assert_eq!(ply.faces.len(), 10 * 2);
    assert_eq!(ply.vertices.len(), 8 + 8);
    let layout = GlbParts::from_voxel_mesh(mesh).unwrap();
    assert_eq!(layout.vertex_count, 12);
    assert_eq!(layout.primitives.len(), 2);
    assert_eq!(layout.buffer_length, 12 * 12 + 2 * 32 * 4);
    for primitive in &layout.primitives {
        assert_eq!(primitive.count, 30);
        assert!(primitive.color == (150, 0, 0) || primitive.color == (0, 0, 9));
    }
}

#[test]
fn a_grid_tile_admits_the_cell_of_its_first_point() {
    let mut voxelizer = MapTileVoxelizer::<MapTileVoxelizerDefaultOptions>::new(Resolution::Tile {
        zoom_lv: ZoomLv::Lv15,
    })
    .unwrap();
    voxelizer.add(vec![((5, 5, 5), (1, 1, 1), 9), ((6, 5, 5), (2, 2, 2), 9), ((5, 5, 5), (3, 3, 3), 8)]);
    let tiles = voxelizer.finish_tiles();
    assert_eq!(tiles.len(), 1);
    assert_eq!(tiles[0].0, (0, 0));
    assert_eq!(tiles[0].1.to_vec(), vec![((5, 5, 5), Voxel { color: (4, 4, 4), weight: 2 })]);
    assert_eq!(tiles[0].1.get_resolution(), 9);
}

#[test]
fn the_usual_voxelizer_works_at_one_metre() {
    let mut voxelizer = SimpleVoxelizer::<SimpleVoxelizerDefaultOptions>::default();
    voxelizer.add(vec![((1, 2, 3), (9, 8, 7))]);
    let store = voxelizer.finish(());
    assert_eq!(store.get_resolution(), ONE_METER);
    assert_eq!(store.to_points(), vec![((1, 2, 3), (9, 8, 7))]);
}
