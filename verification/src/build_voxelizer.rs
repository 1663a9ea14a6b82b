use vstd::prelude::*;
use crate::collection::VoxelCollection;
use crate::element::Resolution;
use crate::hmap3d::HMap3DVoxelCollection;
use crate::vec2::Vec2VoxelCollection;
use crate::vec3::Vec3VoxelCollection;
use crate::voxelizer::{ConfigError, MapTileVoxelizer, SimpleVoxelizer, Voxelizer};
use std::marker::PhantomData;

verus! {

/// The stores a voxelizer works with.
pub trait VoxelizerOption {
    /// The store in which points are gathered.
    type CalcVC: VoxelCollection;

    /// The store that is handed out.
    type OutVC: VoxelCollection;
}

/// The stores of the plain voxelizer: hash maps by cell.
pub struct SimpleVoxelizerDefaultOptions {}

impl VoxelizerOption for SimpleVoxelizerDefaultOptions {
    type CalcVC = HMap3DVoxelCollection;

    type OutVC = HMap3DVoxelCollection;
}

/// The stores of the voxelizer of tiled maps: grids by cell.
pub struct MapTileVoxelizerDefaultOptions {}

impl VoxelizerOption for MapTileVoxelizerDefaultOptions {
    type CalcVC = Vec3VoxelCollection;

    type OutVC = Vec3VoxelCollection;
}

/// The stores for terrain and other clouds with one height per column: grids
/// by column.
pub struct TerrainTileVoxelizerDefaultOptions {}

impl VoxelizerOption for TerrainTileVoxelizerDefaultOptions {
    type CalcVC = Vec2VoxelCollection;

    type OutVC = Vec2VoxelCollection;
}

/// The builder of the plain voxelizer with its usual stores.
pub type BuildSimpleVoxelizerDefault = BuildVoxelizerDefault<
    SimpleVoxelizer<SimpleVoxelizerDefaultOptions>,
    SimpleVoxelizerDefaultOptions,
>;

/// The builder of the voxelizer of tiled maps with its usual stores.
pub type BuildMapTileVoxelizerDefault = BuildVoxelizerDefault<
    MapTileVoxelizer<MapTileVoxelizerDefaultOptions>,
    MapTileVoxelizerDefaultOptions,
>;

/// The builder of the voxelizer of tiled maps with the stores for terrain.
pub type BuildTerrainTileVoxelizerDefault = BuildVoxelizerDefault<
    MapTileVoxelizer<TerrainTileVoxelizerDefaultOptions>,
    TerrainTileVoxelizerDefaultOptions,
>;

/// Building a voxelizer and running it over one cloud.
pub trait BuildVoxelizer<V: Voxelizer<O>, O: VoxelizerOption> {
    /// A voxelizer at the given resolution, if the voxelizer takes such a
    /// resolution.
    fn build_voxelizer(resolution: Resolution) -> (r: Result<V, ConfigError>)
        ensures
            r is Ok <==> V::accepts(resolution),
            r is Ok ==> r->Ok_0.wf() && r->Ok_0.fresh(resolution),
            r is Err ==> r->Err_0 == V::refusal(),
    {
        V::new(resolution)
    }

    /// The voxels of one cloud: a voxelizer is made for the resolution, the
    /// cloud is added to it, and its voxels are handed out.
    fn voxelize_one(pc: V::Input, resolution: Resolution, scale: V::Scale) -> (r: Result<O::OutVC, ConfigError>)
        requires
            V::accepts(resolution) ==> V::takes(pc),
        ensures
            r is Ok <==> V::accepts(resolution),
            r is Ok ==> r->Ok_0.wf() && exists|begun: V, filled: V|
                begun.fresh(resolution) && #[trigger] begun.added(pc, filled) && filled.finished(scale, r->Ok_0),
            r is Err ==> r->Err_0 == V::refusal(),
    {
        match Self::build_voxelizer(resolution) {
            Ok(voxelizer) => {
                let mut voxelizer = voxelizer;
                let ghost begun = voxelizer;
                voxelizer.add(pc);
                let ghost filled = voxelizer;
                let store = voxelizer.finish(scale);
                proof {
                    assert(begun.fresh(resolution) && begun.added(pc, filled) && filled.finished(scale, store));
                }
                Ok(store)
            },
            Err(error) => Err(error),
        }
    }
}

/// The builder of voxelizers with the stores of an option.
pub struct BuildVoxelizerDefault<V: Voxelizer<O>, O: VoxelizerOption> {
    pub _phantom: PhantomData<V>,
    pub _phantom2: PhantomData<O>,
}

impl<V: Voxelizer<O>, O: VoxelizerOption> BuildVoxelizer<V, O> for BuildVoxelizerDefault<V, O> {

}

} // verus!
