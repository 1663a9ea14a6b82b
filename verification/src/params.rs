use vstd::prelude::*;

verus! {

/// Where the origin of the voxel data goes when it is placed in space.
#[derive(Debug, Copy, Clone, Eq, PartialEq)]
pub enum Offset {
    /// The origin of each tile goes to the origin of space. Without tiling this
    /// is the same as `MinTile`.
    Tile,
    /// The origin of the least tile that holds voxels goes to the origin of
    /// space. Without tiling this is the same as `Tile`.
    MinTile,
    /// The least corner of the box around the voxels goes to the origin on the
    /// first two axes; heights stay as they are.
    Pixel,
    /// The least corner of the box around the voxels goes to the origin of space.
    Voxel,
    /// The voxels stay where they are.
    Unmoved,
}

/// The settings of a voxelizer, fixed by the type that carries them.
pub trait VoxelizerParams {
    /// Whether the voxels are split into tiles.
    const TILING: bool;

    /// How many points a cell must hold to become a voxel: a cell becomes a
    /// voxel when it holds at least this many points, and one at the least.
    const THRESHOLD: usize;

    /// Where the origin goes.
    const OFFSET: Offset;
}

/// Voxels split into tiles, each tile with its own origin.
pub struct Tile;

impl VoxelizerParams for Tile {
    const TILING: bool = true;

    const THRESHOLD: usize = 1;

    const OFFSET: Offset = Offset::Tile;
}

/// Voxels in one piece, moved so that the box around them starts at the origin.
pub struct Fit;

impl VoxelizerParams for Fit {
    const TILING: bool = false;

    const THRESHOLD: usize = 1;

    const OFFSET: Offset = Offset::Voxel;
}

} // verus!
