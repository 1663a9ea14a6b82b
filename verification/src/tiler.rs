use vstd::prelude::*;
use crate::voxel::{
    covers, gathered, gathers, holds_voxel, kept, mean_color, picked, splits, tile_of, Coord, PixelPoint, TileIdx,
    VoxelCollection, VoxelPointCloud,
};

verus! {

/// The maker of voxels by tile.
pub struct VoxelTiler {}

/// Whether `tile` is among the tiles, and holds a voxel at `coord`.
pub open spec fn tile_holds(tiles: Seq<(TileIdx, VoxelCollection)>, tile: TileIdx, coord: Coord) -> bool {
    exists|i: int| 0 <= i < tiles.len() && (#[trigger] tiles[i]).0 == tile && holds_voxel(tiles[i].1.voxels@, coord)
}

/// That `tiles` holds the voxels of the cloud by tile: every cell that becomes
/// a voxel stands once in the tile it lies in, with the mean color of its
/// points; no tile occurs twice, and no tile is without a voxel.
pub open spec fn tiles_of(
    points: Seq<PixelPoint>,
    threshold: usize,
    tiles: Seq<(TileIdx, VoxelCollection)>,
) -> bool {
    &&& forall|i: int, j: int| 0 <= i < j < tiles.len() ==> (#[trigger] tiles[i]).0 != (#[trigger] tiles[j]).0
    &&& forall|i: int| 0 <= i < tiles.len() ==> (#[trigger] tiles[i]).1.voxels@.len() > 0
    &&& forall|i: int, a: int, b: int|
        0 <= i < tiles.len() && 0 <= a < b < tiles[i].1.voxels@.len() ==> (#[trigger] tiles[i].1.voxels@[a]).0 != (
        #[trigger] tiles[i].1.voxels@[b]).0
    &&& forall|i: int, a: int|
        0 <= i < tiles.len() && 0 <= a < tiles[i].1.voxels@.len() ==> {
            let voxel = #[trigger] tiles[i].1.voxels@[a];
            &&& tile_of(voxel.0) == tiles[i].0
            &&& kept(points, voxel.0, threshold)
            &&& voxel.1 == mean_color(points, voxel.0)
        }
    &&& forall|coord: Coord| #[trigger] kept(points, coord, threshold) ==> tile_holds(tiles, tile_of(coord), coord)
}

proof fn lemma_picked_tile(points: Seq<PixelPoint>, tile: TileIdx, upto: int, at: int)
    requires
        0 <= upto <= points.len(),
        0 <= at < picked(points, tile, upto).len(),
    ensures
        tile_of(picked(points, tile, upto)[at].0) == tile,
    decreases upto,
{
    if upto > 0 {
        if tile_of(points[upto - 1].0) == tile {
            if at < picked(points, tile, upto - 1).len() {
                lemma_picked_tile(points, tile, upto - 1, at);
            }
        } else {
            lemma_picked_tile(points, tile, upto - 1, at);
        }
    }
}

proof fn lemma_gathered_somewhere(list: Seq<PixelPoint>, coord: Coord, upto: int)
    requires
        0 <= upto <= list.len(),
        gathered(list, coord, upto).0 > 0,
    ensures
        exists|i: int| 0 <= i < upto && (#[trigger] list[i]).0 == coord,
    decreases upto,
{
    if upto > 0 {
        if list[upto - 1].0 == coord {
            assert(list[upto - 1].0 == coord);
        } else {
            lemma_gathered_somewhere(list, coord, upto - 1);
            let i = choose|i: int| 0 <= i < upto - 1 && (#[trigger] list[i]).0 == coord;
            assert(list[i].0 == coord);
        }
    }
}

proof fn lemma_gathered_prefix(list: Seq<PixelPoint>, longer: Seq<PixelPoint>, coord: Coord, upto: int)
    requires
        0 <= upto <= list.len() <= longer.len(),
        forall|i: int| 0 <= i < list.len() ==> #[trigger] longer[i] == list[i],
    ensures
        gathered(longer, coord, upto) == gathered(list, coord, upto),
    decreases upto,
{
    if upto > 0 {
        lemma_gathered_prefix(list, longer, coord, upto - 1);
    }
}

/// A cell gathers from the points of its tile what it gathers from all points.
proof fn lemma_gathered_in_tile(points: Seq<PixelPoint>, coord: Coord, upto: int)
    requires
        0 <= upto <= points.len(),
    ensures
        gathered(
            picked(points, tile_of(coord), upto),
            coord,
            picked(points, tile_of(coord), upto).len() as int,
        ) == gathered(points, coord, upto),
    decreases upto,
{
    if upto > 0 {
        let tile = tile_of(coord);
        lemma_gathered_in_tile(points, coord, upto - 1);
        let before = picked(points, tile, upto - 1);
        let now = picked(points, tile, upto);
        if tile_of(points[upto - 1].0) == tile {
            lemma_gathered_prefix(before, now, coord, before.len() as int);
        }
    }
}

impl VoxelTiler {
    /// The voxels of a cloud, tile by tile: the cloud is split by tile, and the
    /// points of each tile are gathered into voxels on their own. A tile in
    /// which no cell becomes a voxel is left out.
    pub fn from_pixel_point_cloud(point_cloud: VoxelPointCloud, threshold: usize) -> (tiles: Vec<
        (TileIdx, VoxelCollection),
    >)
        ensures
            tiles_of(point_cloud.points@, threshold, tiles@),
            forall|i: int| 0 <= i < tiles@.len() ==> (#[trigger] tiles@[i]).1.zoom_lv == point_cloud.zoom_lv,
    {
        let ghost points = point_cloud.points@;
        let mut clouds = point_cloud.split_by_tile();
        let ghost split = clouds@;
        let ghost mut made: Seq<Seq<PixelPoint>> = Seq::empty();
        let ghost mut source: Seq<int> = Seq::empty();
        let mut tiles: Vec<(TileIdx, VoxelCollection)> = Vec::new();
        let mut i: usize = 0;
        while i < clouds.len()
            invariant
                i <= clouds@.len(),
                clouds@.len() == split.len(),
                splits(points, split, points.len() as int),
                forall|j: int| i <= j < clouds@.len() ==> #[trigger] clouds@[j] == split[j],
                forall|j: int| 0 <= j < split.len() ==> (#[trigger] split[j]).1.zoom_lv == point_cloud.zoom_lv,
                made.len() == i,
                forall|j: int| 0 <= j < i ==> gathers(split[j].1.points@, threshold, #[trigger] made[j]),
                source.len() == tiles@.len(),
                forall|a: int| 0 <= a < source.len() ==> 0 <= #[trigger] source[a] < i,
                forall|a: int, b: int| 0 <= a < b < source.len() ==> #[trigger] source[a] < #[trigger] source[b],
                forall|a: int|
                    0 <= a < tiles@.len() ==> (#[trigger] tiles@[a]).0 == split[source[a]].0 && tiles@[a].1.voxels@
                        == made[source[a]] && tiles@[a].1.voxels@.len() > 0 && tiles@[a].1.zoom_lv
                        == point_cloud.zoom_lv,
                forall|j: int| 0 <= j < i && (#[trigger] made[j]).len() > 0 ==> source.contains(j),
            decreases clouds@.len() - i,
        {
            let tile: TileIdx = clouds[i].0;
            let zoom_lv = clouds[i].1.zoom_lv;
            let mut taken: Vec<PixelPoint> = Vec::new();
            std::mem::swap(&mut taken, &mut clouds[i].1.points);
            assert(taken@ == split[i as int].1.points@);
            let voxels = VoxelCollection::from_voxel_point_cloud(VoxelPointCloud::new(taken, zoom_lv), threshold);
            let ghost made_before = made;
            let ghost source_before = source;
            proof {
                made = made.push(voxels.voxels@);
            }
            if voxels.voxels.len() > 0 {
                tiles.push((tile, voxels));
                proof {
                    source = source.push(i as int);
                    assert forall|j: int| 0 <= j < i + 1 && (#[trigger] made[j]).len() > 0 implies source.contains(
                        j,
                    ) by {
                        if j < i {
                            assert(made_before[j] == made[j]);
                            assert(source_before.contains(j));
                            let a = choose|a: int| 0 <= a < source_before.len() && source_before[a] == j;
                            assert(source[a] == j);
                        } else {
                            assert(source[source_before.len() as int] == j);
                        }
                    }
                }
            } else {
                proof {
                    assert forall|j: int| 0 <= j < i + 1 && (#[trigger] made[j]).len() > 0 implies source.contains(
                        j,
                    ) by {
                        assert(made_before[j] == made[j]);
                    }
                }
            }
            proof {
                assert forall|j: int| 0 <= j < i + 1 implies gathers(
                    split[j].1.points@,
                    threshold,
                    #[trigger] made[j],
                ) by {
                    if j < i {
                        assert(made_before[j] == made[j]);
                    }
                }
                assert forall|a: int| 0 <= a < tiles@.len() implies (#[trigger] tiles@[a]).0 == split[source[a]].0
                    && tiles@[a].1.voxels@ == made[source[a]] && tiles@[a].1.voxels@.len() > 0 && tiles@[a].1.zoom_lv
                    == point_cloud.zoom_lv by {
                    if a < source_before.len() {
                        assert(source[a] == source_before[a]);
                        assert(made[source[a]] == made_before[source_before[a]]);
                    }
                }
            }
            i += 1;
        }
        proof {
            let n = points.len() as int;
            assert forall|a: int, b: int| 0 <= a < b < tiles@.len() implies (#[trigger] tiles@[a]).0 != (
            #[trigger] tiles@[b]).0 by {
                assert(source[a] < source[b]);
                assert(split[source[a]].0 != split[source[b]].0);
            }
            assert forall|t: int, a: int| 0 <= t < tiles@.len() && 0 <= a < tiles@[t].1.voxels@.len() implies ({
                let voxel = #[trigger] tiles@[t].1.voxels@[a];
                &&& tile_of(voxel.0) == tiles@[t].0
                &&& kept(points, voxel.0, threshold)
                &&& voxel.1 == mean_color(points, voxel.0)
            }) by {
                let j = source[t];
                let tile = split[j].0;
                let own = split[j].1.points@;
                let voxel = tiles@[t].1.voxels@[a];
                assert(own == picked(points, tile, n));
                assert(gathers(own, threshold, made[j]));
                assert(kept(own, made[j][a].0, threshold));
                lemma_gathered_somewhere(own, voxel.0, own.len() as int);
                let w = choose|w: int| 0 <= w < own.len() && (#[trigger] own[w]).0 == voxel.0;
                lemma_picked_tile(points, tile, n, w);
                lemma_gathered_in_tile(points, voxel.0, n);
            }
            assert forall|t: int, a: int, b: int|
                0 <= t < tiles@.len() && 0 <= a < b < tiles@[t].1.voxels@.len() implies (
            #[trigger] tiles@[t].1.voxels@[a]).0 != (#[trigger] tiles@[t].1.voxels@[b]).0 by {
                let j = source[t];
                assert(gathers(split[j].1.points@, threshold, made[j]));
                assert(made[j][a].0 != made[j][b].0);
            }
            assert forall|coord: Coord| #[trigger] kept(points, coord, threshold) implies tile_holds(
                tiles@,
                tile_of(coord),
                coord,
            ) by {
                let tile = tile_of(coord);
                lemma_gathered_somewhere(points, coord, n);
                let k = choose|k: int| 0 <= k < n && (#[trigger] points[k]).0 == coord;
                assert(covers(split, tile_of(points[k].0)));
                let j = choose|j: int| 0 <= j < split.len() && (#[trigger] split[j]).0 == tile;
                let own = split[j].1.points@;
                assert(own == picked(points, tile, n));
                lemma_gathered_in_tile(points, coord, n);
                assert(kept(own, coord, threshold));
                assert(gathers(own, threshold, made[j]));
                assert(holds_voxel(made[j], coord));
                assert(made[j].len() > 0);
                assert(source.contains(j));
                let t = choose|t: int| 0 <= t < source.len() && source[t] == j;
                assert(tiles@[t].0 == tile && holds_voxel(tiles@[t].1.voxels@, coord));
            }
        }
        tiles
    }
}

} // verus!
