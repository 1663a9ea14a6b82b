use vstd::prelude::*;
use coordinate_transformer::ZoomLv;
use std::collections::HashMap;

verus! {

broadcast use vstd::std_specs::hash::group_hash_axioms;

/// A pixel of the tile pyramid with a height: a cell in pixel coordinates.
pub type Coord = (u32, u32, u32);

/// The red, green and blue channel of a color.
pub type RGB = (u8, u8, u8);

/// A cell in pixel coordinates and a color.
pub type PixelPoint = (Coord, RGB);

/// The column and row of a tile of 256 by 256 pixels.
pub type TileIdx = (u32, u32);

/// Points in pixel coordinates.
pub struct VoxelPointCloud {
    pub points: Vec<PixelPoint>,
    /// The zoom level of the pixel coordinates.
    pub zoom_lv: ZoomLv,
}

/// Voxels in pixel coordinates: cells, no cell twice, each with its color.
pub struct VoxelCollection {
    pub voxels: Vec<PixelPoint>,
    /// The zoom level of the pixel coordinates.
    pub zoom_lv: ZoomLv,
}

/// The level at which the whole map is one tile.
fn lowest_zoom() -> (zoom_lv: ZoomLv)
    ensures
        zoom_lv == ZoomLv::Lv0,
{
    ZoomLv::Lv0
}

/// The tile a pixel lies in.
pub open spec fn tile_of(coord: Coord) -> TileIdx {
    (coord.0 / 256, coord.1 / 256)
}

/// The points of one tile among the first `upto` points, in their order.
pub open spec fn picked(points: Seq<PixelPoint>, tile: TileIdx, upto: int) -> Seq<PixelPoint>
    decreases upto,
{
    if upto <= 0 {
        Seq::empty()
    } else if tile_of(points[upto - 1].0) == tile {
        picked(points, tile, upto - 1).push(points[upto - 1])
    } else {
        picked(points, tile, upto - 1)
    }
}

/// Whether `tile` is among the tiles.
pub open spec fn covers(tiles: Seq<(TileIdx, VoxelPointCloud)>, tile: TileIdx) -> bool {
    exists|i: int| 0 <= i < tiles.len() && (#[trigger] tiles[i]).0 == tile
}

/// That `tiles` is the split of `points` by tile: no tile twice, each with its
/// points in their order, and every point in its tile.
pub open spec fn splits(points: Seq<PixelPoint>, tiles: Seq<(TileIdx, VoxelPointCloud)>, upto: int) -> bool {
    &&& forall|i: int, j: int| 0 <= i < j < tiles.len() ==> (#[trigger] tiles[i]).0 != (#[trigger] tiles[j]).0
    &&& forall|i: int|
        0 <= i < tiles.len() ==> (#[trigger] tiles[i]).1.points@ == picked(points, tiles[i].0, upto)
            && tiles[i].1.points@.len() > 0
    &&& forall|k: int| 0 <= k < upto ==> #[trigger] covers(tiles, tile_of(points[k].0))
}

/// What a cell has gathered from the first `upto` points: how many of them
/// fell into it, and the sums of their colors, channel by channel.
pub open spec fn gathered(points: Seq<PixelPoint>, coord: Coord, upto: int) -> (nat, (nat, nat, nat))
    decreases upto,
{
    if upto <= 0 {
        (0nat, (0nat, 0nat, 0nat))
    } else if points[upto - 1].0 == coord {
        let before = gathered(points, coord, upto - 1);
        (
            before.0 + 1,
            (
                before.1.0 + points[upto - 1].1.0 as nat,
                before.1.1 + points[upto - 1].1.1 as nat,
                before.1.2 + points[upto - 1].1.2 as nat,
            ),
        )
    } else {
        gathered(points, coord, upto - 1)
    }
}

/// How many points a cell needs to become a voxel: the threshold, and one at
/// the least.
pub open spec fn needed(threshold: usize) -> int {
    if threshold >= 1 {
        threshold as int
    } else {
        1
    }
}

/// Whether a cell becomes a voxel: it holds as many points as are needed.
pub open spec fn kept(points: Seq<PixelPoint>, coord: Coord, threshold: usize) -> bool {
    gathered(points, coord, points.len() as int).0 >= needed(threshold)
}

/// The color of a voxel: the mean of the colors of its points, channel by
/// channel, rounded down.
pub open spec fn mean_color(points: Seq<PixelPoint>, coord: Coord) -> RGB {
    let (count, sum) = gathered(points, coord, points.len() as int);
    if count == 0 {
        (0u8, 0u8, 0u8)
    } else {
        ((sum.0 / count) as u8, (sum.1 / count) as u8, (sum.2 / count) as u8)
    }
}

/// Whether a cell is among the voxels.
pub open spec fn holds_voxel(voxels: Seq<PixelPoint>, coord: Coord) -> bool {
    exists|i: int| 0 <= i < voxels.len() && (#[trigger] voxels[i]).0 == coord
}

/// That `voxels` holds the cells that become voxels, no cell twice, each with
/// its color.
pub open spec fn gathers(points: Seq<PixelPoint>, threshold: usize, voxels: Seq<PixelPoint>) -> bool {
    &&& forall|i: int, j: int| 0 <= i < j < voxels.len() ==> (#[trigger] voxels[i]).0 != (#[trigger] voxels[j]).0
    &&& forall|i: int|
        0 <= i < voxels.len() ==> kept(points, (#[trigger] voxels[i]).0, threshold) && voxels[i].1 == mean_color(
            points,
            voxels[i].0,
        )
    &&& forall|coord: Coord| #[trigger] kept(points, coord, threshold) ==> holds_voxel(voxels, coord)
}

/// What one cell has gathered so far.
struct Tally {
    coord: Coord,
    count: usize,
    sum: (u128, u128, u128),
}

spec fn tallied(slots: Seq<Tally>, upto: int, coord: Coord) -> bool {
    exists|i: int| 0 <= i < upto && (#[trigger] slots[i]).coord == coord
}

impl Tally {
    spec fn matches(&self, points: Seq<PixelPoint>, upto: int) -> bool {
        &&& gathered(points, self.coord, upto) == (
            self.count as nat,
            (self.sum.0 as nat, self.sum.1 as nat, self.sum.2 as nat),
        )
        &&& 1 <= self.count <= upto
        &&& self.sum.0 <= 255 * self.count
        &&& self.sum.1 <= 255 * self.count
        &&& self.sum.2 <= 255 * self.count
    }
}

/// A tile as one number.
pub open spec fn tile_key(tile: TileIdx) -> u64 {
    (tile.0 * 0x1_0000_0000 + tile.1) as u64
}

/// A cell as one number.
pub open spec fn coord_key(coord: Coord) -> u128 {
    (coord.0 * 0x1_0000_0000_0000_0000 + coord.1 * 0x1_0000_0000 + coord.2) as u128
}

fn key_of_tile(tile: TileIdx) -> (key: u64)
    ensures
        key == tile_key(tile),
{
    tile.0 as u64 * 0x1_0000_0000 + tile.1 as u64
}

fn key_of_coord(coord: Coord) -> (key: u128)
    ensures
        key == coord_key(coord),
{
    coord.0 as u128 * 0x1_0000_0000_0000_0000 + coord.1 as u128 * 0x1_0000_0000 + coord.2 as u128
}

proof fn lemma_tile_key(a: TileIdx, b: TileIdx)
    ensures
        tile_key(a) == tile_key(b) ==> a == b,
{
}

proof fn lemma_coord_key(a: Coord, b: Coord)
    ensures
        coord_key(a) == coord_key(b) ==> a == b,
{
}

impl VoxelPointCloud {
    /// A cloud of the given points.
    pub fn new(points: Vec<PixelPoint>, zoom_lv: ZoomLv) -> (cloud: Self)
        ensures
            cloud.points == points,
            cloud.zoom_lv == zoom_lv,
    {
        Self { points, zoom_lv }
    }

    /// A cloud without points, at the level at which the whole map is one tile.
    pub fn empty() -> (cloud: Self)
        ensures
            cloud.points@.len() == 0,
            cloud.zoom_lv == ZoomLv::Lv0,
    {
        Self { points: Vec::new(), zoom_lv: lowest_zoom() }
    }

    /// The cloud split by tile, the tiles in the order in which the points
    /// reach them.
    pub fn split_by_tile(self) -> (tiles: Vec<(TileIdx, VoxelPointCloud)>)
        ensures
            splits(self.points@, tiles@, self.points@.len() as int),
            forall|i: int| 0 <= i < tiles@.len() ==> (#[trigger] tiles@[i]).1.zoom_lv == self.zoom_lv,
    {
        let mut index: HashMap<u64, usize> = HashMap::new();
        let mut tiles: Vec<(TileIdx, VoxelPointCloud)> = Vec::new();
        let mut k: usize = 0;
        while k < self.points.len()
            invariant
                k <= self.points.len(),
                splits(self.points@, tiles@, k as int),
                forall|i: int| 0 <= i < tiles@.len() ==> (#[trigger] tiles@[i]).1.zoom_lv == self.zoom_lv,
                forall|key: u64| #[trigger]
                    index@.contains_key(key) ==> index@[key] < tiles@.len() && tile_key(
                        tiles@[index@[key] as int].0,
                    ) == key,
                forall|i: int|
                    0 <= i < tiles@.len() ==> index@.contains_key(tile_key((#[trigger] tiles@[i]).0)) && index@[tile_key(
                        tiles@[i].0,
                    )] == i,
            decreases self.points.len() - k,
        {
            let point: PixelPoint = self.points[k];
            let tile: TileIdx = (point.0.0 / 256, point.0.1 / 256);
            let key = key_of_tile(tile);
            let ghost before = tiles@;
            let found = match index.get(&key) {
                Some(slot) => Some(*slot),
                None => None,
            };
            match found {
                Some(slot) => {
                    proof {
                        lemma_tile_key(tile, before[slot as int].0);
                    }
                    let (tile_idx, cloud) = tiles.remove(slot);
                    let mut cloud = cloud;
                    cloud.points.push(point);
                    tiles.insert(slot, (tile_idx, cloud));
                    proof {
                        assert forall|i: int| 0 <= i < tiles@.len() implies (#[trigger] tiles@[i]).0 == before[i].0 by {}
                        assert forall|i: int| 0 <= i < tiles@.len() implies (#[trigger] tiles@[i]).1.points@ == picked(
                            self.points@,
                            tiles@[i].0,
                            k + 1,
                        ) && tiles@[i].1.points@.len() > 0 by {
                            if i != slot {
                                assert(tiles@[i] == before[i]);
                                lemma_tile_key(tile, before[i].0);
                            }
                        }
                        assert forall|j: int| 0 <= j < k + 1 implies #[trigger] covers(
                            tiles@,
                            tile_of(self.points@[j].0),
                        ) by {
                            if j < k {
                                assert(covers(before, tile_of(self.points@[j].0)));
                                let i = choose|i: int|
                                    0 <= i < before.len() && (#[trigger] before[i]).0 == tile_of(self.points@[j].0);
                                assert(tiles@[i].0 == before[i].0);
                            } else {
                                assert(tiles@[slot as int].0 == tile);
                            }
                        }
                        assert forall|i: int, j: int| 0 <= i < j < tiles@.len() implies (#[trigger] tiles@[i]).0 != (
                        #[trigger] tiles@[j]).0 by {
                            assert(before[i].0 != before[j].0);
                        }
                    }
                },
                None => {
                    let slot: usize = tiles.len();
                    index.insert(key, slot);
                    let mut points: Vec<PixelPoint> = Vec::new();
                    points.push(point);
                    tiles.push((tile, VoxelPointCloud { points, zoom_lv: self.zoom_lv }));
                    proof {
                        lemma_picked_none(self.points@, before, tile, k as int);
                        assert forall|i: int| 0 <= i < tiles@.len() implies (#[trigger] tiles@[i]).1.points@ == picked(
                            self.points@,
                            tiles@[i].0,
                            k + 1,
                        ) && tiles@[i].1.points@.len() > 0 by {
                            if i < before.len() {
                                assert(tiles@[i] == before[i]);
                                if before[i].0 == tile {
                                    assert(index@.contains_key(key));
                                }
                            } else {
                                assert(tiles@[i].1.points@ =~= Seq::<PixelPoint>::empty().push(point));
                            }
                        }
                        assert forall|j: int| 0 <= j < k + 1 implies #[trigger] covers(
                            tiles@,
                            tile_of(self.points@[j].0),
                        ) by {
                            if j < k {
                                assert(covers(before, tile_of(self.points@[j].0)));
                                let i = choose|i: int|
                                    0 <= i < before.len() && (#[trigger] before[i]).0 == tile_of(self.points@[j].0);
                                assert(tiles@[i] == before[i]);
                            } else {
                                assert(tiles@[slot as int].0 == tile);
                            }
                        }
                        assert forall|i: int, j: int| 0 <= i < j < tiles@.len() implies (#[trigger] tiles@[i]).0 != (
                        #[trigger] tiles@[j]).0 by {
                            if j < before.len() {
                                assert(before[i].0 != before[j].0);
                            } else {
                                assert(tiles@[i] == before[i]);
                                if before[i].0 == tile {
                                    lemma_tile_key(tile, before[i].0);
                                }
                            }
                        }
                        assert forall|other: u64| #[trigger] index@.contains_key(other) implies index@[other]
                            < tiles@.len() && tile_key(tiles@[index@[other] as int].0) == other by {
                            if other != key {
                                assert(tiles@[index@[other] as int] == before[index@[other] as int]);
                            }
                        }
                        assert forall|i: int| 0 <= i < tiles@.len() implies index@.contains_key(
                            tile_key((#[trigger] tiles@[i]).0),
                        ) && index@[tile_key(tiles@[i].0)] == i by {
                            if i < before.len() {
                                assert(tiles@[i] == before[i]);
                                lemma_tile_key(tile, before[i].0);
                            }
                        }
                    }
                },
            }
            k += 1;
        }
        tiles
    }
}

impl VoxelCollection {
    /// Voxels as given. The caller sees to it that no cell occurs twice.
    pub fn new(voxels: Vec<PixelPoint>, zoom_lv: ZoomLv) -> (collection: Self)
        ensures
            collection.voxels == voxels,
            collection.zoom_lv == zoom_lv,
    {
        Self { voxels, zoom_lv }
    }

    /// No voxels, at the lowest zoom level.
    pub fn empty() -> (collection: Self)
        ensures
            collection.voxels@.len() == 0,
            collection.zoom_lv == ZoomLv::Lv0,
    {
        Self { voxels: Vec::new(), zoom_lv: lowest_zoom() }
    }

    /// The voxels of a cloud. Every point is counted in its cell and its color
    /// summed. A cell becomes a voxel when it holds at least `threshold`
    /// points, and one at the least; its color is the mean of the colors of its
    /// points. The voxels come in the order in which the points reach their
    /// cells.
    pub fn from_voxel_point_cloud(voxel_point_cloud: VoxelPointCloud, threshold: usize) -> (collection: Self)
        ensures
            gathers(voxel_point_cloud.points@, threshold, collection.voxels@),
            collection.zoom_lv == voxel_point_cloud.zoom_lv,
    {
        let VoxelPointCloud { points, zoom_lv } = voxel_point_cloud;
        let mut index: HashMap<u128, usize> = HashMap::new();
        let mut slots: Vec<Tally> = Vec::new();
        let mut k: usize = 0;
        while k < points.len()
            invariant
                k <= points.len(),
                forall|key: u128| #[trigger]
                    index@.contains_key(key) ==> index@[key] < slots@.len() && coord_key(
                        slots@[index@[key] as int].coord,
                    ) == key,
                forall|i: int|
                    0 <= i < slots@.len() ==> index@.contains_key(coord_key((#[trigger] slots@[i]).coord))
                        && index@[coord_key(slots@[i].coord)] == i,
                forall|i: int| 0 <= i < slots@.len() ==> (#[trigger] slots@[i]).matches(points@, k as int),
                forall|coord: Coord|
                    (#[trigger] gathered(points@, coord, k as int)).0 > 0 ==> index@.contains_key(coord_key(coord)),
            decreases points.len() - k,
        {
            let point: PixelPoint = points[k];
            let key = key_of_coord(point.0);
            let ghost before = slots@;
            let ghost index_before = index@;
            let found = match index.get(&key) {
                Some(slot) => Some(*slot),
                None => None,
            };
            match found {
                Some(slot) => {
                    proof {
                        lemma_coord_key(point.0, before[slot as int].coord);
                        assert(before[slot as int].matches(points@, k as int));
                    }
                    let tally = slots.remove(slot);
                    let next = Tally {
                        coord: tally.coord,
                        count: tally.count + 1,
                        sum: (
                            tally.sum.0 + point.1.0 as u128,
                            tally.sum.1 + point.1.1 as u128,
                            tally.sum.2 + point.1.2 as u128,
                        ),
                    };
                    slots.insert(slot, next);
                    proof {
                        assert forall|i: int| 0 <= i < slots@.len() implies (#[trigger] slots@[i]).coord
                            == before[i].coord by {}
                        assert forall|i: int| 0 <= i < slots@.len() implies (#[trigger] slots@[i]).matches(
                            points@,
                            k + 1,
                        ) by {
                            if i != slot {
                                assert(slots@[i] == before[i]);
                                assert(before[i].matches(points@, k as int));
                                lemma_coord_key(point.0, before[i].coord);
                            }
                        }
                    }
                },
                None => {
                    let slot: usize = slots.len();
                    index.insert(key, slot);
                    slots.push(
                        Tally { coord: point.0, count: 1, sum: (point.1.0 as u128, point.1.1 as u128, point.1.2 as u128) },
                    );
                    proof {
                        assert(gathered(points@, point.0, k as int).0 == 0);
                        lemma_nothing_gathered(points@, point.0, k as int);
                        assert forall|i: int| 0 <= i < slots@.len() implies (#[trigger] slots@[i]).matches(
                            points@,
                            k + 1,
                        ) by {
                            if i < before.len() {
                                assert(slots@[i] == before[i]);
                                assert(before[i].matches(points@, k as int));
                                if before[i].coord == point.0 {
                                    assert(index_before.contains_key(key));
                                }
                            }
                        }
                        assert forall|other: u128| #[trigger] index@.contains_key(other) implies index@[other]
                            < slots@.len() && coord_key(slots@[index@[other] as int].coord) == other by {
                            if other != key {
                                assert(index_before.contains_key(other));
                                assert(slots@[index@[other] as int] == before[index@[other] as int]);
                            }
                        }
                        assert forall|i: int| 0 <= i < slots@.len() implies index@.contains_key(
                            coord_key((#[trigger] slots@[i]).coord),
                        ) && index@[coord_key(slots@[i].coord)] == i by {
                            if i < before.len() {
                                assert(slots@[i] == before[i]);
                                lemma_coord_key(point.0, before[i].coord);
                            }
                        }
                    }
                },
            }
            proof {
                assert forall|coord: Coord| (#[trigger] gathered(points@, coord, k + 1)).0 > 0 implies index@.contains_key(
                    coord_key(coord),
                ) by {
                    if coord != point.0 {
                        assert(gathered(points@, coord, k as int).0 > 0);
                        assert(index_before.contains_key(coord_key(coord)));
                    }
                }
            }
            k += 1;
        }
        let mut voxels: Vec<PixelPoint> = Vec::new();
        let mut m: usize = 0;
        while m < slots.len()
            invariant
                m <= slots.len(),
                k == points@.len(),
                forall|i: int, j: int|
                    0 <= i < j < slots@.len() ==> (#[trigger] slots@[i]).coord != (#[trigger] slots@[j]).coord,
                forall|i: int| 0 <= i < slots@.len() ==> (#[trigger] slots@[i]).matches(points@, k as int),
                forall|i: int, j: int| 0 <= i < j < voxels@.len() ==> (#[trigger] voxels@[i]).0 != (#[trigger] voxels@[j]).0,
                forall|j: int|
                    0 <= j < voxels@.len() ==> kept(points@, (#[trigger] voxels@[j]).0, threshold) && voxels@[j].1
                        == mean_color(points@, voxels@[j].0) && tallied(slots@, m as int, voxels@[j].0),
                forall|i: int|
                    0 <= i < m && kept(points@, (#[trigger] slots@[i]).coord, threshold) ==> holds_voxel(
                        voxels@,
                        slots@[i].coord,
                    ),
            decreases slots.len() - m,
        {
            let count: usize = slots[m].count;
            let sum = slots[m].sum;
            let coord: Coord = slots[m].coord;
            let ghost before = voxels@;
            assert(slots@[m as int].matches(points@, k as int));
            if count != 0 && count >= threshold {
                let divisor: u128 = count as u128;
                assert(sum.0 / divisor <= 255 && sum.1 / divisor <= 255 && sum.2 / divisor <= 255) by (nonlinear_arith)
                    requires
                        divisor >= 1,
                        sum.0 <= 255 * divisor,
                        sum.1 <= 255 * divisor,
                        sum.2 <= 255 * divisor,
                ;
                let rgb: RGB = ((sum.0 / divisor) as u8, (sum.1 / divisor) as u8, (sum.2 / divisor) as u8);
                voxels.push((coord, rgb));
                proof {
                    assert forall|i: int, j: int| 0 <= i < j < voxels@.len() implies (#[trigger] voxels@[i]).0 != (
                    #[trigger] voxels@[j]).0 by {
                        if j == before.len() {
                            assert(tallied(slots@, m as int, before[i].0));
                            let w = choose|w: int| 0 <= w < m && (#[trigger] slots@[w]).coord == before[i].0;
                            assert(slots@[w].coord != slots@[m as int].coord);
                        }
                    }
                    assert(voxels@[before.len() as int].0 == coord);
                }
            }
            proof {
                assert forall|j: int| 0 <= j < voxels@.len() implies tallied(
                    slots@,
                    m + 1,
                    (#[trigger] voxels@[j]).0,
                ) by {
                    if j < before.len() {
                        assert(tallied(slots@, m as int, before[j].0));
                        let w = choose|w: int| 0 <= w < m && (#[trigger] slots@[w]).coord == before[j].0;
                        assert(slots@[w].coord == voxels@[j].0);
                    } else {
                        assert(slots@[m as int].coord == voxels@[j].0);
                    }
                }
            }
            proof {
                assert forall|i: int|
                    0 <= i < m + 1 && kept(points@, (#[trigger] slots@[i]).coord, threshold) implies holds_voxel(
                    voxels@,
                    slots@[i].coord,
                ) by {
                    if i < m {
                        assert(holds_voxel(before, slots@[i].coord));
                        let j = choose|j: int| 0 <= j < before.len() && (#[trigger] before[j]).0 == slots@[i].coord;
                        assert(voxels@[j].0 == slots@[i].coord);
                    } else {
                        assert(voxels@[before.len() as int].0 == coord);
                    }
                }
            }
            m += 1;
        }
        proof {
            assert forall|coord: Coord| #[trigger] kept(points@, coord, threshold) implies holds_voxel(
                voxels@,
                coord,
            ) by {
                assert(gathered(points@, coord, k as int).0 > 0);
                let i = index@[coord_key(coord)] as int;
                lemma_coord_key(coord, slots@[i].coord);
                assert(kept(points@, slots@[i].coord, threshold));
            }
        }
        Self { voxels, zoom_lv }
    }
}

proof fn lemma_nothing_gathered(points: Seq<PixelPoint>, coord: Coord, upto: int)
    requires
        gathered(points, coord, upto).0 == 0,
    ensures
        gathered(points, coord, upto) == (0nat, (0nat, 0nat, 0nat)),
    decreases upto,
{
    if upto > 0 {
        if points[upto - 1].0 != coord {
            lemma_nothing_gathered(points, coord, upto - 1);
        }
    }
}

proof fn lemma_picked_none(points: Seq<PixelPoint>, tiles: Seq<(TileIdx, VoxelPointCloud)>, tile: TileIdx, upto: int)
    requires
        0 <= upto <= points.len(),
        forall|i: int| 0 <= i < tiles.len() ==> (#[trigger] tiles[i]).0 != tile,
        forall|k: int| 0 <= k < upto ==> #[trigger] covers(tiles, tile_of(points[k].0)),
    ensures
        picked(points, tile, upto) == Seq::<PixelPoint>::empty(),
    decreases upto,
{
    if upto > 0 {
        lemma_picked_none(points, tiles, tile, upto - 1);
        assert(covers(tiles, tile_of(points[upto - 1].0)));
    }
}

} // verus!
