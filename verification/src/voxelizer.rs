use vstd::prelude::*;
use crate::build_voxelizer::VoxelizerOption;
use crate::collection::{
    hands_out, lists, merges, no_cells, origin, put, put_all, single_points, Entry, JoinVoxelCollection,
    VoxelCollection,
};
use crate::element::{widened, Color, Meters, Point3D, Resolution, Voxel, ONE_METER};
use crate::voxel::{Coord, TileIdx};
use coordinate_transformer::ZoomLv;
use dashmap::DashMap;
use fxhash::FxBuildHasher;

verus! {

/// Why a voxelizer cannot be made.
#[derive(Copy, Clone, Debug, PartialEq, Eq)]
pub enum ConfigError {
    /// The voxelizer works in metres and was given a zoom level.
    NotMetric,
    /// The voxelizer works in tiles and was given metres.
    NotTiled,
}

/// Turning points into voxels: points are added cloud by cloud, and the voxels
/// are handed out at the end.
pub trait Voxelizer<O: VoxelizerOption>: Sized {
    /// What a cloud of points is to this voxelizer.
    type Input;

    /// What `finish` needs to know besides the voxels.
    type Scale;

    /// The voxelizer is in order.
    spec fn wf(&self) -> bool;

    /// Whether the voxelizer can work at this resolution.
    spec fn accepts(resolution: Resolution) -> bool;

    /// What the voxelizer says to a resolution it cannot work at.
    spec fn refusal() -> ConfigError;

    /// Whether the voxelizer can take this cloud.
    spec fn takes(pc: Self::Input) -> bool;

    /// That this is a voxelizer without points, as made for the resolution.
    spec fn fresh(self, resolution: Resolution) -> bool;

    /// That `after` is this voxelizer with the points of the cloud added.
    spec fn added(self, pc: Self::Input, after: Self) -> bool;

    /// That `store` holds the voxels of this voxelizer.
    spec fn finished(self, scale: Self::Scale, store: O::OutVC) -> bool;

    /// A voxelizer without points.
    fn new(resolution: Resolution) -> (r: Result<Self, ConfigError>)
        ensures
            r is Ok <==> Self::accepts(resolution),
            r is Ok ==> r->Ok_0.wf() && r->Ok_0.fresh(resolution),
            r is Err ==> r->Err_0 == Self::refusal(),
    ;

    /// Adds the points of a cloud.
    fn add(&mut self, pc: Self::Input)
        requires
            old(self).wf(),
            Self::takes(pc),
        ensures
            final(self).wf(),
            old(self).added(pc, *final(self)),
    ;

    /// The voxels of all points added.
    fn finish(self, scale: Self::Scale) -> (store: O::OutVC)
        requires
            self.wf(),
        ensures
            store.wf(),
            self.finished(scale, store),
    ;
}

/// The voxelizer of one region at a resolution in metres. It takes the cell of
/// each point: the point divided by the resolution and rounded down, axis by
/// axis.
pub struct SimpleVoxelizer<O: VoxelizerOption> {
    pub field: O::CalcVC,
    pub resolution: Meters,
}

impl<O: VoxelizerOption> Voxelizer<O> for SimpleVoxelizer<O> {
    type Input = Vec<(Point3D, Color)>;

    type Scale = ();

    open spec fn wf(&self) -> bool {
        &&& self.field.wf()
        &&& self.field.spec_offset() == origin()
        &&& self.field.spec_resolution() == self.resolution
    }

    open spec fn accepts(resolution: Resolution) -> bool {
        resolution is Mater
    }

    open spec fn refusal() -> ConfigError {
        ConfigError::NotMetric
    }

    open spec fn takes(pc: Self::Input) -> bool {
        true
    }

    /// The store holds nothing and the resolution is the one given.
    open spec fn fresh(self, resolution: Resolution) -> bool {
        self.resolution == resolution->Mater_0 && merges(self.field, Seq::<Entry>::empty(), None)
    }

    /// The store of `after` is built from a listing of the cells of this
    /// store followed by one entry per point.
    open spec fn added(self, pc: Self::Input, after: Self) -> bool {
        &&& after.resolution == self.resolution
        &&& exists|first: Seq<Entry>| #[trigger]
            lists(self.field.cells(), first) && merges(after.field, first + single_points(pc@), None)
    }

    /// The store is built from a listing of the gathered cells, each with the
    /// sums and the weight it has gathered, with the box of the gathering
    /// store if that store knows it, and with its offset and resolution.
    open spec fn finished(self, scale: Self::Scale, store: O::OutVC) -> bool {
        &&& store.spec_offset() == self.field.spec_offset()
        &&& store.spec_resolution() == self.resolution
        &&& exists|list: Seq<Entry>| #[trigger]
            lists(self.field.cells(), list) && merges(
                store,
                list,
                if self.field.spec_has_bounds() {
                    Some(self.field.spec_bounds())
                } else {
                    None
                },
            )
    }

    fn new(resolution: Resolution) -> (r: Result<Self, ConfigError>) {
        match resolution {
            Resolution::Mater(meters) => Ok(
                SimpleVoxelizer { field: O::CalcVC::new(Vec::new(), None, (0, 0, 0), meters), resolution: meters },
            ),
            Resolution::Tile { zoom_lv: _ } => Err(ConfigError::NotMetric),
        }
    }

    /// Adds one point per item: the store is built anew from its cells followed
    /// by the points, so that a store over a grid grows to hold them all.
    fn add(&mut self, pc: Self::Input) {
        let builder = O::CalcVC::builder();
        let voxels = builder.points(pc).voxels;
        let mut taken = O::CalcVC::new(Vec::new(), None, (0, 0, 0), self.resolution);
        std::mem::swap(&mut taken, &mut self.field);
        proof {
            assert forall|p: Point3D| #[trigger] taken.cells().dom().contains(p) implies crate::collection::fits(
                p,
                taken.spec_offset(),
            ) by {}
        }
        let ghost before = taken.cells();
        let store = taken.absorb(voxels);
        proof {
            let first = choose|first: Seq<Entry>| #[trigger]
                hands_out(before, origin(), first) && merges(store, first + voxels@, None);
            let list = choose|list: Seq<Entry>|
                lists(before, list) && #[trigger] crate::collection::relocates(list, origin(), first);
            assert(list =~= first);
            assert(lists(old(self).field.cells(), first));
        }
        self.field = store;
    }

    /// The store of the gathered cells, each with the sums and the weight it
    /// has gathered. The color a cell shows is the average that reading the
    /// store gives.
    fn finish(self, scale: Self::Scale) -> (store: O::OutVC) {
        let mut field = self.field;
        let current_bounds = if field.has_bounds() {
            Some(field.get_bounds())
        } else {
            None
        };
        let offset = field.get_offset();
        let points = field.into_vec();
        let store = O::OutVC::new(points, current_bounds, offset, self.resolution);
        proof {
            assert(lists(self.field.cells(), points@));
        }
        store
    }
}

impl<O: VoxelizerOption> Default for SimpleVoxelizer<O> {
    /// The voxelizer without points at a resolution of one metre.
    fn default() -> (voxelizer: Self)
        ensures
            voxelizer.wf(),
            voxelizer.fresh(Resolution::Mater(ONE_METER)),
    {
        SimpleVoxelizer { field: O::CalcVC::new(Vec::new(), None, (0, 0, 0), ONE_METER), resolution: ONE_METER }
    }
}

/// A point of a tiled cloud: its pixel and height in pixel coordinates, its
/// color, and the size of a pixel at its latitude.
pub type PixelSample = (Coord, Color, Meters);

/// The place of each tile in a list of tiles, as a sharded map holds it.
pub uninterp spec fn slots_of(map: DashMap<TileIdx, usize, FxBuildHasher>) -> Map<TileIdx, usize>;

/// No places.
pub open spec fn no_slots() -> Map<TileIdx, usize> {
    Map::empty()
}

/// `DashMap::with_hasher`: a map that holds nothing.
#[verifier::external_body]
fn slots_new() -> (map: DashMap<TileIdx, usize, FxBuildHasher>)
    ensures
        slots_of(map) == no_slots(),
{
    DashMap::with_hasher(FxBuildHasher::default())
}

/// `DashMap::get`: the place of a tile, if the map holds the tile.
#[verifier::external_body]
fn slots_get(map: &DashMap<TileIdx, usize, FxBuildHasher>, tile: &TileIdx) -> (r: Option<usize>)
    ensures
        r == (if slots_of(*map).dom().contains(*tile) {
            Some(slots_of(*map)[*tile])
        } else {
            None
        }),
{
    map.get(tile).map(|entry| *entry.value())
}

/// `DashMap::insert`: sets the place of a tile.
#[verifier::external_body]
fn slots_insert(map: &mut DashMap<TileIdx, usize, FxBuildHasher>, tile: TileIdx, slot: usize)
    ensures
        slots_of(*final(map)) == slots_of(*old(map)).insert(tile, slot),
{
    map.insert(tile, slot);
}

/// The tile of 256 by 256 pixels that a pixel lies in.
pub open spec fn tile_at(pixel: Coord) -> TileIdx {
    (pixel.0 / 256, pixel.1 / 256)
}

/// Whether a pixel and its height are cell indices.
pub open spec fn is_cell(pixel: Coord) -> bool {
    pixel.0 <= i32::MAX && pixel.1 <= i32::MAX && pixel.2 <= i32::MAX
}

/// The entry of a sample: its cell, with the voxel of one point of its color.
pub open spec fn entry_of(sample: PixelSample) -> Entry {
    (
        (sample.0.0 as i32, sample.0.1 as i32, sample.0.2 as i32),
        Voxel { color: widened(sample.1), weight: 1 },
    )
}

/// The entries of the samples of one tile among the first `upto` samples, in
/// their order.
pub open spec fn tile_entries(samples: Seq<PixelSample>, tile: TileIdx, upto: int) -> Seq<Entry>
    decreases upto,
{
    if upto <= 0 {
        Seq::empty()
    } else if tile_at(samples[upto - 1].0) == tile {
        tile_entries(samples, tile, upto - 1).push(entry_of(samples[upto - 1]))
    } else {
        tile_entries(samples, tile, upto - 1)
    }
}

/// The first of the first `upto` samples that lies in a tile, if there is one.
pub open spec fn first_in(samples: Seq<PixelSample>, tile: TileIdx, upto: int) -> Option<PixelSample>
    decreases upto,
{
    if upto <= 0 {
        None
    } else {
        match first_in(samples, tile, upto - 1) {
            Some(sample) => Some(sample),
            None => if tile_at(samples[upto - 1].0) == tile {
                Some(samples[upto - 1])
            } else {
                None
            },
        }
    }
}

/// The first `upto` lists, one after the other.
pub open spec fn joined(parts: Seq<Seq<Entry>>, upto: int) -> Seq<Entry>
    decreases upto,
{
    if upto <= 0 {
        Seq::empty()
    } else {
        joined(parts, upto - 1) + parts[upto - 1]
    }
}

/// That `parts` holds, tile by tile, a listing of the cells of the store of the
/// tile.
pub open spec fn lists_tiles<S: VoxelCollection>(tiles: Seq<(TileIdx, S)>, parts: Seq<Seq<Entry>>) -> bool {
    &&& parts.len() == tiles.len()
    &&& forall|i: int| 0 <= i < tiles.len() ==> lists((#[trigger] tiles[i]).1.cells(), parts[i])
}

/// Whether `tile` is among the tiles.
pub open spec fn has_tile<S>(tiles: Seq<(TileIdx, S)>, tile: TileIdx) -> bool {
    exists|i: int| 0 <= i < tiles.len() && (#[trigger] tiles[i]).0 == tile
}

/// The voxelizer of a tiled map at a zoom level. It takes points in pixel
/// coordinates and keeps a store for each tile of 256 by 256 pixels that a
/// point lies in. The store of a tile is made from the first point of the
/// tile, with the pixel size at that point as its resolution.
pub struct MapTileVoxelizer<O: VoxelizerOption> {
    pub field: DashMap<TileIdx, usize, FxBuildHasher>,
    /// The tiles in the order in which points reached them.
    pub tiles: Vec<(TileIdx, O::CalcVC)>,
    pub zoom_lv: ZoomLv,
}

impl<O: VoxelizerOption> MapTileVoxelizer<O> {
    /// That `after` is what adding the first `upto` samples makes of the tiles
    /// `before`: the tiles there were, each with the entries of its samples
    /// offered to its store, followed by a tile for every other tile that a
    /// sample lies in, its store made from the first sample of the tile.
    pub open spec fn grows(
        before: Seq<(TileIdx, O::CalcVC)>,
        samples: Seq<PixelSample>,
        upto: int,
        after: Seq<(TileIdx, O::CalcVC)>,
    ) -> bool {
        &&& before.len() <= after.len()
        &&& forall|i: int|
            0 <= i < before.len() ==> {
                &&& (#[trigger] after[i]).0 == before[i].0
                &&& after[i].1.admitted() == before[i].1.admitted()
                &&& after[i].1.spec_resolution() == before[i].1.spec_resolution()
                &&& after[i].1.cells() == put_all(
                    before[i].1.cells(),
                    before[i].1.admitted(),
                    O::CalcVC::planar(),
                    tile_entries(samples, before[i].0, upto),
                )
            }
        &&& forall|i: int|
            before.len() <= i < after.len() ==> {
                &&& first_in(samples, (#[trigger] after[i]).0, upto) is Some
                &&& after[i].1.admitted() == O::CalcVC::frame(
                    seq![entry_of(first_in(samples, after[i].0, upto).unwrap())],
                    None,
                )
                &&& after[i].1.spec_resolution() == first_in(samples, after[i].0, upto).unwrap().2
                &&& after[i].1.cells() == put_all(
                    no_cells(),
                    after[i].1.admitted(),
                    O::CalcVC::planar(),
                    tile_entries(samples, after[i].0, upto),
                )
            }
        &&& forall|k: int| 0 <= k < upto ==> #[trigger] has_tile(after, tile_at(samples[k].0))
    }

    /// The map and the list agree on the place of every tile, no tile occurs
    /// twice, and every store is in order and has no offset.
    pub open spec fn tiles_wf(index: Map<TileIdx, usize>, tiles: Seq<(TileIdx, O::CalcVC)>) -> bool {
        &&& forall|tile: TileIdx| #[trigger]
            index.dom().contains(tile) ==> index[tile] < tiles.len() && tiles[index[tile] as int].0 == tile
        &&& forall|i: int|
            0 <= i < tiles.len() ==> index.dom().contains((#[trigger] tiles[i]).0) && index[tiles[i].0] == i
                && tiles[i].1.wf() && tiles[i].1.spec_offset() == origin()
    }

    /// One store per tile, in the order in which points reached the tiles,
    /// each with the cells its tile has gathered and with the resolution of
    /// its tile.
    pub fn finish_tiles(self) -> (r: Vec<(TileIdx, O::OutVC)>)
        requires
            self.wf(),
        ensures
            r@.len() == self.tiles@.len(),
            forall|i: int|
                0 <= i < r@.len() ==> {
                    &&& (#[trigger] r@[i]).0 == self.tiles@[i].0
                    &&& r@[i].1.wf()
                    &&& r@[i].1.spec_offset() == origin()
                    &&& r@[i].1.spec_resolution() == self.tiles@[i].1.spec_resolution()
                    &&& exists|list: Seq<Entry>| #[trigger]
                        lists(self.tiles@[i].1.cells(), list) && merges(
                            r@[i].1,
                            list,
                            Some(self.tiles@[i].1.spec_bounds()),
                        )
                },
    {
        let mut tiles = self.tiles;
        let ghost given = tiles@;
        let mut out: Vec<(TileIdx, O::OutVC)> = Vec::new();
        let mut i: usize = 0;
        while i < tiles.len()
            invariant
                i <= tiles@.len(),
                tiles@.len() == given.len(),
                forall|j: int| i <= j < tiles@.len() ==> #[trigger] tiles@[j] == given[j],
                forall|j: int| 0 <= j < given.len() ==> (#[trigger] given[j]).1.wf() && given[j].1.spec_offset() == origin(),
                out@.len() == i,
                forall|j: int|
                    0 <= j < i ==> {
                        &&& (#[trigger] out@[j]).0 == given[j].0
                        &&& out@[j].1.wf()
                        &&& out@[j].1.spec_offset() == origin()
                        &&& out@[j].1.spec_resolution() == given[j].1.spec_resolution()
                        &&& exists|list: Seq<Entry>| #[trigger]
                            lists(given[j].1.cells(), list) && merges(out@[j].1, list, Some(given[j].1.spec_bounds()))
                    },
            decreases tiles@.len() - i,
        {
            let tile: TileIdx = tiles[i].0;
            assert(given[i as int].1.wf());
            let mut store = O::CalcVC::new(Vec::new(), None, (0, 0, 0), 0);
            std::mem::swap(&mut store, &mut tiles[i].1);
            let bounds = store.get_bounds();
            let offset = store.get_offset();
            let resolution = store.get_resolution();
            let voxels = store.into_vec();
            let finished = O::OutVC::new(voxels, Some(bounds), offset, resolution);
            proof {
                assert(lists(given[i as int].1.cells(), voxels@));
            }
            out.push((tile, finished));
            i += 1;
        }
        out
    }

    /// The least and the greatest resolution among the tiles, by bit pattern,
    /// which for resolutions above zero is their order as numbers. Without
    /// tiles there is none.
    pub fn resolution_range(&self) -> (r: Option<(Meters, Meters)>)
        requires
            self.wf(),
        ensures
            r is Some <==> self.tiles@.len() > 0,
            r is Some ==> {
                &&& forall|i: int|
                    0 <= i < self.tiles@.len() ==> r->Some_0.0 <= (#[trigger] self.tiles@[i]).1.spec_resolution()
                        <= r->Some_0.1
                &&& exists|i: int| 0 <= i < self.tiles@.len() && (#[trigger] self.tiles@[i]).1.spec_resolution() == r->Some_0.0
                &&& exists|i: int| 0 <= i < self.tiles@.len() && (#[trigger] self.tiles@[i]).1.spec_resolution() == r->Some_0.1
            },
    {
        if self.tiles.len() == 0 {
            return None;
        }
        assert(self.tiles@[0].1.wf());
        let mut low: Meters = self.tiles[0].1.get_resolution();
        let mut high: Meters = low;
        let ghost mut at_low: int = 0;
        let ghost mut at_high: int = 0;
        let mut i: usize = 1;
        while i < self.tiles.len()
            invariant
                1 <= i <= self.tiles@.len(),
                self.wf(),
                forall|j: int| 0 <= j < i ==> low <= (#[trigger] self.tiles@[j]).1.spec_resolution() <= high,
                0 <= at_low < i && self.tiles@[at_low].1.spec_resolution() == low,
                0 <= at_high < i && self.tiles@[at_high].1.spec_resolution() == high,
            decreases self.tiles@.len() - i,
        {
            assert(self.tiles@[i as int].1.wf());
            let resolution = self.tiles[i].1.get_resolution();
            if resolution < low {
                low = resolution;
                proof {
                    at_low = i as int;
                }
            }
            if resolution > high {
                high = resolution;
                proof {
                    at_high = i as int;
                }
            }
            i += 1;
        }
        Some((low, high))
    }
}

/// The first sample of a tile gives the first entry of the tile.
pub proof fn lemma_first_entry(samples: Seq<PixelSample>, tile: TileIdx, upto: int)
    requires
        0 <= upto <= samples.len(),
    ensures
        first_in(samples, tile, upto) is Some <==> tile_entries(samples, tile, upto).len() > 0,
        first_in(samples, tile, upto) is Some ==> tile_entries(samples, tile, upto)[0] == entry_of(
            first_in(samples, tile, upto).unwrap(),
        ),
    decreases upto,
{
    if upto > 0 {
        lemma_first_entry(samples, tile, upto - 1);
    }
}

proof fn lemma_joined_prefix(parts: Seq<Seq<Entry>>, grown: Seq<Seq<Entry>>, upto: int)
    requires
        0 <= upto <= parts.len(),
        parts.len() <= grown.len(),
        forall|i: int| 0 <= i < parts.len() ==> #[trigger] grown[i] == parts[i],
    ensures
        joined(grown, upto) == joined(parts, upto),
    decreases upto,
{
    if upto > 0 {
        lemma_joined_prefix(parts, grown, upto - 1);
    }
}

proof fn lemma_no_entries<S>(samples: Seq<PixelSample>, tiles: Seq<(TileIdx, S)>, tile: TileIdx, upto: int)
    requires
        0 <= upto <= samples.len(),
        !has_tile(tiles, tile),
        forall|k: int| 0 <= k < upto ==> #[trigger] has_tile(tiles, tile_at(samples[k].0)),
    ensures
        tile_entries(samples, tile, upto) == Seq::<Entry>::empty(),
        first_in(samples, tile, upto) is None,
    decreases upto,
{
    if upto > 0 {
        lemma_no_entries(samples, tiles, tile, upto - 1);
        assert(has_tile(tiles, tile_at(samples[upto - 1].0)));
    }
}

impl<O: VoxelizerOption> Voxelizer<O> for MapTileVoxelizer<O> {
    type Input = Vec<PixelSample>;

    type Scale = Meters;

    open spec fn wf(&self) -> bool {
        Self::tiles_wf(slots_of(self.field), self.tiles@)
    }

    open spec fn accepts(resolution: Resolution) -> bool {
        resolution is Tile
    }

    open spec fn refusal() -> ConfigError {
        ConfigError::NotTiled
    }

    open spec fn takes(pc: Self::Input) -> bool {
        forall|k: int| 0 <= k < pc@.len() ==> is_cell((#[trigger] pc@[k]).0)
    }

    /// There are no tiles and the zoom level is the one given.
    open spec fn fresh(self, resolution: Resolution) -> bool {
        self.tiles@.len() == 0 && self.zoom_lv == resolution->Tile_zoom_lv
    }

    /// The tiles of `after` are those of this voxelizer grown by the samples.
    open spec fn added(self, pc: Self::Input, after: Self) -> bool {
        Self::grows(self.tiles@, pc@, pc@.len() as int, after.tiles@) && after.zoom_lv == self.zoom_lv
    }

    /// The store is built from listings of the cells of the tiles, tile after
    /// tile, with no box given, no offset, and the resolution given.
    open spec fn finished(self, scale: Self::Scale, store: O::OutVC) -> bool {
        &&& store.spec_resolution() == scale
        &&& store.spec_offset() == origin()
        &&& exists|parts: Seq<Seq<Entry>>| #[trigger]
            lists_tiles(self.tiles@, parts) && merges(store, joined(parts, parts.len() as int), None)
    }

    fn new(resolution: Resolution) -> (r: Result<Self, ConfigError>) {
        match resolution {
            Resolution::Tile { zoom_lv } => Ok(MapTileVoxelizer { field: slots_new(), tiles: Vec::new(), zoom_lv }),
            Resolution::Mater(_) => Err(ConfigError::NotTiled),
        }
    }

    /// Adds the samples one by one: each is offered to the store of its tile,
    /// and a tile that no sample has reached before gets a store made from
    /// the sample.
    fn add(&mut self, pc: Self::Input) {
        let ghost given = self.tiles@;
        let mut k: usize = 0;
        proof {
            assert forall|i: int| 0 <= i < given.len() implies put_all(
                (#[trigger] given[i]).1.cells(),
                given[i].1.admitted(),
                O::CalcVC::planar(),
                tile_entries(pc@, given[i].0, 0),
            ) == given[i].1.cells() by {}
        }
        while k < pc.len()
            invariant
                k <= pc.len(),
                self.wf(),
                Self::takes(pc),
                self.zoom_lv == old(self).zoom_lv,
                Self::grows(given, pc@, k as int, self.tiles@),
            decreases pc.len() - k,
        {
            let sample: PixelSample = pc[k];
            assert(is_cell(pc@[k as int].0));
            let tile: TileIdx = (sample.0.0 / 256, sample.0.1 / 256);
            let point: Point3D = (sample.0.0 as i32, sample.0.1 as i32, sample.0.2 as i32);
            let voxel = Voxel::of_color(sample.1);
            let ghost before = self.tiles@;
            let ghost index_before = slots_of(self.field);
            match slots_get(&self.field, &tile) {
                Some(slot) => {
                    assert(before[slot as int].1.wf());
                    self.tiles[slot].1.insert_one(point, voxel);
                    proof {
                        let after = self.tiles@;
                        assert forall|i: int| 0 <= i < after.len() implies (#[trigger] after[i]).0 == before[i].0 by {}
                        Self::lemma_step(given, pc@, k as int, before, after, slot as int);
                    }
                },
                None => {
                    let mut first: Vec<Entry> = Vec::new();
                    first.push((point, voxel));
                    let store = O::CalcVC::new(first, None, (0, 0, 0), sample.2);
                    let slot: usize = self.tiles.len();
                    slots_insert(&mut self.field, tile, slot);
                    self.tiles.push((tile, store));
                    proof {
                        let after = self.tiles@;
                        assert(first@ =~= seq![entry_of(sample)]);
                        assert(!has_tile(before, tile)) by {
                            if has_tile(before, tile) {
                                let i = choose|i: int| 0 <= i < before.len() && (#[trigger] before[i]).0 == tile;
                                assert(index_before.dom().contains(before[i].0));
                            }
                        }
                        lemma_no_entries(pc@, before, tile, k as int);
                        Self::lemma_open(given, pc@, k as int, before, after);
                    }
                },
            }
            k += 1;
        }
    }

    /// One store of the cells of all tiles, offered tile after tile in the
    /// order of the tiles, with the given resolution.
    fn finish(self, scale: Self::Scale) -> (store: O::OutVC) {
        let mut tiles = self.tiles;
        let ghost given = tiles@;
        let ghost mut parts: Seq<Seq<Entry>> = Seq::empty();
        let mut voxels: Vec<Entry> = Vec::new();
        let mut i: usize = 0;
        while i < tiles.len()
            invariant
                i <= tiles@.len(),
                tiles@.len() == given.len(),
                forall|j: int| i <= j < tiles@.len() ==> #[trigger] tiles@[j] == given[j],
                forall|j: int| 0 <= j < given.len() ==> (#[trigger] given[j]).1.wf() && given[j].1.spec_offset() == origin(),
                parts.len() == i,
                forall|j: int| 0 <= j < i ==> lists((#[trigger] given[j]).1.cells(), parts[j]),
                voxels@ == joined(parts, i as int),
            decreases tiles@.len() - i,
        {
            assert(given[i as int].1.wf());
            let mut store = O::CalcVC::new(Vec::new(), None, (0, 0, 0), 0);
            std::mem::swap(&mut store, &mut tiles[i].1);
            proof {
                assert forall|p: Point3D| #[trigger] store.cells().dom().contains(p) implies crate::collection::fits(
                    p,
                    store.spec_offset(),
                ) by {}
            }
            let ghost cells = store.cells();
            let mut entries = store.into_vec_with_offset();
            proof {
                let list = choose|list: Seq<Entry>|
                    lists(cells, list) && #[trigger] crate::collection::relocates(list, origin(), entries@);
                assert(list =~= entries@);
                let ghost grown = parts.push(entries@);
                lemma_joined_prefix(parts, grown, i as int);
                parts = grown;
            }
            voxels.append(&mut entries);
            i += 1;
        }
        let builder = O::OutVC::builder();
        let store = builder.voxels(voxels).resolution(scale).build();
        proof {
            assert(lists_tiles(self.tiles@, parts));
        }
        store
    }
}

impl<O: VoxelizerOption> MapTileVoxelizer<O> {
    /// A tile that the samples opened and that one sample alone lies in has a
    /// store with one cell: the cell of that sample, holding the voxel of one
    /// point of its color, at the resolution of the sample.
    pub proof fn lemma_lone_sample(
        given: Seq<(TileIdx, O::CalcVC)>,
        samples: Seq<PixelSample>,
        after: Seq<(TileIdx, O::CalcVC)>,
        at: int,
    )
        requires
            Self::grows(given, samples, samples.len() as int, after),
            given.len() <= at < after.len(),
            tile_entries(samples, after[at].0, samples.len() as int).len() == 1,
        ensures
            first_in(samples, after[at].0, samples.len() as int) is Some,
            after[at].1.spec_resolution() == first_in(samples, after[at].0, samples.len() as int).unwrap().2,
            after[at].1.cells() == no_cells().insert(
                entry_of(first_in(samples, after[at].0, samples.len() as int).unwrap()).0,
                entry_of(first_in(samples, after[at].0, samples.len() as int).unwrap()).1,
            ),
    {
        let n = samples.len() as int;
        let tile = after[at].0;
        let entries = tile_entries(samples, tile, n);
        lemma_first_entry(samples, tile, n);
        let entry = entry_of(first_in(samples, tile, n).unwrap());
        assert(entries =~= seq![entry]);
        crate::aggregation::lemma_built_from_one(after[at].1, entry);
    }

    proof fn lemma_step(
        given: Seq<(TileIdx, O::CalcVC)>,
        samples: Seq<PixelSample>,
        k: int,
        before: Seq<(TileIdx, O::CalcVC)>,
        after: Seq<(TileIdx, O::CalcVC)>,
        slot: int,
    )
        requires
            0 <= k < samples.len(),
            Self::grows(given, samples, k, before),
            0 <= slot < before.len(),
            before[slot].0 == tile_at(samples[k].0),
            forall|i: int, j: int| 0 <= i < j < before.len() ==> (#[trigger] before[i]).0 != (#[trigger] before[j]).0,
            after.len() == before.len(),
            forall|i: int| 0 <= i < before.len() && i != slot ==> #[trigger] after[i] == before[i],
            after[slot].0 == before[slot].0,
            after[slot].1.admitted() == before[slot].1.admitted(),
            after[slot].1.spec_resolution() == before[slot].1.spec_resolution(),
            after[slot].1.cells() == put(
                before[slot].1.cells(),
                before[slot].1.admitted(),
                O::CalcVC::planar(),
                entry_of(samples[k]).0,
                entry_of(samples[k]).1,
            ),
        ensures
            Self::grows(given, samples, k + 1, after),
    {
        let tile = tile_at(samples[k].0);
        assert forall|i: int| 0 <= i < given.len() implies ({
            &&& (#[trigger] after[i]).0 == given[i].0
            &&& after[i].1.admitted() == given[i].1.admitted()
            &&& after[i].1.spec_resolution() == given[i].1.spec_resolution()
            &&& after[i].1.cells() == put_all(
                given[i].1.cells(),
                given[i].1.admitted(),
                O::CalcVC::planar(),
                tile_entries(samples, given[i].0, k + 1),
            )
        }) by {
            assert(before[i].0 == given[i].0);
            if i == slot {
                assert(tile_entries(samples, tile, k + 1).drop_last() == tile_entries(samples, tile, k));
            } else {
                assert(before[i].0 != before[slot].0);
            }
        }
        assert forall|i: int| given.len() <= i < after.len() implies ({
            &&& first_in(samples, (#[trigger] after[i]).0, k + 1) is Some
            &&& after[i].1.admitted() == O::CalcVC::frame(
                seq![entry_of(first_in(samples, after[i].0, k + 1).unwrap())],
                None,
            )
            &&& after[i].1.spec_resolution() == first_in(samples, after[i].0, k + 1).unwrap().2
            &&& after[i].1.cells() == put_all(
                no_cells(),
                after[i].1.admitted(),
                O::CalcVC::planar(),
                tile_entries(samples, after[i].0, k + 1),
            )
        }) by {
            assert(first_in(samples, before[i].0, k) is Some);
            if i == slot {
                assert(tile_entries(samples, tile, k + 1).drop_last() == tile_entries(samples, tile, k));
            } else {
                assert(before[i].0 != before[slot].0);
            }
        }
        assert forall|j: int| 0 <= j < k + 1 implies #[trigger] has_tile(after, tile_at(samples[j].0)) by {
            if j < k {
                assert(has_tile(before, tile_at(samples[j].0)));
                let i = choose|i: int| 0 <= i < before.len() && (#[trigger] before[i]).0 == tile_at(samples[j].0);
                assert(after[i].0 == before[i].0);
            } else {
                assert(after[slot].0 == tile);
            }
        }
    }

    proof fn lemma_open(
        given: Seq<(TileIdx, O::CalcVC)>,
        samples: Seq<PixelSample>,
        k: int,
        before: Seq<(TileIdx, O::CalcVC)>,
        after: Seq<(TileIdx, O::CalcVC)>,
    )
        requires
            0 <= k < samples.len(),
            Self::grows(given, samples, k, before),
            !has_tile(before, tile_at(samples[k].0)),
            tile_entries(samples, tile_at(samples[k].0), k) == Seq::<Entry>::empty(),
            first_in(samples, tile_at(samples[k].0), k) is None,
            after.len() == before.len() + 1,
            forall|i: int| 0 <= i < before.len() ==> #[trigger] after[i] == before[i],
            after[before.len() as int].0 == tile_at(samples[k].0),
            after[before.len() as int].1.admitted() == O::CalcVC::frame(seq![entry_of(samples[k])], None),
            after[before.len() as int].1.spec_resolution() == samples[k].2,
            after[before.len() as int].1.cells() == put_all(
                no_cells(),
                after[before.len() as int].1.admitted(),
                O::CalcVC::planar(),
                seq![entry_of(samples[k])],
            ),
        ensures
            Self::grows(given, samples, k + 1, after),
    {
        let tile = tile_at(samples[k].0);
        let last = before.len() as int;
        assert forall|i: int| 0 <= i < before.len() implies (#[trigger] before[i]).0 != tile by {
            if before[i].0 == tile {
                assert(has_tile(before, tile));
            }
        }
        assert forall|i: int| 0 <= i < given.len() implies ({
            &&& (#[trigger] after[i]).0 == given[i].0
            &&& after[i].1.admitted() == given[i].1.admitted()
            &&& after[i].1.spec_resolution() == given[i].1.spec_resolution()
            &&& after[i].1.cells() == put_all(
                given[i].1.cells(),
                given[i].1.admitted(),
                O::CalcVC::planar(),
                tile_entries(samples, given[i].0, k + 1),
            )
        }) by {
            assert(before[i].0 == given[i].0);
        }
        assert forall|i: int| given.len() <= i < after.len() implies ({
            &&& first_in(samples, (#[trigger] after[i]).0, k + 1) is Some
            &&& after[i].1.admitted() == O::CalcVC::frame(
                seq![entry_of(first_in(samples, after[i].0, k + 1).unwrap())],
                None,
            )
            &&& after[i].1.spec_resolution() == first_in(samples, after[i].0, k + 1).unwrap().2
            &&& after[i].1.cells() == put_all(
                no_cells(),
                after[i].1.admitted(),
                O::CalcVC::planar(),
                tile_entries(samples, after[i].0, k + 1),
            )
        }) by {
            if i < last {
                assert(first_in(samples, before[i].0, k) is Some);
                assert(before[i].0 != tile);
            } else {
                assert(tile_entries(samples, tile, k + 1) =~= seq![entry_of(samples[k])]);
            }
        }
        assert forall|j: int| 0 <= j < k + 1 implies #[trigger] has_tile(after, tile_at(samples[j].0)) by {
            if j < k {
                assert(has_tile(before, tile_at(samples[j].0)));
                let i = choose|i: int| 0 <= i < before.len() && (#[trigger] before[i]).0 == tile_at(samples[j].0);
                assert(after[i].0 == before[i].0);
            } else {
                assert(after[last].0 == tile);
            }
        }
    }
}

} // verus!
