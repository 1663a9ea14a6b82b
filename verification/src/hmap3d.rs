use vstd::prelude::*;
use crate::collection::{
    calc_bounds, extent_of, lemma_boxes_extent, lists, no_cells, occupied, put_all, Bounds, Entry, VoxelCollection,
};
use crate::element::{add_color_with_weight_check, Meters, Point3D, Voxel, ONE_METER};
use dashmap::DashMap;
use fxhash::FxBuildHasher;

verus! {

/// The voxels a sharded map holds, by cell.
pub uninterp spec fn cells_of(map: DashMap<Point3D, Voxel, FxBuildHasher>) -> Map<Point3D, Voxel>;

/// `DashMap::with_hasher`: a map that holds nothing.
#[verifier::external_body]
fn cells_new() -> (map: DashMap<Point3D, Voxel, FxBuildHasher>)
    ensures
        cells_of(map) == no_cells(),
{
    DashMap::with_hasher(FxBuildHasher::default())
}

/// `DashMap::get`: the voxel of a cell, if the map holds the cell.
#[verifier::external_body]
fn cells_get(map: &DashMap<Point3D, Voxel, FxBuildHasher>, point: &Point3D) -> (r: Option<Voxel>)
    ensures
        r == (if cells_of(*map).dom().contains(*point) {
            Some(cells_of(*map)[*point])
        } else {
            None
        }),
{
    map.get(point).map(|entry| *entry.value())
}

/// `DashMap::insert`: sets the voxel of a cell, in place of the one it had.
#[verifier::external_body]
fn cells_insert(map: &mut DashMap<Point3D, Voxel, FxBuildHasher>, point: Point3D, voxel: Voxel)
    ensures
        cells_of(*final(map)) == cells_of(*old(map)).insert(point, voxel),
{
    map.insert(point, voxel);
}

/// `DashMap::iter`: every cell of the map once, with its voxel, in an order that
/// the map does not promise.
#[verifier::external_body]
fn cells_to_vec(map: &DashMap<Point3D, Voxel, FxBuildHasher>) -> (list: Vec<Entry>)
    ensures
        lists(cells_of(*map), list@),
{
    map.iter().map(|entry| (*entry.key(), *entry.value())).collect()
}

/// A store over a sharded hash map keyed by cell. It admits every cell.
pub struct HMap3DVoxelCollection {
    pub field: DashMap<Point3D, Voxel, FxBuildHasher>,
    pub bounds: Option<Bounds>,
    pub offset: Point3D,
    pub resolution: Meters,
}

impl VoxelCollection for HMap3DVoxelCollection {
    open spec fn wf(&self) -> bool {
        occupied(cells_of(self.field))
    }

    open spec fn cells(&self) -> Map<Point3D, Voxel> {
        cells_of(self.field)
    }

    open spec fn admitted(&self) -> Set<Point3D> {
        Set::full()
    }

    open spec fn planar() -> bool {
        false
    }

    open spec fn spec_offset(&self) -> Point3D {
        self.offset
    }

    open spec fn spec_resolution(&self) -> Meters {
        self.resolution
    }

    open spec fn spec_has_bounds(&self) -> bool {
        self.bounds is Some
    }

    open spec fn spec_bounds(&self) -> Bounds {
        match self.bounds {
            Some(bounds) => bounds,
            None => extent_of(cells_of(self.field)),
        }
    }

    open spec fn frame(voxels: Seq<Entry>, bounds: Option<Bounds>) -> Set<Point3D> {
        Set::full()
    }

    open spec fn founded(bounds: Option<Bounds>) -> bool {
        bounds is Some
    }

    proof fn lemma_frame_admits(voxels: Seq<Entry>, at: int) {
    }

    proof fn lemma_wf(&self) {
    }

    fn new(voxels: Vec<Entry>, bounds: Option<Bounds>, offset: Point3D, resolution: Meters) -> (store: Self) {
        let mut store = HMap3DVoxelCollection { field: cells_new(), bounds: None, offset, resolution };
        let mut i: usize = 0;
        while i < voxels.len()
            invariant
                i <= voxels.len(),
                store.wf(),
                store.offset == offset,
                store.resolution == resolution,
                store.cells() == put_all(no_cells(), Set::full(), false, voxels@.take(i as int)),
            decreases voxels.len() - i,
        {
            proof {
                assert(voxels@.take(i + 1).drop_last() == voxels@.take(i as int));
            }
            let entry: Entry = voxels[i];
            store.insert_one(entry.0, entry.1);
            i += 1;
        }
        proof {
            assert(voxels@.take(voxels@.len() as int) == voxels@);
        }
        store.bounds = bounds;
        store
    }

    fn has_bounds(&self) -> (r: bool) {
        self.bounds.is_some()
    }

    fn get_bounds(&mut self) -> (bounds: Bounds) {
        match self.bounds {
            Some(bounds) => {
                assert(self.spec_has_bounds());
                bounds
            },
            None => {
                let entries = cells_to_vec(&self.field);
                let bounds = calc_bounds(&entries);
                proof {
                    lemma_boxes_extent(cells_of(self.field), entries@, bounds);
                }
                self.bounds = Some(bounds);
                bounds
            },
        }
    }

    fn get_resolution(&self) -> (r: Meters) {
        self.resolution
    }

    fn get_offset(&self) -> (r: Point3D) {
        self.offset
    }

    fn set_offset(&mut self, offset: Point3D) {
        self.offset = offset;
        assert(self.spec_has_bounds() == old(self).spec_has_bounds());
    }

    fn to_vec(&self) -> (list: Vec<Entry>) {
        cells_to_vec(&self.field)
    }

    fn into_vec(self) -> (list: Vec<Entry>) {
        cells_to_vec(&self.field)
    }

    fn insert_one(&mut self, point: Point3D, voxel: Voxel)
        ensures
            voxel.weight != 0 ==> !final(self).spec_has_bounds(),
            voxel.weight == 0 ==> final(self).bounds == old(self).bounds,
    {
        if voxel.weight == 0 {
            return ;
        }
        match cells_get(&self.field, &point) {
            Some(current) => {
                let mut current = current;
                add_color_with_weight_check(&mut current, voxel);
                cells_insert(&mut self.field, point, current);
            },
            None => {
                cells_insert(&mut self.field, point, voxel);
            },
        }
        self.bounds = None;
    }

    fn has(&self, point: &Point3D) -> (r: bool) {
        cells_get(&self.field, point).is_some()
    }
}

impl Default for HMap3DVoxelCollection {
    /// The empty store, with no offset and cells of one metre.
    fn default() -> (store: Self)
        ensures
            store.wf(),
            store.cells() == no_cells(),
            !store.spec_has_bounds(),
            store.spec_offset() == (0i32, 0i32, 0i32),
            store.spec_resolution() == ONE_METER,
    {
        HMap3DVoxelCollection { field: cells_new(), bounds: None, offset: (0, 0, 0), resolution: ONE_METER }
    }
}

} // verus!
