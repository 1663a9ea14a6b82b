use vstd::prelude::*;
use crate::collection::{
    calc_bounds, extent_of, lemma_boxes_extent, no_cells, put, put_all, Bounds, Entry, VoxelCollection,
};
use crate::element::{add_color_with_weight_check, Meters, Point2D, Point3D, Voxel, ONE_METER};
use dashmap::DashMap;
use fxhash::FxBuildHasher;

verus! {

/// What a column holds: the height of its voxel, and the voxel.
pub type Column = (i32, Voxel);

/// The columns a sharded map holds, by planar cell.
pub uninterp spec fn columns_of(map: DashMap<Point2D, Column, FxBuildHasher>) -> Map<Point2D, Column>;

/// No columns.
pub open spec fn no_columns() -> Map<Point2D, Column> {
    Map::empty()
}

/// That `list` names every column of `columns` exactly once, with what it holds.
pub open spec fn lists_columns(columns: Map<Point2D, Column>, list: Seq<(Point2D, Column)>) -> bool {
    &&& forall|i: int, j: int| 0 <= i < j < list.len() ==> (#[trigger] list[i]).0 != (#[trigger] list[j]).0
    &&& forall|i: int| 0 <= i < list.len() ==> columns.contains_pair((#[trigger] list[i]).0, list[i].1)
    &&& forall|c: Point2D| #[trigger]
        columns.dom().contains(c) ==> exists|i: int| 0 <= i < list.len() && (#[trigger] list[i]).0 == c
}

/// `DashMap::with_hasher`: a map that holds nothing.
#[verifier::external_body]
fn columns_new() -> (map: DashMap<Point2D, Column, FxBuildHasher>)
    ensures
        columns_of(map) == no_columns(),
{
    DashMap::with_hasher(FxBuildHasher::default())
}

/// `DashMap::get`: what a column holds, if the map holds the column.
#[verifier::external_body]
fn columns_get(map: &DashMap<Point2D, Column, FxBuildHasher>, column: &Point2D) -> (r: Option<Column>)
    ensures
        r == (if columns_of(*map).dom().contains(*column) {
            Some(columns_of(*map)[*column])
        } else {
            None
        }),
{
    map.get(column).map(|entry| *entry.value())
}

/// `DashMap::insert`: sets what a column holds, in place of what it held.
#[verifier::external_body]
fn columns_insert(map: &mut DashMap<Point2D, Column, FxBuildHasher>, column: Point2D, held: Column)
    ensures
        columns_of(*final(map)) == columns_of(*old(map)).insert(column, held),
{
    map.insert(column, held);
}

/// `DashMap::iter`: every column of the map once, with what it holds, in an
/// order that the map does not promise.
#[verifier::external_body]
fn columns_to_vec(map: &DashMap<Point2D, Column, FxBuildHasher>) -> (list: Vec<(Point2D, Column)>)
    ensures
        lists_columns(columns_of(*map), list@),
{
    map.iter().map(|entry| (*entry.key(), *entry.value())).collect()
}

/// The cells of columns: for each column the cell at its height.
pub open spec fn cells_of_columns(columns: Map<Point2D, Column>) -> Map<Point3D, Voxel> {
    Map::new(
        |p: Point3D| columns.dom().contains((p.0, p.1)) && columns[(p.0, p.1)].0 == p.2,
        |p: Point3D| columns[(p.0, p.1)].1,
    )
}

/// A store over a sharded hash map keyed by planar cell. It admits every cell
/// and keeps one height per column; a voxel offered at another height takes
/// the place of the one the column held.
pub struct HMap2DVoxelCollection {
    pub field: DashMap<Point2D, Column, FxBuildHasher>,
    pub bounds: Option<Bounds>,
    pub offset: Point3D,
    pub resolution: Meters,
}

impl VoxelCollection for HMap2DVoxelCollection {
    open spec fn wf(&self) -> bool {
        forall|c: Point2D| #[trigger] columns_of(self.field).dom().contains(c) ==> columns_of(self.field)[c].1.weight >= 1
    }

    open spec fn cells(&self) -> Map<Point3D, Voxel> {
        cells_of_columns(columns_of(self.field))
    }

    open spec fn admitted(&self) -> Set<Point3D> {
        Set::full()
    }

    open spec fn planar() -> bool {
        true
    }

    open spec fn spec_offset(&self) -> Point3D {
        self.offset
    }

    open spec fn spec_resolution(&self) -> Meters {
        self.resolution
    }

    open spec fn spec_has_bounds(&self) -> bool {
        self.bounds is Some
    }

    open spec fn spec_bounds(&self) -> Bounds {
        match self.bounds {
            Some(bounds) => bounds,
            None => extent_of(self.cells()),
        }
    }

    open spec fn frame(voxels: Seq<Entry>, bounds: Option<Bounds>) -> Set<Point3D> {
        Set::full()
    }

    open spec fn founded(bounds: Option<Bounds>) -> bool {
        bounds is Some
    }

    proof fn lemma_frame_admits(voxels: Seq<Entry>, at: int) {
    }

    proof fn lemma_wf(&self) {
        assert forall|p: Point3D| #[trigger] self.cells().dom().contains(p) implies self.cells()[p].weight >= 1 by {
            assert(columns_of(self.field).dom().contains((p.0, p.1)));
        }
    }

    fn new(voxels: Vec<Entry>, bounds: Option<Bounds>, offset: Point3D, resolution: Meters) -> (store: Self) {
        let mut store = HMap2DVoxelCollection { field: columns_new(), bounds: None, offset, resolution };
        proof {
            assert(store.cells() =~= no_cells());
        }
        let mut i: usize = 0;
        while i < voxels.len()
            invariant
                i <= voxels.len(),
                store.wf(),
                store.offset == offset,
                store.resolution == resolution,
                store.cells() == put_all(no_cells(), Set::full(), true, voxels@.take(i as int)),
            decreases voxels.len() - i,
        {
            proof {
                assert(voxels@.take(i + 1).drop_last() == voxels@.take(i as int));
            }
            let entry: Entry = voxels[i];
            store.insert_one(entry.0, entry.1);
            i += 1;
        }
        proof {
            assert(voxels@.take(voxels@.len() as int) == voxels@);
        }
        store.bounds = bounds;
        proof {
            assert(store.spec_has_bounds() == (bounds is Some));
        }
        store
    }

    fn has_bounds(&self) -> (r: bool) {
        self.bounds.is_some()
    }

    fn get_bounds(&mut self) -> (bounds: Bounds) {
        match self.bounds {
            Some(bounds) => {
                assert(self.spec_has_bounds());
                bounds
            },
            None => {
                let entries = self.to_vec();
                let bounds = calc_bounds(&entries);
                proof {
                    lemma_boxes_extent(self.cells(), entries@, bounds);
                }
                self.bounds = Some(bounds);
                proof {
                    assert(self.spec_has_bounds());
                }
                bounds
            },
        }
    }

    fn get_resolution(&self) -> (r: Meters) {
        self.resolution
    }

    fn get_offset(&self) -> (r: Point3D) {
        self.offset
    }

    fn set_offset(&mut self, offset: Point3D) {
        self.offset = offset;
        assert(self.spec_has_bounds() == old(self).spec_has_bounds());
    }

    fn to_vec(&self) -> (list: Vec<Entry>) {
        let columns = columns_to_vec(&self.field);
        let ghost held = columns_of(self.field);
        let mut out: Vec<Entry> = Vec::new();
        let mut i: usize = 0;
        while i < columns.len()
            invariant
                i <= columns@.len(),
                out@.len() == i,
                forall|j: int|
                    0 <= j < i ==> #[trigger] out@[j] == ((columns@[j].0.0, columns@[j].0.1, columns@[j].1.0), columns@[j].1.1),
            decreases columns@.len() - i,
        {
            let column: (Point2D, Column) = columns[i];
            out.push(((column.0.0, column.0.1, column.1.0), column.1.1));
            i += 1;
        }
        proof {
            let cells = self.cells();
            assert forall|a: int, b: int| 0 <= a < b < out@.len() implies (#[trigger] out@[a]).0 != (#[trigger] out@[b]).0 by {
                assert(columns@[a].0 != columns@[b].0);
            }
            assert forall|a: int| 0 <= a < out@.len() implies cells.contains_pair((#[trigger] out@[a]).0, out@[a].1) by {
                assert(held.contains_pair(columns@[a].0, columns@[a].1));
            }
            assert forall|p: Point3D| #[trigger] cells.dom().contains(p) implies exists|a: int|
                0 <= a < out@.len() && (#[trigger] out@[a]).0 == p by {
                assert(held.dom().contains((p.0, p.1)));
                let a = choose|a: int| 0 <= a < columns@.len() && (#[trigger] columns@[a]).0 == (p.0, p.1);
                assert(held.contains_pair(columns@[a].0, columns@[a].1));
                assert(out@[a].0 == p);
            }
        }
        out
    }

    fn into_vec(self) -> (list: Vec<Entry>) {
        self.to_vec()
    }

    fn insert_one(&mut self, point: Point3D, voxel: Voxel)
        ensures
            voxel.weight != 0 ==> !final(self).spec_has_bounds(),
            voxel.weight == 0 ==> final(self).bounds == old(self).bounds,
    {
        if voxel.weight == 0 {
            return ;
        }
        let column: Point2D = (point.0, point.1);
        let next = match columns_get(&self.field, &column) {
            Some(held) => {
                if held.0 != point.2 {
                    voxel
                } else {
                    let mut current = held.1;
                    add_color_with_weight_check(&mut current, voxel);
                    current
                }
            },
            None => voxel,
        };
        columns_insert(&mut self.field, column, (point.2, next));
        self.bounds = None;
        proof {
            assert(self.cells() =~= put(old(self).cells(), Set::full(), true, point, voxel));
            assert(!self.spec_has_bounds());
        }
    }

    fn has(&self, point: &Point3D) -> (r: bool) {
        match columns_get(&self.field, &(point.0, point.1)) {
            Some(held) => held.0 == point.2,
            None => false,
        }
    }
}

impl Default for HMap2DVoxelCollection {
    /// The empty store, with no offset and cells of one metre.
    fn default() -> (store: Self)
        ensures
            store.wf(),
            store.cells() == no_cells(),
            !store.spec_has_bounds(),
            store.spec_offset() == (0i32, 0i32, 0i32),
            store.spec_resolution() == ONE_METER,
    {
        let store = HMap2DVoxelCollection { field: columns_new(), bounds: None, offset: (0, 0, 0), resolution: ONE_METER };
        proof {
            assert(store.cells() =~= no_cells());
        }
        store
    }
}

} // verus!
