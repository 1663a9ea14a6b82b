use vstd::prelude::*;
use crate::collection::{
    calc_bounds, extent_of, lemma_boxes_extent, lists, no_cells, put, put_all, Bounds, Entry, VoxelCollection,
};
use crate::element::{add_color_with_weight_check, Meters, Point3D, Voxel, ONE_METER};
use crate::vec3::names;

verus! {

/// A store over a plain list of entries. It admits every cell and costs
/// nothing to make or to list; finding a cell means going through the list.
pub struct PointCloud {
    pub field: Vec<Entry>,
    pub bounds: Option<Bounds>,
    pub offset: Point3D,
    pub resolution: Meters,
}

/// The place of a cell in the list.
pub open spec fn place_of(list: Seq<Entry>, point: Point3D) -> int {
    choose|a: int| 0 <= a < list.len() && (#[trigger] list[a]).0 == point
}

/// The cells of a list of entries in which no cell occurs twice.
pub open spec fn cells_of_list(list: Seq<Entry>) -> Map<Point3D, Voxel> {
    Map::new(|p: Point3D| names(list, p), |p: Point3D| list[place_of(list, p)].1)
}

/// No cell occurs twice and no voxel is vacant.
pub open spec fn tidy(list: Seq<Entry>) -> bool {
    &&& forall|a: int, b: int| 0 <= a < b < list.len() ==> (#[trigger] list[a]).0 != (#[trigger] list[b]).0
    &&& forall|a: int| 0 <= a < list.len() ==> (#[trigger] list[a]).1.weight >= 1
}

proof fn lemma_place(list: Seq<Entry>, a: int)
    requires
        tidy(list),
        0 <= a < list.len(),
    ensures
        names(list, list[a].0),
        place_of(list, list[a].0) == a,
        cells_of_list(list).contains_pair(list[a].0, list[a].1),
{
    let b = place_of(list, list[a].0);
    if a < b {
        assert(list[a].0 != list[b].0);
    } else if b < a {
        assert(list[b].0 != list[a].0);
    }
}

proof fn lemma_lists(list: Seq<Entry>)
    requires
        tidy(list),
    ensures
        lists(cells_of_list(list), list),
{
    assert forall|a: int| 0 <= a < list.len() implies cells_of_list(list).contains_pair(
        (#[trigger] list[a]).0,
        list[a].1,
    ) by {
        lemma_place(list, a);
    }
}

impl PointCloud {
    /// Where the list holds a cell, if it holds it.
    fn position(&self, point: &Point3D) -> (r: Option<usize>)
        ensures
            r is Some ==> r->Some_0 < self.field@.len() && self.field@[r->Some_0 as int].0 == *point,
            r is None ==> !names(self.field@, *point),
    {
        let mut i: usize = 0;
        while i < self.field.len()
            invariant
                i <= self.field@.len(),
                forall|a: int| 0 <= a < i ==> (#[trigger] self.field@[a]).0 != *point,
            decreases self.field@.len() - i,
        {
            let cell: Point3D = self.field[i].0;
            if cell.0 == point.0 && cell.1 == point.1 && cell.2 == point.2 {
                return Some(i);
            }
            i += 1;
        }
        None
    }
}

impl VoxelCollection for PointCloud {
    open spec fn wf(&self) -> bool {
        tidy(self.field@)
    }

    open spec fn cells(&self) -> Map<Point3D, Voxel> {
        cells_of_list(self.field@)
    }

    open spec fn admitted(&self) -> Set<Point3D> {
        Set::full()
    }

    open spec fn planar() -> bool {
        false
    }

    open spec fn spec_offset(&self) -> Point3D {
        self.offset
    }

    open spec fn spec_resolution(&self) -> Meters {
        self.resolution
    }

    open spec fn spec_has_bounds(&self) -> bool {
        self.bounds is Some
    }

    open spec fn spec_bounds(&self) -> Bounds {
        match self.bounds {
            Some(bounds) => bounds,
            None => extent_of(self.cells()),
        }
    }

    open spec fn frame(voxels: Seq<Entry>, bounds: Option<Bounds>) -> Set<Point3D> {
        Set::full()
    }

    open spec fn founded(bounds: Option<Bounds>) -> bool {
        bounds is Some
    }

    proof fn lemma_frame_admits(voxels: Seq<Entry>, at: int) {
    }

    proof fn lemma_wf(&self) {
        assert forall|p: Point3D| #[trigger] self.cells().dom().contains(p) implies self.cells()[p].weight >= 1 by {
            let a = place_of(self.field@, p);
            assert(self.field@[a].1.weight >= 1);
        }
    }

    fn new(voxels: Vec<Entry>, bounds: Option<Bounds>, offset: Point3D, resolution: Meters) -> (store: Self) {
        let mut store = PointCloud { field: Vec::new(), bounds: None, offset, resolution };
        proof {
            assert(store.cells() =~= no_cells());
        }
        let mut i: usize = 0;
        while i < voxels.len()
            invariant
                i <= voxels.len(),
                store.wf(),
                store.offset == offset,
                store.resolution == resolution,
                store.cells() == put_all(no_cells(), Set::full(), false, voxels@.take(i as int)),
            decreases voxels.len() - i,
        {
            proof {
                assert(voxels@.take(i + 1).drop_last() == voxels@.take(i as int));
            }
            let entry: Entry = voxels[i];
            store.insert_one(entry.0, entry.1);
            i += 1;
        }
        proof {
            assert(voxels@.take(voxels@.len() as int) == voxels@);
        }
        store.bounds = bounds;
        proof {
            assert(store.spec_has_bounds() == (bounds is Some));
        }
        store
    }

    fn has_bounds(&self) -> (r: bool) {
        self.bounds.is_some()
    }

    fn get_bounds(&mut self) -> (bounds: Bounds) {
        match self.bounds {
            Some(bounds) => {
                assert(self.spec_has_bounds());
                bounds
            },
            None => {
                let bounds = calc_bounds(&self.field);
                proof {
                    lemma_lists(self.field@);
                    lemma_boxes_extent(self.cells(), self.field@, bounds);
                }
                self.bounds = Some(bounds);
                proof {
                    assert(self.spec_has_bounds());
                }
                bounds
            },
        }
    }

    fn get_resolution(&self) -> (r: Meters) {
        self.resolution
    }

    fn get_offset(&self) -> (r: Point3D) {
        self.offset
    }

    fn set_offset(&mut self, offset: Point3D) {
        self.offset = offset;
        assert(self.spec_has_bounds() == old(self).spec_has_bounds());
    }

    fn to_vec(&self) -> (list: Vec<Entry>) {
        let mut out: Vec<Entry> = Vec::new();
        let mut i: usize = 0;
        while i < self.field.len()
            invariant
                i <= self.field@.len(),
                out@ == self.field@.take(i as int),
            decreases self.field@.len() - i,
        {
            out.push(self.field[i]);
            proof {
                assert(self.field@.take(i + 1) == self.field@.take(i as int).push(self.field@[i as int]));
            }
            i += 1;
        }
        proof {
            assert(self.field@.take(self.field@.len() as int) == self.field@);
            lemma_lists(self.field@);
        }
        out
    }

    fn into_vec(self) -> (list: Vec<Entry>) {
        proof {
            lemma_lists(self.field@);
        }
        self.field
    }

    fn insert_one(&mut self, point: Point3D, voxel: Voxel)
        ensures
            voxel.weight != 0 ==> !final(self).spec_has_bounds(),
            voxel.weight == 0 ==> final(self).bounds == old(self).bounds,
    {
        if voxel.weight == 0 {
            return ;
        }
        let ghost before = self.field@;
        match self.position(&point) {
            Some(i) => {
                let mut current: Voxel = self.field[i].1;
                add_color_with_weight_check(&mut current, voxel);
                self.field[i] = (point, current);
                proof {
                    let after = self.field@;
                    assert(tidy(after)) by {
                        assert forall|a: int, b: int| 0 <= a < b < after.len() implies (#[trigger] after[a]).0 != (
                        #[trigger] after[b]).0 by {
                            assert(before[a].0 != before[b].0);
                        }
                        assert forall|a: int| 0 <= a < after.len() implies (#[trigger] after[a]).1.weight >= 1 by {
                            assert(before[a].1.weight >= 1);
                        }
                    }
                    lemma_place(before, i as int);
                    assert forall|q: Point3D| names(after, q) == names(before, q) by {
                        if names(before, q) {
                            let a = place_of(before, q);
                            assert(after[a].0 == q);
                        }
                        if names(after, q) {
                            let a = place_of(after, q);
                            assert(before[a].0 == q);
                        }
                    }
                    assert forall|q: Point3D| names(after, q) implies cells_of_list(after)[q] == put(
                        cells_of_list(before),
                        Set::full(),
                        false,
                        point,
                        voxel,
                    )[q] by {
                        let a = place_of(after, q);
                        lemma_place(after, a);
                        lemma_place(before, a);
                    }
                    assert(self.cells() =~= put(old(self).cells(), Set::full(), false, point, voxel));
                }
            },
            None => {
                self.field.push((point, voxel));
                proof {
                    let after = self.field@;
                    assert(tidy(after)) by {
                        assert forall|a: int, b: int| 0 <= a < b < after.len() implies (#[trigger] after[a]).0 != (
                        #[trigger] after[b]).0 by {
                            if b == before.len() {
                                assert(before[a].0 != point);
                            } else {
                                assert(before[a].0 != before[b].0);
                            }
                        }
                        assert forall|a: int| 0 <= a < after.len() implies (#[trigger] after[a]).1.weight >= 1 by {
                            if a < before.len() {
                                assert(before[a].1.weight >= 1);
                            }
                        }
                    }
                    assert forall|q: Point3D| names(after, q) == (names(before, q) || q == point) by {
                        if names(before, q) {
                            let a = place_of(before, q);
                            assert(after[a].0 == q);
                        }
                        if q == point {
                            assert(after[before.len() as int].0 == q);
                        }
                        if names(after, q) {
                            let a = place_of(after, q);
                            if a < before.len() {
                                assert(before[a].0 == q);
                            }
                        }
                    }
                    assert forall|q: Point3D| names(after, q) implies cells_of_list(after)[q] == put(
                        cells_of_list(before),
                        Set::full(),
                        false,
                        point,
                        voxel,
                    )[q] by {
                        let a = place_of(after, q);
                        lemma_place(after, a);
                        if a < before.len() {
                            assert(before[a] == after[a]);
                            lemma_place(before, a);
                        }
                    }
                    assert(self.cells() =~= put(old(self).cells(), Set::full(), false, point, voxel));
                }
            },
        }
        self.bounds = None;
        proof {
            assert(!self.spec_has_bounds());
        }
    }

    fn has(&self, point: &Point3D) -> (r: bool) {
        match self.position(point) {
            Some(i) => {
                proof {
                    assert(names(self.field@, *point));
                }
                true
            },
            None => false,
        }
    }
}

impl Default for PointCloud {
    /// The empty store, with no offset and cells of one metre.
    fn default() -> (store: Self)
        ensures
            store.wf(),
            store.cells() == no_cells(),
            !store.spec_has_bounds(),
            store.spec_offset() == (0i32, 0i32, 0i32),
            store.spec_resolution() == ONE_METER,
    {
        let store = PointCloud { field: Vec::new(), bounds: None, offset: (0, 0, 0), resolution: ONE_METER };
        proof {
            assert(store.cells() =~= no_cells());
        }
        store
    }
}

} // verus!
