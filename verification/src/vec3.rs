use vstd::prelude::*;
use crate::collection::{
    box_of, calc_bounds, grid_cells, in_box, indexable, lemma_box_exists, no_cells, put, put_all, side,
    Bounds, Entry, VoxelCollection,
};
use crate::element::{add_color_with_weight_check, Meters, Point3D, Voxel, ONE_METER};

verus! {

/// A store over a grid of voxels, one for each cell of a box that is fixed when
/// the store is made. Cells outside the box are not admitted.
pub struct Vec3VoxelCollection {
    pub field: Vec<Vec<Vec<Voxel>>>,
    pub bounds: Bounds,
    pub offset: Point3D,
    pub resolution: Meters,
}

/// How many cells a box has on one axis, if a list can have so many items.
pub fn side_of(low: i32, high: i32) -> (r: Option<usize>)
    ensures
        r is Some <==> side(low, high) <= usize::MAX,
        r is Some ==> r->Some_0 == side(low, high),
{
    if high < low {
        Some(0)
    } else {
        let length: u64 = (high as i64 - low as i64 + 1) as u64;
        if length > usize::MAX as u64 {
            None
        } else {
            Some(length as usize)
        }
    }
}

/// Whether a grid has the given number of voxels on each axis.
pub open spec fn shaped(field: Seq<Vec<Vec<Voxel>>>, sx: int, sy: int, sz: int) -> bool {
    &&& field.len() == sx
    &&& forall|x: int| 0 <= x < sx ==> (#[trigger] field[x])@.len() == sy
    &&& forall|x: int, y: int| 0 <= x < sx && 0 <= y < sy ==> (#[trigger] field[x]@[y])@.len() == sz
}

/// A grid of vacant voxels.
fn blank(sx: usize, sy: usize, sz: usize) -> (field: Vec<Vec<Vec<Voxel>>>)
    ensures
        shaped(field@, sx as int, sy as int, sz as int),
        forall|x: int, y: int, z: int|
            0 <= x < sx && 0 <= y < sy && 0 <= z < sz ==> (#[trigger] field@[x]@[y]@[z]).weight == 0,
{
    let mut field: Vec<Vec<Vec<Voxel>>> = Vec::new();
    let mut x: usize = 0;
    while x < sx
        invariant
            x <= sx,
            shaped(field@, x as int, sy as int, sz as int),
            forall|a: int, b: int, c: int|
                0 <= a < x && 0 <= b < sy && 0 <= c < sz ==> (#[trigger] field@[a]@[b]@[c]).weight == 0,
        decreases sx - x,
    {
        let mut plane: Vec<Vec<Voxel>> = Vec::new();
        let mut y: usize = 0;
        while y < sy
            invariant
                y <= sy,
                plane@.len() == y,
                forall|b: int| 0 <= b < y ==> (#[trigger] plane@[b])@.len() == sz,
                forall|b: int, c: int| 0 <= b < y && 0 <= c < sz ==> (#[trigger] plane@[b]@[c]).weight == 0,
            decreases sy - y,
        {
            let mut row: Vec<Voxel> = Vec::new();
            let mut z: usize = 0;
            while z < sz
                invariant
                    z <= sz,
                    row@.len() == z,
                    forall|c: int| 0 <= c < z ==> (#[trigger] row@[c]).weight == 0,
                decreases sz - z,
            {
                row.push(Voxel::default());
                z += 1;
            }
            plane.push(row);
            y += 1;
        }
        field.push(plane);
        x += 1;
    }
    field
}

impl Vec3VoxelCollection {
    /// The voxel that the grid holds for a cell of the box.
    pub open spec fn at(&self, point: Point3D) -> Voxel {
        self.field@[point.0 - self.bounds.0.0]@[point.1 - self.bounds.0.1]@[point.2 - self.bounds.0.2]
    }

    /// Where the grid holds a cell, if it admits the cell.
    fn slot(&self, point: &Point3D) -> (r: Option<(usize, usize, usize)>)
        requires
            self.wf(),
        ensures
            r is Some <==> self.admitted().contains(*point),
            r is Some ==> r->Some_0.0 == point.0 - self.bounds.0.0 && r->Some_0.1 == point.1 - self.bounds.0.1
                && r->Some_0.2 == point.2 - self.bounds.0.2,
    {
        let (low, high) = self.bounds;
        if point.0 < low.0 || point.0 > high.0 || point.1 < low.1 || point.1 > high.1 || point.2 < low.2 || point.2
            > high.2 {
            return None;
        }
        if self.field.len() == 0 {
            return None;
        }
        let x: usize = (point.0 as i64 - low.0 as i64) as usize;
        let y: usize = (point.1 as i64 - low.1 as i64) as usize;
        let z: usize = (point.2 as i64 - low.2 as i64) as usize;
        Some((x, y, z))
    }
}

/// Whether, going through the grid plane by plane and row by row, a cell comes
/// before the place `(i, j, k)`.
pub open spec fn passed(point: Point3D, low: Point3D, i: int, j: int, k: int) -> bool {
    let x = point.0 - low.0;
    let y = point.1 - low.1;
    let z = point.2 - low.2;
    x < i || (x == i && (y < j || (y == j && z < k)))
}

/// Whether a cell is among the entries.
pub open spec fn names(list: Seq<Entry>, point: Point3D) -> bool {
    exists|a: int| 0 <= a < list.len() && (#[trigger] list[a]).0 == point
}

/// That `list` names every cell that was passed exactly once, with what it
/// holds, and no other.
pub open spec fn lists_passed(
    cells: Map<Point3D, Voxel>,
    list: Seq<Entry>,
    low: Point3D,
    i: int,
    j: int,
    k: int,
) -> bool {
    &&& forall|a: int, b: int| 0 <= a < b < list.len() ==> (#[trigger] list[a]).0 != (#[trigger] list[b]).0
    &&& forall|a: int|
        0 <= a < list.len() ==> cells.contains_pair((#[trigger] list[a]).0, list[a].1) && passed(
            list[a].0,
            low,
            i,
            j,
            k,
        )
    &&& forall|p: Point3D| #[trigger] cells.dom().contains(p) && passed(p, low, i, j, k) ==> names(list, p)
}

impl VoxelCollection for Vec3VoxelCollection {
    open spec fn wf(&self) -> bool {
        if indexable(self.bounds) {
            shaped(
                self.field@,
                side(self.bounds.0.0, self.bounds.1.0),
                side(self.bounds.0.1, self.bounds.1.1),
                side(self.bounds.0.2, self.bounds.1.2),
            ) && (self.field@.len() == 0 ==> forall|p: Point3D| !in_box(self.bounds, p))
        } else {
            self.field@.len() == 0
        }
    }

    open spec fn cells(&self) -> Map<Point3D, Voxel> {
        Map::new(|p: Point3D| grid_cells(self.bounds).contains(p) && self.at(p).weight != 0, |p: Point3D| self.at(p))
    }

    open spec fn admitted(&self) -> Set<Point3D> {
        grid_cells(self.bounds)
    }

    open spec fn planar() -> bool {
        false
    }

    open spec fn spec_offset(&self) -> Point3D {
        self.offset
    }

    open spec fn spec_resolution(&self) -> Meters {
        self.resolution
    }

    open spec fn spec_has_bounds(&self) -> bool {
        true
    }

    open spec fn spec_bounds(&self) -> Bounds {
        self.bounds
    }

    open spec fn frame(voxels: Seq<Entry>, bounds: Option<Bounds>) -> Set<Point3D> {
        match bounds {
            Some(given) => grid_cells(given),
            None => grid_cells(box_of(voxels)),
        }
    }

    open spec fn founded(bounds: Option<Bounds>) -> bool {
        true
    }

    proof fn lemma_frame_admits(voxels: Seq<Entry>, at: int) {
        lemma_box_exists(voxels);
    }

    proof fn lemma_wf(&self) {
    }

    fn new(voxels: Vec<Entry>, bounds: Option<Bounds>, offset: Point3D, resolution: Meters) -> (store: Self)
        ensures
            bounds is None ==> store.spec_bounds() == box_of(voxels@),
    {
        let (low, high) = match bounds {
            Some(given) => given,
            None => calc_bounds(&voxels),
        };
        let field = match (side_of(low.0, high.0), side_of(low.1, high.1), side_of(low.2, high.2)) {
            (Some(sx), Some(sy), Some(sz)) => blank(sx, sy, sz),
            _ => Vec::new(),
        };
        let mut store = Vec3VoxelCollection { field, bounds: (low, high), offset, resolution };
        proof {
            assert(store.cells() =~= no_cells());
        }
        let ghost admitted = store.admitted();
        let mut i: usize = 0;
        while i < voxels.len()
            invariant
                i <= voxels.len(),
                store.wf(),
                store.bounds == (low, high),
                store.offset == offset,
                store.resolution == resolution,
                admitted == store.admitted(),
                store.cells() == put_all(no_cells(), admitted, false, voxels@.take(i as int)),
            decreases voxels.len() - i,
        {
            proof {
                assert(voxels@.take(i + 1).drop_last() == voxels@.take(i as int));
            }
            let entry: Entry = voxels[i];
            store.insert_one(entry.0, entry.1);
            i += 1;
        }
        proof {
            assert(voxels@.take(voxels@.len() as int) == voxels@);
        }
        store
    }

    fn has_bounds(&self) -> (r: bool) {
        true
    }

    fn get_bounds(&mut self) -> (bounds: Bounds) {
        assert(self.spec_has_bounds());
        self.bounds
    }

    fn get_resolution(&self) -> (r: Meters) {
        self.resolution
    }

    fn get_offset(&self) -> (r: Point3D) {
        self.offset
    }

    fn set_offset(&mut self, offset: Point3D) {
        self.offset = offset;
        proof {
            assert(self.cells() =~= old(self).cells());
            assert(self.spec_has_bounds() == old(self).spec_has_bounds());
        }
    }

    fn to_vec(&self) -> (list: Vec<Entry>) {
        let low = self.bounds.0;
        let mut out: Vec<Entry> = Vec::new();
        let ghost cells = self.cells();
        let mut x: usize = 0;
        while x < self.field.len()
            invariant
                x <= self.field@.len(),
                self.wf(),
                low == self.bounds.0,
                cells == self.cells(),
                lists_passed(cells, out@, low, x as int, 0, 0),
            decreases self.field@.len() - x,
        {
            let mut y: usize = 0;
            while y < self.field[x].len()
                invariant
                    x < self.field@.len(),
                    y <= self.field@[x as int]@.len(),
                    self.wf(),
                    low == self.bounds.0,
                    cells == self.cells(),
                    lists_passed(cells, out@, low, x as int, y as int, 0),
                decreases self.field@[x as int]@.len() - y,
            {
                let mut z: usize = 0;
                while z < self.field[x][y].len()
                    invariant
                        x < self.field@.len(),
                        y < self.field@[x as int]@.len(),
                        z <= self.field@[x as int]@[y as int]@.len(),
                        self.wf(),
                        low == self.bounds.0,
                        cells == self.cells(),
                        lists_passed(cells, out@, low, x as int, y as int, z as int),
                    decreases self.field@[x as int]@[y as int]@.len() - z,
                {
                    let voxel: Voxel = self.field[x][y][z];
                    let point: Point3D = (
                        (low.0 as i64 + x as i64) as i32,
                        (low.1 as i64 + y as i64) as i32,
                        (low.2 as i64 + z as i64) as i32,
                    );
                    let ghost before = out@;
                    if voxel.weight != 0 {
                        out.push((point, voxel));
                    }
                    proof {
                        assert(self.at(point) == voxel);
                        assert forall|p: Point3D| #[trigger]
                            cells.dom().contains(p) && passed(p, low, x as int, y as int, z + 1) implies names(
                            out@,
                            p,
                        ) by {
                            if passed(p, low, x as int, y as int, z as int) {
                                assert(names(before, p));
                                let a = choose|a: int| 0 <= a < before.len() && (#[trigger] before[a]).0 == p;
                                assert(out@[a].0 == p);
                            } else {
                                assert(p == point);
                                assert(out@[before.len() as int].0 == p);
                            }
                        }
                        assert forall|a: int, b: int| 0 <= a < b < out@.len() implies (#[trigger] out@[a]).0 != (
                        #[trigger] out@[b]).0 by {
                            if b == before.len() {
                                assert(passed(before[a].0, low, x as int, y as int, z as int));
                            } else {
                                assert(before[a].0 != before[b].0);
                            }
                        }
                        assert forall|a: int| 0 <= a < out@.len() implies cells.contains_pair(
                            (#[trigger] out@[a]).0,
                            out@[a].1,
                        ) && passed(out@[a].0, low, x as int, y as int, z + 1) by {
                            if a < before.len() {
                                assert(passed(before[a].0, low, x as int, y as int, z as int));
                            }
                        }
                    }
                    z += 1;
                }
                proof {
                    assert forall|p: Point3D| #[trigger]
                        cells.dom().contains(p) && passed(p, low, x as int, y + 1, 0) implies names(out@, p) by {
                        assert(passed(p, low, x as int, y as int, z as int));
                    }
                    assert forall|a: int| 0 <= a < out@.len() implies passed(
                        (#[trigger] out@[a]).0,
                        low,
                        x as int,
                        y + 1,
                        0,
                    ) by {
                        assert(cells.dom().contains(out@[a].0));
                        assert(passed(out@[a].0, low, x as int, y as int, z as int));
                    }
                }
                y += 1;
            }
            proof {
                assert forall|p: Point3D| #[trigger] cells.dom().contains(p) && passed(p, low, x + 1, 0, 0) implies names(
                    out@,
                    p,
                ) by {
                    assert(passed(p, low, x as int, y as int, 0));
                }
                assert forall|a: int| 0 <= a < out@.len() implies passed((#[trigger] out@[a]).0, low, x + 1, 0, 0) by {
                    assert(cells.dom().contains(out@[a].0));
                    assert(passed(out@[a].0, low, x as int, y as int, 0));
                }
            }
            x += 1;
        }
        proof {
            assert forall|p: Point3D| #[trigger] cells.dom().contains(p) implies exists|a: int|
                0 <= a < out@.len() && (#[trigger] out@[a]).0 == p by {
                assert(passed(p, low, x as int, 0, 0));
                assert(names(out@, p));
            }
        }
        out
    }

    fn into_vec(self) -> (list: Vec<Entry>) {
        self.to_vec()
    }

    fn insert_one(&mut self, point: Point3D, voxel: Voxel)
        ensures
            final(self).bounds == old(self).bounds,
    {
        if voxel.weight == 0 {
            return ;
        }
        match self.slot(&point) {
            Some((x, y, z)) => {
                let current: Voxel = self.field[x][y][z];
                let next = if current.weight == 0 {
                    voxel
                } else {
                    let mut current = current;
                    add_color_with_weight_check(&mut current, voxel);
                    current
                };
                self.field[x][y][z] = next;
                proof {
                    assert(self.at(point) == next);
                    assert forall|q: Point3D| q != point && grid_cells(self.bounds).contains(q) implies self.at(q)
                        == old(self).at(q) by {}
                    assert(self.cells() =~= put(old(self).cells(), old(self).admitted(), false, point, voxel));
                }
            },
            None => {},
        }
    }

    fn has(&self, point: &Point3D) -> (r: bool) {
        match self.slot(point) {
            Some((x, y, z)) => self.field[x][y][z].weight != 0,
            None => false,
        }
    }
}

impl Default for Vec3VoxelCollection {
    /// The store over the cell at the origin alone, vacant, with no offset and
    /// cells of one metre.
    fn default() -> (store: Self)
        ensures
            store.wf(),
            store.cells() == no_cells(),
            store.spec_bounds() == ((0i32, 0i32, 0i32), (0i32, 0i32, 0i32)),
            store.spec_offset() == (0i32, 0i32, 0i32),
            store.spec_resolution() == ONE_METER,
    {
        Self::new(Vec::new(), Some(((0, 0, 0), (0, 0, 0))), (0, 0, 0), ONE_METER)
    }
}

} // verus!
