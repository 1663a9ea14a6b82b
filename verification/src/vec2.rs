use vstd::prelude::*;
use crate::collection::{
    box_of, calc_bounds, grid_columns, lemma_box_exists, no_cells, origin, put, put_all, same_column, side,
    Bounds, Entry, VoxelCollection,
};
use crate::element::{add_color_with_weight_check, Meters, Point2D, Point3D, Voxel, ONE_METER};
use crate::vec3::{names, side_of};

verus! {

/// A store over a grid of columns, one for each cell of a rectangle that is
/// fixed when the store is made. A column holds one voxel and the height at
/// which it lies; a voxel offered at another height takes its place.
pub struct Vec2VoxelCollection {
    pub field: Vec<Vec<(i32, Voxel)>>,
    pub bounds_xy: (Point2D, Point2D),
    pub bounds_z: Option<(i32, i32)>,
    pub offset: Point3D,
    pub resolution: Meters,
}

/// Whether a grid has the given number of columns on each axis.
pub open spec fn shaped(field: Seq<Vec<(i32, Voxel)>>, sx: int, sy: int) -> bool {
    &&& field.len() == sx
    &&& forall|x: int| 0 <= x < sx ==> (#[trigger] field[x])@.len() == sy
}

/// A grid of vacant columns.
fn blank(sx: usize, sy: usize) -> (field: Vec<Vec<(i32, Voxel)>>)
    ensures
        shaped(field@, sx as int, sy as int),
        forall|x: int, y: int| 0 <= x < sx && 0 <= y < sy ==> (#[trigger] field@[x]@[y]).1.weight == 0,
{
    let mut field: Vec<Vec<(i32, Voxel)>> = Vec::new();
    let mut x: usize = 0;
    while x < sx
        invariant
            x <= sx,
            shaped(field@, x as int, sy as int),
            forall|a: int, b: int| 0 <= a < x && 0 <= b < sy ==> (#[trigger] field@[a]@[b]).1.weight == 0,
        decreases sx - x,
    {
        let mut row: Vec<(i32, Voxel)> = Vec::new();
        let mut y: usize = 0;
        while y < sy
            invariant
                y <= sy,
                row@.len() == y,
                forall|b: int| 0 <= b < y ==> (#[trigger] row@[b]).1.weight == 0,
            decreases sy - y,
        {
            row.push((0, Voxel::default()));
            y += 1;
        }
        field.push(row);
        x += 1;
    }
    field
}

/// The box over a rectangle at height zero.
pub open spec fn flat_box(bounds_xy: (Point2D, Point2D)) -> Bounds {
    ((bounds_xy.0.0, bounds_xy.0.1, 0i32), (bounds_xy.1.0, bounds_xy.1.1, 0i32))
}

/// That `heights` is the least and the greatest height of the cells; of no
/// cells, zero and zero.
pub open spec fn is_height_range(cells: Map<Point3D, Voxel>, heights: (i32, i32)) -> bool {
    &&& (forall|p: Point3D| !cells.dom().contains(p)) ==> heights == (0i32, 0i32)
    &&& forall|p: Point3D| #[trigger] cells.dom().contains(p) ==> heights.0 <= p.2 <= heights.1
    &&& (exists|p: Point3D| cells.dom().contains(p)) ==> (exists|p: Point3D| #[trigger]
        cells.dom().contains(p) && p.2 == heights.0) && (exists|p: Point3D| #[trigger]
        cells.dom().contains(p) && p.2 == heights.1)
}

/// The least and the greatest height of the cells.
pub open spec fn height_range(cells: Map<Point3D, Voxel>) -> (i32, i32) {
    choose|heights: (i32, i32)| is_height_range(cells, heights)
}

/// The cells have one least and one greatest height.
pub proof fn lemma_height_range_unique(cells: Map<Point3D, Voxel>, a: (i32, i32), b: (i32, i32))
    requires
        is_height_range(cells, a),
        is_height_range(cells, b),
    ensures
        a == b,
{
    if exists|p: Point3D| cells.dom().contains(p) {
        let a0 = choose|p: Point3D| #[trigger] cells.dom().contains(p) && p.2 == a.0;
        let a1 = choose|p: Point3D| #[trigger] cells.dom().contains(p) && p.2 == a.1;
        let b0 = choose|p: Point3D| #[trigger] cells.dom().contains(p) && p.2 == b.0;
        let b1 = choose|p: Point3D| #[trigger] cells.dom().contains(p) && p.2 == b.1;
        assert(b.0 <= a0.2 && a.0 <= b0.2 && a1.2 <= b.1 && b1.2 <= a.1);
    }
}

/// Whether, going through the grid row by row, the column of a cell comes
/// before the place `(i, j)`.
pub open spec fn passed(point: Point3D, low: Point2D, i: int, j: int) -> bool {
    let x = point.0 - low.0;
    let y = point.1 - low.1;
    x < i || (x == i && y < j)
}

/// That `list` names every cell whose column was passed exactly once, with what
/// it holds, and no other; and that `heights` is the range of their heights,
/// if there is any such cell.
pub open spec fn lists_passed(cells: Map<Point3D, Voxel>, list: Seq<Entry>, low: Point2D, i: int, j: int) -> bool {
    &&& forall|a: int, b: int| 0 <= a < b < list.len() ==> (#[trigger] list[a]).0 != (#[trigger] list[b]).0
    &&& forall|a: int|
        0 <= a < list.len() ==> cells.contains_pair((#[trigger] list[a]).0, list[a].1) && passed(list[a].0, low, i, j)
    &&& forall|p: Point3D| #[trigger] cells.dom().contains(p) && passed(p, low, i, j) ==> names(list, p)
}

impl Vec2VoxelCollection {
    /// The box whose first two axes are those of the grid.
    pub open spec fn columns_box(&self) -> Bounds {
        flat_box(self.bounds_xy)
    }

    /// The height and the voxel that the grid holds for the column of a cell.
    pub open spec fn at(&self, point: Point3D) -> (i32, Voxel) {
        self.field@[point.0 - self.bounds_xy.0.0]@[point.1 - self.bounds_xy.0.1]
    }

    /// The rectangle of the grid.
    pub fn get_bounds_xy(&self) -> (r: (Point2D, Point2D))
        ensures
            r == self.bounds_xy,
    {
        self.bounds_xy
    }

    /// Where the grid holds the column of a cell, if it admits the cell.
    fn slot(&self, point: &Point3D) -> (r: Option<(usize, usize)>)
        requires
            self.wf(),
        ensures
            r is Some <==> self.admitted().contains(*point),
            r is Some ==> r->Some_0.0 == point.0 - self.bounds_xy.0.0 && r->Some_0.1 == point.1 - self.bounds_xy.0.1,
    {
        let (low, high) = self.bounds_xy;
        if point.0 < low.0 || point.0 > high.0 || point.1 < low.1 || point.1 > high.1 {
            return None;
        }
        if self.field.len() == 0 {
            return None;
        }
        let x: usize = (point.0 as i64 - low.0 as i64) as usize;
        let y: usize = (point.1 as i64 - low.1 as i64) as usize;
        Some((x, y))
    }

    /// The least and the greatest height among the cells.
    fn heights(&self) -> (r: (i32, i32))
        requires
            self.wf(),
        ensures
            r == height_range(self.cells()),
    {
        let entries = self.to_vec();
        let ghost cells = self.cells();
        if entries.len() == 0 {
            proof {
                assert forall|p: Point3D| !cells.dom().contains(p) by {
                    if cells.dom().contains(p) {
                        let a = choose|a: int| 0 <= a < entries@.len() && (#[trigger] entries@[a]).0 == p;
                    }
                }
                assert(is_height_range(cells, (0i32, 0i32)));
                lemma_height_range_unique(cells, height_range(cells), (0i32, 0i32));
            }
            return (0, 0);
        }
        let mut low: i32 = entries[0].0.2;
        let mut high: i32 = low;
        let ghost mut at_low: int = 0;
        let ghost mut at_high: int = 0;
        let mut i: usize = 1;
        while i < entries.len()
            invariant
                1 <= i <= entries@.len(),
                forall|j: int| 0 <= j < i ==> low <= (#[trigger] entries@[j]).0.2 <= high,
                0 <= at_low < i && entries@[at_low].0.2 == low,
                0 <= at_high < i && entries@[at_high].0.2 == high,
            decreases entries@.len() - i,
        {
            let height: i32 = entries[i].0.2;
            if height < low {
                low = height;
                proof {
                    at_low = i as int;
                }
            }
            if height > high {
                high = height;
                proof {
                    at_high = i as int;
                }
            }
            i += 1;
        }
        proof {
            assert(cells.dom().contains(entries@[at_low].0));
            assert(cells.dom().contains(entries@[at_high].0));
            assert forall|p: Point3D| #[trigger] cells.dom().contains(p) implies low <= p.2 <= high by {
                let a = choose|a: int| 0 <= a < entries@.len() && (#[trigger] entries@[a]).0 == p;
                assert(low <= entries@[a].0.2 <= high);
            }
            assert(is_height_range(cells, (low, high)));
            lemma_height_range_unique(cells, height_range(cells), (low, high));
        }
        (low, high)
    }
}

impl VoxelCollection for Vec2VoxelCollection {
    open spec fn wf(&self) -> bool {
        if side(self.bounds_xy.0.0, self.bounds_xy.1.0) <= usize::MAX && side(self.bounds_xy.0.1, self.bounds_xy.1.1)
            <= usize::MAX {
            shaped(
                self.field@,
                side(self.bounds_xy.0.0, self.bounds_xy.1.0),
                side(self.bounds_xy.0.1, self.bounds_xy.1.1),
            ) && (self.field@.len() == 0 ==> forall|p: Point3D| !grid_columns(self.columns_box()).contains(p))
        } else {
            self.field@.len() == 0
        }
    }

    open spec fn cells(&self) -> Map<Point3D, Voxel> {
        Map::new(
            |p: Point3D| grid_columns(self.columns_box()).contains(p) && self.at(p).0 == p.2 && self.at(p).1.weight != 0,
            |p: Point3D| self.at(p).1,
        )
    }

    open spec fn admitted(&self) -> Set<Point3D> {
        grid_columns(self.columns_box())
    }

    open spec fn planar() -> bool {
        true
    }

    open spec fn spec_offset(&self) -> Point3D {
        self.offset
    }

    open spec fn spec_resolution(&self) -> Meters {
        self.resolution
    }

    open spec fn spec_has_bounds(&self) -> bool {
        true
    }

    open spec fn spec_bounds(&self) -> Bounds {
        let heights = match self.bounds_z {
            Some(known) => known,
            None => height_range(self.cells()),
        };
        ((self.bounds_xy.0.0, self.bounds_xy.0.1, heights.0), (self.bounds_xy.1.0, self.bounds_xy.1.1, heights.1))
    }

    open spec fn frame(voxels: Seq<Entry>, bounds: Option<Bounds>) -> Set<Point3D> {
        match bounds {
            Some(given) => grid_columns(given),
            None => grid_columns(box_of(voxels)),
        }
    }

    open spec fn founded(bounds: Option<Bounds>) -> bool {
        true
    }

    proof fn lemma_frame_admits(voxels: Seq<Entry>, at: int) {
        lemma_box_exists(voxels);
    }

    proof fn lemma_wf(&self) {
    }

    fn new(voxels: Vec<Entry>, bounds: Option<Bounds>, offset: Point3D, resolution: Meters) -> (store: Self)
        ensures
            bounds is None ==> store.spec_bounds() == box_of(voxels@),
    {
        let (low, high) = match bounds {
            Some(given) => given,
            None => calc_bounds(&voxels),
        };
        let field = match (side_of(low.0, high.0), side_of(low.1, high.1)) {
            (Some(sx), Some(sy)) => blank(sx, sy),
            _ => Vec::new(),
        };
        let mut store = Vec2VoxelCollection {
            field,
            bounds_xy: ((low.0, low.1), (high.0, high.1)),
            bounds_z: None,
            offset,
            resolution,
        };
        proof {
            assert(store.cells() =~= no_cells());
            assert(grid_columns(store.columns_box()) =~= grid_columns((low, high)));
        }
        let ghost admitted = store.admitted();
        let mut i: usize = 0;
        while i < voxels.len()
            invariant
                i <= voxels.len(),
                store.wf(),
                store.bounds_xy == ((low.0, low.1), (high.0, high.1)),
                store.offset == offset,
                store.resolution == resolution,
                admitted == store.admitted(),
                store.cells() == put_all(no_cells(), admitted, true, voxels@.take(i as int)),
            decreases voxels.len() - i,
        {
            proof {
                assert(voxels@.take(i + 1).drop_last() == voxels@.take(i as int));
            }
            let entry: Entry = voxels[i];
            store.insert_one(entry.0, entry.1);
            i += 1;
        }
        proof {
            assert(voxels@.take(voxels@.len() as int) == voxels@);
        }
        store.bounds_z = Some((low.2, high.2));
        proof {
            assert(store.cells() =~= put_all(no_cells(), admitted, true, voxels@));
            assert(store.spec_has_bounds());
        }
        store
    }

    fn has_bounds(&self) -> (r: bool) {
        true
    }

    fn get_bounds(&mut self) -> (bounds: Bounds) {
        let heights = match self.bounds_z {
            Some(known) => known,
            None => self.heights(),
        };
        self.bounds_z = Some(heights);
        proof {
            assert(self.cells() =~= old(self).cells());
            assert(self.spec_has_bounds());
        }
        ((self.bounds_xy.0.0, self.bounds_xy.0.1, heights.0), (self.bounds_xy.1.0, self.bounds_xy.1.1, heights.1))
    }

    fn get_resolution(&self) -> (r: Meters) {
        self.resolution
    }

    fn get_offset(&self) -> (r: Point3D) {
        self.offset
    }

    fn set_offset(&mut self, offset: Point3D) {
        self.offset = offset;
        proof {
            assert(self.cells() =~= old(self).cells());
            assert(self.spec_has_bounds() == old(self).spec_has_bounds());
        }
    }

    fn to_vec(&self) -> (list: Vec<Entry>) {
        let low = self.bounds_xy.0;
        let mut out: Vec<Entry> = Vec::new();
        let ghost cells = self.cells();
        let mut x: usize = 0;
        while x < self.field.len()
            invariant
                x <= self.field@.len(),
                self.wf(),
                low == self.bounds_xy.0,
                cells == self.cells(),
                lists_passed(cells, out@, low, x as int, 0),
            decreases self.field@.len() - x,
        {
            let mut y: usize = 0;
            while y < self.field[x].len()
                invariant
                    x < self.field@.len(),
                    y <= self.field@[x as int]@.len(),
                    self.wf(),
                    low == self.bounds_xy.0,
                    cells == self.cells(),
                    lists_passed(cells, out@, low, x as int, y as int),
                decreases self.field@[x as int]@.len() - y,
            {
                let column: (i32, Voxel) = self.field[x][y];
                let point: Point3D = ((low.0 as i64 + x as i64) as i32, (low.1 as i64 + y as i64) as i32, column.0);
                let ghost before = out@;
                if column.1.weight != 0 {
                    out.push((point, column.1));
                }
                proof {
                    assert(self.at(point) == column);
                    assert forall|p: Point3D| #[trigger] cells.dom().contains(p) && passed(p, low, x as int, y + 1) implies names(
                        out@,
                        p,
                    ) by {
                        if passed(p, low, x as int, y as int) {
                            assert(names(before, p));
                            let a = choose|a: int| 0 <= a < before.len() && (#[trigger] before[a]).0 == p;
                            assert(out@[a].0 == p);
                        } else {
                            assert(self.at(p) == column);
                            assert(p == point);
                            assert(out@[before.len() as int].0 == p);
                        }
                    }
                    assert forall|a: int, b: int| 0 <= a < b < out@.len() implies (#[trigger] out@[a]).0 != (
                    #[trigger] out@[b]).0 by {
                        if b == before.len() {
                            assert(passed(before[a].0, low, x as int, y as int));
                        } else {
                            assert(before[a].0 != before[b].0);
                        }
                    }
                    assert forall|a: int| 0 <= a < out@.len() implies cells.contains_pair(
                        (#[trigger] out@[a]).0,
                        out@[a].1,
                    ) && passed(out@[a].0, low, x as int, y + 1) by {
                        if a < before.len() {
                            assert(passed(before[a].0, low, x as int, y as int));
                        }
                    }
                }
                y += 1;
            }
            proof {
                assert forall|p: Point3D| #[trigger] cells.dom().contains(p) && passed(p, low, x + 1, 0) implies names(
                    out@,
                    p,
                ) by {
                    assert(passed(p, low, x as int, y as int));
                }
                assert forall|a: int| 0 <= a < out@.len() implies passed((#[trigger] out@[a]).0, low, x + 1, 0) by {
                    assert(cells.dom().contains(out@[a].0));
                    assert(passed(out@[a].0, low, x as int, y as int));
                }
            }
            x += 1;
        }
        proof {
            assert forall|p: Point3D| #[trigger] cells.dom().contains(p) implies exists|a: int|
                0 <= a < out@.len() && (#[trigger] out@[a]).0 == p by {
                assert(passed(p, low, x as int, 0));
                assert(names(out@, p));
            }
        }
        out
    }

    fn into_vec(self) -> (list: Vec<Entry>) {
        self.to_vec()
    }

    fn insert_one(&mut self, point: Point3D, voxel: Voxel)
        ensures
            final(self).bounds_xy == old(self).bounds_xy,
            voxel.weight != 0 && old(self).admitted().contains(point) ==> final(self).bounds_z is None,
            voxel.weight == 0 || !old(self).admitted().contains(point) ==> final(self).bounds_z == old(
                self,
            ).bounds_z,
    {
        if voxel.weight == 0 {
            return ;
        }
        match self.slot(&point) {
            Some((x, y)) => {
                let column: (i32, Voxel) = self.field[x][y];
                let next = if column.1.weight == 0 || column.0 != point.2 {
                    voxel
                } else {
                    let mut current = column.1;
                    add_color_with_weight_check(&mut current, voxel);
                    current
                };
                self.field[x][y] = (point.2, next);
                self.bounds_z = None;
                proof {
                    assert(self.at(point) == (point.2, next));
                    assert forall|q: Point3D|
                        !same_column(point, q) && grid_columns(self.columns_box()).contains(q) implies self.at(q)
                        == old(self).at(q) by {}
                    assert(self.cells() =~= put(old(self).cells(), old(self).admitted(), true, point, voxel));
                }
            },
            None => {},
        }
    }

    fn has(&self, point: &Point3D) -> (r: bool) {
        match self.slot(point) {
            Some((x, y)) => self.field[x][y].0 == point.2 && self.field[x][y].1.weight != 0,
            None => false,
        }
    }
}

impl Default for Vec2VoxelCollection {
    /// The store over the column at the origin alone, vacant, with no offset
    /// and cells of one metre.
    fn default() -> (store: Self)
        ensures
            store.wf(),
            store.cells() == no_cells(),
            store.spec_bounds() == ((0i32, 0i32, 0i32), (0i32, 0i32, 0i32)),
            store.spec_offset() == (0i32, 0i32, 0i32),
            store.spec_resolution() == ONE_METER,
    {
        Self::new(Vec::new(), Some(((0, 0, 0), (0, 0, 0))), (0, 0, 0), ONE_METER)
    }
}

} // verus!
