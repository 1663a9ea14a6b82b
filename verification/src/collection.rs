use vstd::prelude::*;
use crate::element::{
    averaged, greater, is_index, lemma_span_exists, lesser, merged, on_axis, spans, widened, Color, Meters, Point,
    Point3D, Voxel, ONE_METER,
};
use std::marker::PhantomData;

verus! {

/// A cell and the voxel in it.
pub type Entry = (Point3D, Voxel);

/// A box of cells, given by its least and its greatest cell, both inside.
pub type Bounds = (Point3D, Point3D);

/// Why two stores cannot be merged.
#[derive(Copy, Clone, Debug, PartialEq, Eq)]
pub enum MergeError {
    /// The two stores have cells of different size.
    ResolutionMismatch,
}

/// The cell at the origin.
pub open spec fn origin() -> Point3D {
    (0i32, 0i32, 0i32)
}

/// Whether two cells stand in the same column: they differ at most in height.
pub open spec fn same_column(p: Point3D, q: Point3D) -> bool {
    p.0 == q.0 && p.1 == q.1
}

/// The cells without those of the column of `point`.
pub open spec fn cleared(cells: Map<Point3D, Voxel>, point: Point3D) -> Map<Point3D, Voxel> {
    cells.remove_keys(Set::new(|q: Point3D| same_column(point, q)))
}

/// The cells after one voxel was offered at `point`. A vacant voxel and a point
/// that the store does not admit change nothing. A voxel offered at an occupied
/// cell is merged into it. Otherwise the voxel becomes the cell; in a store
/// that keeps one height per column it takes the place of whatever the column
/// held.
pub open spec fn put(
    cells: Map<Point3D, Voxel>,
    admitted: Set<Point3D>,
    planar: bool,
    point: Point3D,
    voxel: Voxel,
) -> Map<Point3D, Voxel> {
    if voxel.weight == 0 || !admitted.contains(point) {
        cells
    } else if cells.dom().contains(point) {
        cells.insert(point, merged(cells[point], voxel))
    } else if planar {
        cleared(cells, point).insert(point, voxel)
    } else {
        cells.insert(point, voxel)
    }
}

/// The cells after the entries of `list` were offered one after the other.
pub open spec fn put_all(
    cells: Map<Point3D, Voxel>,
    admitted: Set<Point3D>,
    planar: bool,
    list: Seq<Entry>,
) -> Map<Point3D, Voxel>
    decreases list.len(),
{
    if list.len() == 0 {
        cells
    } else {
        put(put_all(cells, admitted, planar, list.drop_last()), admitted, planar, list.last().0, list.last().1)
    }
}

/// No cells.
pub open spec fn no_cells() -> Map<Point3D, Voxel> {
    Map::empty()
}

/// That `list` names every cell of `cells` exactly once, with what it holds.
pub open spec fn lists<V>(cells: Map<Point3D, V>, list: Seq<(Point3D, V)>) -> bool {
    &&& forall|i: int, j: int| 0 <= i < j < list.len() ==> (#[trigger] list[i]).0 != (#[trigger] list[j]).0
    &&& forall|i: int| 0 <= i < list.len() ==> cells.contains_pair((#[trigger] list[i]).0, list[i].1)
    &&& forall|p: Point3D| #[trigger]
        cells.dom().contains(p) ==> exists|i: int| 0 <= i < list.len() && (#[trigger] list[i]).0 == p
}

/// Every cell holds a voxel of weight one or more.
pub open spec fn occupied(cells: Map<Point3D, Voxel>) -> bool {
    forall|p: Point3D| #[trigger] cells.dom().contains(p) ==> cells[p].weight >= 1
}

/// No column holds cells at two heights.
pub open spec fn one_height(cells: Map<Point3D, Voxel>) -> bool {
    forall|p: Point3D, q: Point3D| #[trigger]
        cells.dom().contains(p) && #[trigger] cells.dom().contains(q) && same_column(p, q) ==> p == q
}

/// The color each cell shows.
pub open spec fn colors(cells: Map<Point3D, Voxel>) -> Map<Point3D, Color> {
    cells.map_values(|voxel: Voxel| averaged(voxel))
}

/// Whether `point` moved by `offset` is still a cell.
pub open spec fn fits(point: Point3D, offset: Point3D) -> bool {
    is_index(point.0 + offset.0) && is_index(point.1 + offset.1) && is_index(point.2 + offset.2)
}

/// Whether every cell moved by `offset` is still a cell.
pub open spec fn all_fit(cells: Map<Point3D, Voxel>, offset: Point3D) -> bool {
    forall|p: Point3D| #[trigger] cells.dom().contains(p) ==> fits(p, offset)
}

/// `point` moved by `offset`.
pub open spec fn translated(point: Point3D, offset: Point3D) -> Point3D {
    ((point.0 + offset.0) as i32, (point.1 + offset.1) as i32, (point.2 + offset.2) as i32)
}

/// That `moved` is `list` with every cell moved by `offset`.
pub open spec fn relocates<V>(list: Seq<(Point3D, V)>, offset: Point3D, moved: Seq<(Point3D, V)>) -> bool {
    &&& moved.len() == list.len()
    &&& forall|i: int|
        0 <= i < list.len() ==> fits(list[i].0, offset) && (#[trigger] moved[i]).0 == translated(list[i].0, offset)
            && moved[i].1 == list[i].1
}

/// That `bounds` is the smallest box around the cells; around no cells, the box
/// that holds the origin alone.
pub open spec fn is_extent(cells: Map<Point3D, Voxel>, bounds: Bounds) -> bool {
    &&& (forall|p: Point3D| !cells.dom().contains(p)) ==> bounds == (origin(), origin())
    &&& forall|p: Point3D, axis: int|
        0 <= axis < 3 && #[trigger] cells.dom().contains(p) ==> on_axis(bounds.0, axis) <= #[trigger] on_axis(p, axis)
            <= on_axis(bounds.1, axis)
    &&& (exists|p: Point3D| cells.dom().contains(p)) ==> forall|axis: int|
        0 <= axis < 3 ==> (exists|p: Point3D| #[trigger]
            cells.dom().contains(p) && on_axis(p, axis) == #[trigger] on_axis(bounds.0, axis)) && (exists|
            p: Point3D,
        | #[trigger] cells.dom().contains(p) && on_axis(p, axis) == #[trigger] on_axis(bounds.1, axis))
}

/// The smallest box around the cells.
pub open spec fn extent_of(cells: Map<Point3D, Voxel>) -> Bounds {
    choose|bounds: Bounds| is_extent(cells, bounds)
}

/// The smallest box around two boxes.
pub open spec fn union_of(a: Bounds, b: Bounds) -> Bounds {
    (
        (
            if a.0.0 <= b.0.0 { a.0.0 } else { b.0.0 },
            if a.0.1 <= b.0.1 { a.0.1 } else { b.0.1 },
            if a.0.2 <= b.0.2 { a.0.2 } else { b.0.2 },
        ),
        (
            if a.1.0 >= b.1.0 { a.1.0 } else { b.1.0 },
            if a.1.1 >= b.1.1 { a.1.1 } else { b.1.1 },
            if a.1.2 >= b.1.2 { a.1.2 } else { b.1.2 },
        ),
    )
}

/// The cells of the entries, in their order.
pub open spec fn points_of(list: Seq<Entry>) -> Seq<Point3D> {
    list.map_values(|entry: Entry| entry.0)
}

/// That `bounds` is the smallest box around the cells of a list of entries;
/// around an empty list, the box that holds the origin alone.
pub open spec fn boxes(list: Seq<Entry>, bounds: Bounds) -> bool {
    if list.len() == 0 {
        bounds == (origin(), origin())
    } else {
        Point3D::encloses(points_of(list), bounds)
    }
}

/// The smallest box around the cells of a list of entries.
pub open spec fn box_of(list: Seq<Entry>) -> Bounds {
    choose|bounds: Bounds| boxes(list, bounds)
}

/// Whether a cell lies in a box.
pub open spec fn in_box(bounds: Bounds, point: Point3D) -> bool {
    &&& bounds.0.0 <= point.0 <= bounds.1.0
    &&& bounds.0.1 <= point.1 <= bounds.1.1
    &&& bounds.0.2 <= point.2 <= bounds.1.2
}

/// How many cells a box has on one axis.
pub open spec fn side(low: i32, high: i32) -> int {
    if high < low {
        0
    } else {
        high - low + 1
    }
}

/// Whether a grid over the box can be indexed: no side is longer than the
/// greatest index of a list.
pub open spec fn indexable(bounds: Bounds) -> bool {
    &&& side(bounds.0.0, bounds.1.0) <= usize::MAX
    &&& side(bounds.0.1, bounds.1.1) <= usize::MAX
    &&& side(bounds.0.2, bounds.1.2) <= usize::MAX
}

/// The cells of a grid over a box: those of the box, or none where the grid
/// cannot be indexed.
pub open spec fn grid_cells(bounds: Bounds) -> Set<Point3D> {
    Set::new(|point: Point3D| indexable(bounds) && in_box(bounds, point))
}

/// The columns of a grid over the first two axes of a box, at any height.
pub open spec fn grid_columns(bounds: Bounds) -> Set<Point3D> {
    Set::new(
        |point: Point3D|
            side(bounds.0.0, bounds.1.0) <= usize::MAX && side(bounds.0.1, bounds.1.1) <= usize::MAX && bounds.0.0
                <= point.0 <= bounds.1.0 && bounds.0.1 <= point.1 <= bounds.1.1,
    )
}

/// There is one smallest box around the cells of a list.
pub proof fn lemma_boxes_unique(list: Seq<Entry>, a: Bounds, b: Bounds)
    requires
        boxes(list, a),
        boxes(list, b),
    ensures
        a == b,
        box_of(list) == a,
{
    lemma_boxes_same(list, a, b);
    lemma_boxes_same(list, box_of(list), a);
}

proof fn lemma_boxes_same(list: Seq<Entry>, a: Bounds, b: Bounds)
    requires
        boxes(list, a),
        boxes(list, b),
    ensures
        a == b,
{
    if list.len() > 0 {
        let points = points_of(list);
        assert forall|axis: int| 0 <= axis < 3 implies on_axis(a.0, axis) == on_axis(b.0, axis) && on_axis(
            a.1,
            axis,
        ) == on_axis(b.1, axis) by {
            assert(spans(points, points.len() as int, axis, on_axis(a.0, axis), on_axis(a.1, axis)));
            assert(spans(points, points.len() as int, axis, on_axis(b.0, axis), on_axis(b.1, axis)));
            let a0 = choose|i: int| 0 <= i < points.len() && on_axis(#[trigger] points[i], axis) == on_axis(a.0, axis);
            let b0 = choose|i: int| 0 <= i < points.len() && on_axis(#[trigger] points[i], axis) == on_axis(b.0, axis);
            let a1 = choose|i: int| 0 <= i < points.len() && on_axis(#[trigger] points[i], axis) == on_axis(a.1, axis);
            let b1 = choose|i: int| 0 <= i < points.len() && on_axis(#[trigger] points[i], axis) == on_axis(b.1, axis);
            assert(on_axis(b.0, axis) <= on_axis(points[a0], axis));
            assert(on_axis(a.0, axis) <= on_axis(points[b0], axis));
            assert(on_axis(points[a1], axis) <= on_axis(b.1, axis));
            assert(on_axis(points[b1], axis) <= on_axis(a.1, axis));
        }
        assert(on_axis(a.0, 0) == on_axis(b.0, 0));
        assert(on_axis(a.0, 1) == on_axis(b.0, 1));
        assert(on_axis(a.0, 2) == on_axis(b.0, 2));
        assert(on_axis(a.1, 0) == on_axis(b.1, 0));
        assert(on_axis(a.1, 1) == on_axis(b.1, 1));
        assert(on_axis(a.1, 2) == on_axis(b.1, 2));
    }
}

/// A list of entries that is not empty has a smallest box around its cells,
/// and every cell of the list lies in it.
pub proof fn lemma_box_exists(list: Seq<Entry>)
    requires
        list.len() > 0,
    ensures
        boxes(list, box_of(list)),
        forall|i: int| 0 <= i < list.len() ==> in_box(box_of(list), (#[trigger] list[i]).0),
{
    let points = points_of(list);
    let n = points.len() as int;
    let x = lemma_span_exists(points, n, 0);
    let y = lemma_span_exists(points, n, 1);
    let z = lemma_span_exists(points, n, 2);
    let found: Bounds = ((x.0 as i32, y.0 as i32, z.0 as i32), (x.1 as i32, y.1 as i32, z.1 as i32));
    assert(boxes(list, found));
    lemma_boxes_unique(list, found, found);
    assert forall|i: int| 0 <= i < list.len() implies in_box(box_of(list), (#[trigger] list[i]).0) by {
        assert(points[i] == list[i].0);
        assert(x.0 <= on_axis(points[i], 0) <= x.1);
        assert(y.0 <= on_axis(points[i], 1) <= y.1);
        assert(z.0 <= on_axis(points[i], 2) <= z.1);
    }
}

/// The smallest box around the cells of a list of entries.
pub fn calc_bounds(points: &Vec<Entry>) -> (bounds: Bounds)
    ensures
        boxes(points@, bounds),
        bounds == box_of(points@),
{
    let bounds = calc_bounds_of(points);
    proof {
        lemma_boxes_unique(points@, bounds, bounds);
    }
    bounds
}

fn calc_bounds_of(points: &Vec<Entry>) -> (bounds: Bounds)
    ensures
        boxes(points@, bounds),
{
    if points.len() == 0 {
        return ((0, 0, 0), (0, 0, 0));
    }
    let mut cells: Vec<Point3D> = Vec::new();
    let mut i: usize = 0;
    while i < points.len()
        invariant
            i <= points.len(),
            cells@ == points_of(points@).take(i as int),
        decreases points.len() - i,
    {
        cells.push(points[i].0);
        proof {
            assert(points_of(points@).take(i + 1) == points_of(points@).take(i as int).push(points@[i as int].0));
        }
        i += 1;
    }
    proof {
        assert(points_of(points@).take(points@.len() as int) == points_of(points@));
    }
    Point3D::calc_bounds(&cells)
}

/// The smallest box around two boxes.
pub fn calc_bounds_from_2(a: Bounds, b: Bounds) -> (bounds: Bounds)
    ensures
        bounds == union_of(a, b),
{
    let (min1, max1) = a;
    let (min2, max2) = b;
    (
        (lesser(min1.0, min2.0), lesser(min1.1, min2.1), lesser(min1.2, min2.2)),
        (greater(max1.0, max2.0), greater(max1.1, max2.1), greater(max1.2, max2.2)),
    )
}

/// Two smallest boxes around the same cells are the same box.
pub proof fn lemma_extent_unique(cells: Map<Point3D, Voxel>, a: Bounds, b: Bounds)
    requires
        is_extent(cells, a),
        is_extent(cells, b),
    ensures
        a == b,
{
    if exists|p: Point3D| cells.dom().contains(p) {
        assert forall|axis: int| 0 <= axis < 3 implies on_axis(a.0, axis) == on_axis(b.0, axis) && on_axis(
            a.1,
            axis,
        ) == on_axis(b.1, axis) by {
            let pa0 = choose|p: Point3D| #[trigger]
                cells.dom().contains(p) && on_axis(p, axis) == #[trigger] on_axis(a.0, axis);
            let pb0 = choose|p: Point3D| #[trigger]
                cells.dom().contains(p) && on_axis(p, axis) == #[trigger] on_axis(b.0, axis);
            let pa1 = choose|p: Point3D| #[trigger]
                cells.dom().contains(p) && on_axis(p, axis) == #[trigger] on_axis(a.1, axis);
            let pb1 = choose|p: Point3D| #[trigger]
                cells.dom().contains(p) && on_axis(p, axis) == #[trigger] on_axis(b.1, axis);
            assert(on_axis(b.0, axis) <= on_axis(pa0, axis));
            assert(on_axis(a.0, axis) <= on_axis(pb0, axis));
            assert(on_axis(pa1, axis) <= on_axis(b.1, axis));
            assert(on_axis(pb1, axis) <= on_axis(a.1, axis));
        }
        assert(on_axis(a.0, 0) == on_axis(b.0, 0));
        assert(on_axis(a.0, 1) == on_axis(b.0, 1));
        assert(on_axis(a.0, 2) == on_axis(b.0, 2));
        assert(on_axis(a.1, 0) == on_axis(b.1, 0));
        assert(on_axis(a.1, 1) == on_axis(b.1, 1));
        assert(on_axis(a.1, 2) == on_axis(b.1, 2));
    }
}

/// The box that `calc_bounds` finds around a listing of the cells is their
/// extent.
pub proof fn lemma_boxes_extent(cells: Map<Point3D, Voxel>, list: Seq<Entry>, bounds: Bounds)
    requires
        lists(cells, list),
        boxes(list, bounds),
    ensures
        is_extent(cells, bounds),
        extent_of(cells) == bounds,
{
    let points = points_of(list);
    if list.len() == 0 {
        assert forall|p: Point3D| !cells.dom().contains(p) by {
            if cells.dom().contains(p) {
                let i = choose|i: int| 0 <= i < list.len() && (#[trigger] list[i]).0 == p;
            }
        }
    } else {
        assert(cells.dom().contains(list[0].0));
        assert forall|p: Point3D, axis: int| 0 <= axis < 3 && #[trigger] cells.dom().contains(p) implies on_axis(
            bounds.0,
            axis,
        ) <= #[trigger] on_axis(p, axis) <= on_axis(bounds.1, axis) by {
            let i = choose|i: int| 0 <= i < list.len() && (#[trigger] list[i]).0 == p;
            assert(points[i] == p);
        }
        assert forall|axis: int| 0 <= axis < 3 implies (exists|p: Point3D| #[trigger]
            cells.dom().contains(p) && on_axis(p, axis) == #[trigger] on_axis(bounds.0, axis)) && (exists|
            p: Point3D,
        | #[trigger] cells.dom().contains(p) && on_axis(p, axis) == #[trigger] on_axis(bounds.1, axis)) by {
            assert(spans(points, points.len() as int, axis, on_axis(bounds.0, axis), on_axis(bounds.1, axis)));
            let lo = choose|i: int| 0 <= i < points.len() && on_axis(#[trigger] points[i], axis) == on_axis(bounds.0, axis);
            let hi = choose|i: int| 0 <= i < points.len() && on_axis(#[trigger] points[i], axis) == on_axis(bounds.1, axis);
            assert(points[lo] == list[lo].0);
            assert(points[hi] == list[hi].0);
            assert(cells.dom().contains(list[lo].0));
            assert(cells.dom().contains(list[hi].0));
        }
    }
    assert(is_extent(cells, bounds));
    lemma_extent_unique(cells, extent_of(cells), bounds);
}

/// That `moved` is a listing of the cells, each moved by `offset`.
pub open spec fn hands_out(cells: Map<Point3D, Voxel>, offset: Point3D, moved: Seq<Entry>) -> bool {
    exists|list: Seq<Entry>| lists(cells, list) && #[trigger] relocates(list, offset, moved)
}

/// That `moved` is a listing of the colors of the cells, each cell moved by
/// `offset`.
pub open spec fn shows(cells: Map<Point3D, Voxel>, offset: Point3D, moved: Seq<(Point3D, Color)>) -> bool {
    exists|list: Seq<(Point3D, Color)>| lists(colors(cells), list) && #[trigger] relocates(list, offset, moved)
}

/// A box moved by `offset`, each index stopping at the ends of the index range.
pub open spec fn shifted_box(bounds: Bounds, offset: Point3D) -> Bounds {
    (shifted_corner(bounds.0, offset), shifted_corner(bounds.1, offset))
}

/// A cell moved by `offset`, each index stopping at the ends of the index range.
pub open spec fn shifted_corner(point: Point3D, offset: Point3D) -> Point3D {
    (
        clamped(point.0 + offset.0),
        clamped(point.1 + offset.1),
        clamped(point.2 + offset.2),
    )
}

/// The index nearest to `value`.
pub open spec fn clamped(value: int) -> i32 {
    if value < i32::MIN {
        i32::MIN
    } else if value > i32::MAX {
        i32::MAX
    } else {
        value as i32
    }
}

fn clamp(value: i64) -> (r: i32)
    ensures
        r == clamped(value as int),
{
    if value < -2147483648 {
        -2147483648
    } else if value > 2147483647 {
        2147483647
    } else {
        value as i32
    }
}

fn shift_box(bounds: Bounds, offset: Point3D) -> (r: Bounds)
    ensures
        r == shifted_box(bounds, offset),
{
    (
        (
            clamp(bounds.0.0 as i64 + offset.0 as i64),
            clamp(bounds.0.1 as i64 + offset.1 as i64),
            clamp(bounds.0.2 as i64 + offset.2 as i64),
        ),
        (
            clamp(bounds.1.0 as i64 + offset.0 as i64),
            clamp(bounds.1.1 as i64 + offset.1 as i64),
            clamp(bounds.1.2 as i64 + offset.2 as i64),
        ),
    )
}

/// The box that a merged store is told to have: the box around the boxes of
/// both stores, each moved by the offset of its store, if both stores have one.
pub open spec fn merged_bounds(
    first: Option<Bounds>,
    first_offset: Point3D,
    second: Option<Bounds>,
    second_offset: Point3D,
) -> Option<Bounds> {
    if first.is_some() && second.is_some() {
        Some(union_of(shifted_box(first.unwrap(), first_offset), shifted_box(second.unwrap(), second_offset)))
    } else {
        None
    }
}

proof fn lemma_put_all_push(
    cells: Map<Point3D, Voxel>,
    admitted: Set<Point3D>,
    planar: bool,
    list: Seq<Entry>,
    n: int,
)
    requires
        0 <= n < list.len(),
    ensures
        put_all(cells, admitted, planar, list.take(n + 1)) == put(
            put_all(cells, admitted, planar, list.take(n)),
            admitted,
            planar,
            list[n].0,
            list[n].1,
        ),
{
    assert(list.take(n + 1).drop_last() == list.take(n));
}

/// A listing of the cells with each voxel averaged is a listing of the colors.
pub proof fn lemma_lists_colors(cells: Map<Point3D, Voxel>, list: Seq<Entry>, points: Seq<(Point3D, Color)>)
    requires
        lists(cells, list),
        points.len() == list.len(),
        forall|i: int| 0 <= i < list.len() ==> #[trigger] points[i] == (list[i].0, averaged(list[i].1)),
    ensures
        lists(colors(cells), points),
{
    assert forall|i: int, j: int| 0 <= i < j < points.len() implies (#[trigger] points[i]).0 != (
    #[trigger] points[j]).0 by {
        assert(list[i].0 != list[j].0);
    }
    assert forall|i: int| 0 <= i < points.len() implies colors(cells).contains_pair(
        (#[trigger] points[i]).0,
        points[i].1,
    ) by {
        assert(cells.contains_pair(list[i].0, list[i].1));
    }
    assert forall|p: Point3D| #[trigger] colors(cells).dom().contains(p) implies exists|i: int|
        0 <= i < points.len() && (#[trigger] points[i]).0 == p by {
        assert(cells.dom().contains(p));
        let i = choose|i: int| 0 <= i < list.len() && (#[trigger] list[i]).0 == p;
        assert(points[i].0 == p);
    }
}

/// A store of voxels by cell. The shapes differ in what they admit and in what
/// they cost; what they hold and how an offered voxel enters is the same for
/// all.
pub trait VoxelCollection: Sized {
    /// The store is in order.
    spec fn wf(&self) -> bool;

    /// The occupied cells and their voxels.
    spec fn cells(&self) -> Map<Point3D, Voxel>;

    /// The cells that the store can hold. A store over a grid admits the cells of
    /// its grid; the others admit every cell.
    spec fn admitted(&self) -> Set<Point3D>;

    /// Whether the store keeps one height per column.
    spec fn planar() -> bool;

    /// The translation that exporting "with offset" applies.
    spec fn spec_offset(&self) -> Point3D;

    /// The edge length of a cell.
    spec fn spec_resolution(&self) -> Meters;

    /// Whether the store knows its box without looking at its cells.
    spec fn spec_has_bounds(&self) -> bool;

    /// The box that `get_bounds` gives.
    spec fn spec_bounds(&self) -> Bounds;

    /// The cells that a store built from these entries and this box admits.
    spec fn frame(voxels: Seq<Entry>, bounds: Option<Bounds>) -> Set<Point3D>;

    /// Whether a store built with this box knows its box from the start.
    spec fn founded(bounds: Option<Bounds>) -> bool;

    /// In a store that is in order every cell is admitted and occupied, and a
    /// store that keeps one height per column holds no column twice.
    proof fn lemma_wf(&self)
        requires
            self.wf(),
        ensures
            occupied(self.cells()),
            self.cells().dom().subset_of(self.admitted()),
            Self::planar() ==> one_height(self.cells()),
    ;

    /// A store built from entries without a box admits the cell of every one
    /// of them, if a grid over the smallest box around them can be indexed.
    proof fn lemma_frame_admits(voxels: Seq<Entry>, at: int)
        requires
            0 <= at < voxels.len(),
            indexable(box_of(voxels)),
        ensures
            Self::frame(voxels, None).contains(voxels[at].0),
    ;

    /// A store of the given entries, offered one after the other.
    fn new(voxels: Vec<Entry>, bounds: Option<Bounds>, offset: Point3D, resolution: Meters) -> (store: Self)
        ensures
            store.wf(),
            store.admitted() == Self::frame(voxels@, bounds),
            store.cells() == put_all(no_cells(), store.admitted(), Self::planar(), voxels@),
            store.spec_offset() == offset,
            store.spec_resolution() == resolution,
            store.spec_has_bounds() == Self::founded(bounds),
            bounds.is_some() ==> store.spec_bounds() == bounds.unwrap(),
    ;

    /// Whether the store knows its box without looking at its cells.
    fn has_bounds(&self) -> (r: bool)
        requires
            self.wf(),
        ensures
            r == self.spec_has_bounds(),
    ;

    /// The box of the store. A store that does not know it finds the smallest
    /// box around its cells and keeps it; around no cells, the box that holds
    /// the origin alone.
    fn get_bounds(&mut self) -> (bounds: Bounds)
        requires
            old(self).wf(),
        ensures
            final(self).wf(),
            bounds == old(self).spec_bounds(),
            !old(self).spec_has_bounds() ==> is_extent(old(self).cells(), bounds),
            final(self).spec_bounds() == bounds,
            final(self).spec_has_bounds(),
            final(self).cells() == old(self).cells(),
            final(self).admitted() == old(self).admitted(),
            final(self).spec_offset() == old(self).spec_offset(),
            final(self).spec_resolution() == old(self).spec_resolution(),
    ;

    /// The edge length of a cell.
    fn get_resolution(&self) -> (r: Meters)
        requires
            self.wf(),
        ensures
            r == self.spec_resolution(),
    ;

    /// The translation that exporting "with offset" applies.
    fn get_offset(&self) -> (r: Point3D)
        requires
            self.wf(),
        ensures
            r == self.spec_offset(),
    ;

    /// Replaces the translation.
    fn set_offset(&mut self, offset: Point3D)
        requires
            old(self).wf(),
        ensures
            final(self).wf(),
            final(self).spec_offset() == offset,
            final(self).cells() == old(self).cells(),
            final(self).admitted() == old(self).admitted(),
            final(self).spec_resolution() == old(self).spec_resolution(),
            final(self).spec_has_bounds() == old(self).spec_has_bounds(),
            final(self).spec_bounds() == old(self).spec_bounds(),
    ;

    /// Sets the translation to the least corner of the box of the store.
    fn offset_to_min(&mut self)
        requires
            old(self).wf(),
        ensures
            final(self).wf(),
            final(self).spec_offset() == old(self).spec_bounds().0,
            final(self).spec_bounds() == old(self).spec_bounds(),
            final(self).cells() == old(self).cells(),
            final(self).admitted() == old(self).admitted(),
            final(self).spec_resolution() == old(self).spec_resolution(),
    {
        let (min, _max) = self.get_bounds();
        self.set_offset(min);
    }

    /// Every cell once, with its voxel, in an order that is not promised.
    fn to_vec(&self) -> (list: Vec<Entry>)
        requires
            self.wf(),
        ensures
            lists(self.cells(), list@),
    ;

    /// Every cell once, with its voxel, in an order that is not promised.
    fn into_vec(self) -> (list: Vec<Entry>)
        requires
            self.wf(),
        ensures
            lists(self.cells(), list@),
    ;

    /// Every cell once, moved by the offset, with its voxel.
    fn to_vec_with_offset(&self) -> (list: Vec<Entry>)
        requires
            self.wf(),
            all_fit(self.cells(), self.spec_offset()),
        ensures
            hands_out(self.cells(), self.spec_offset(), list@),
    {
        let offset = self.get_offset();
        let entries = self.to_vec();
        relocate(entries, offset)
    }

    /// Every cell once, moved by the offset, with its voxel.
    fn into_vec_with_offset(self) -> (list: Vec<Entry>)
        requires
            self.wf(),
            all_fit(self.cells(), self.spec_offset()),
        ensures
            hands_out(self.cells(), self.spec_offset(), list@),
    {
        let offset = self.get_offset();
        let entries = self.into_vec();
        relocate(entries, offset)
    }

    /// Every cell once, with the color it shows.
    fn to_points(&self) -> (list: Vec<(Point3D, Color)>)
        requires
            self.wf(),
        ensures
            lists(colors(self.cells()), list@),
    {
        let entries = self.to_vec();
        let points = average_all(entries);
        proof {
            lemma_lists_colors(self.cells(), entries@, points@);
        }
        points
    }

    /// Every cell once, with the color it shows.
    fn into_points(self) -> (list: Vec<(Point3D, Color)>)
        requires
            self.wf(),
        ensures
            lists(colors(self.cells()), list@),
    {
        let entries = self.into_vec();
        let points = average_all(entries);
        proof {
            lemma_lists_colors(self.cells(), entries@, points@);
        }
        points
    }

    /// Every cell once, moved by the offset, with the color it shows.
    fn to_points_with_offset(&self) -> (list: Vec<(Point3D, Color)>)
        requires
            self.wf(),
            all_fit(self.cells(), self.spec_offset()),
        ensures
            shows(self.cells(), self.spec_offset(), list@),
    {
        let offset = self.get_offset();
        let points = self.to_points();
        relocate(points, offset)
    }

    /// Every cell once, moved by the offset, with the color it shows.
    fn into_points_with_offset(self) -> (list: Vec<(Point3D, Color)>)
        requires
            self.wf(),
            all_fit(self.cells(), self.spec_offset()),
        ensures
            shows(self.cells(), self.spec_offset(), list@),
    {
        let offset = self.get_offset();
        let points = self.into_points();
        relocate(points, offset)
    }

    /// Offers one voxel at one cell.
    fn insert_one(&mut self, point: Point3D, voxel: Voxel)
        requires
            old(self).wf(),
        ensures
            final(self).wf(),
            final(self).cells() == put(old(self).cells(), old(self).admitted(), Self::planar(), point, voxel),
            final(self).admitted() == old(self).admitted(),
            final(self).spec_offset() == old(self).spec_offset(),
            final(self).spec_resolution() == old(self).spec_resolution(),
    ;

    /// Whether the cell is occupied.
    fn has(&self, point: &Point3D) -> (r: bool)
        requires
            self.wf(),
        ensures
            r == self.cells().dom().contains(*point),
    ;
}

/// The entries of single points: each cell with the voxel of one point of its
/// color.
pub open spec fn single_points(points: Seq<(Point3D, Color)>) -> Seq<Entry> {
    points.map_values(|point: (Point3D, Color)| (point.0, Voxel { color: widened(point.1), weight: 1 }))
}

/// What a store is to be built from. Entries, box, offset and resolution are set
/// one by one; what is not set stays at no entries, no box, no offset and one
/// metre.
pub struct BuildVoxelCollection<VC: VoxelCollection> {
    pub _phantom: PhantomData<VC>,
    pub voxels: Vec<Entry>,
    pub bounds: Option<Bounds>,
    pub offset: Point3D,
    pub resolution: Meters,
}

impl<VC: VoxelCollection> BuildVoxelCollection<VC> {
    /// Sets the entries, in place of those set before.
    pub fn voxels(self, voxels: Vec<Entry>) -> (builder: Self)
        ensures
            builder.voxels == voxels,
            builder.bounds == self.bounds,
            builder.offset == self.offset,
            builder.resolution == self.resolution,
    {
        let mut builder = self;
        builder.voxels = voxels;
        builder
    }

    /// Sets the entries to one point per item, in place of those set before.
    pub fn points(self, points: Vec<(Point3D, Color)>) -> (builder: Self)
        ensures
            builder.voxels@ == single_points(points@),
            builder.bounds == self.bounds,
            builder.offset == self.offset,
            builder.resolution == self.resolution,
    {
        let mut voxels: Vec<Entry> = Vec::new();
        let mut i: usize = 0;
        while i < points.len()
            invariant
                i <= points.len(),
                voxels@ == single_points(points@).take(i as int),
            decreases points.len() - i,
        {
            let point: (Point3D, Color) = points[i];
            voxels.push((point.0, Voxel::of_color(point.1)));
            proof {
                assert(single_points(points@).take(i + 1) == single_points(points@).take(i as int).push(
                    single_points(points@)[i as int],
                ));
            }
            i += 1;
        }
        proof {
            assert(single_points(points@).take(points@.len() as int) == single_points(points@));
        }
        let mut builder = self;
        builder.voxels = voxels;
        builder
    }

    /// Sets the box, which the store then takes for known.
    pub fn bounds(self, bounds: Bounds) -> (builder: Self)
        ensures
            builder.voxels == self.voxels,
            builder.bounds == Some(bounds),
            builder.offset == self.offset,
            builder.resolution == self.resolution,
    {
        let mut builder = self;
        builder.bounds = Some(bounds);
        builder
    }

    /// Sets the offset.
    pub fn offset(self, offset: Point3D) -> (builder: Self)
        ensures
            builder.voxels == self.voxels,
            builder.bounds == self.bounds,
            builder.offset == offset,
            builder.resolution == self.resolution,
    {
        let mut builder = self;
        builder.offset = offset;
        builder
    }

    /// Sets the resolution.
    pub fn resolution(self, resolution: Meters) -> (builder: Self)
        ensures
            builder.voxels == self.voxels,
            builder.bounds == self.bounds,
            builder.offset == self.offset,
            builder.resolution == resolution,
    {
        let mut builder = self;
        builder.resolution = resolution;
        builder
    }

    /// The store of what was set.
    pub fn build(self) -> (store: VC)
        ensures
            store.wf(),
            merges(store, self.voxels@, self.bounds),
            store.spec_offset() == self.offset,
            store.spec_resolution() == self.resolution,
    {
        VC::new(self.voxels, self.bounds, self.offset, self.resolution)
    }
}

/// Building stores and bringing the cells of one store into another. Every
/// store can take the cells of a store of any shape.
pub trait JoinVoxelCollection: VoxelCollection {
    /// A builder with nothing set.
    fn builder() -> (builder: BuildVoxelCollection<Self>)
        ensures
            builder.voxels@.len() == 0,
            builder.bounds is None,
            builder.offset == origin(),
            builder.resolution == ONE_METER,
    {
        BuildVoxelCollection {
            _phantom: PhantomData,
            voxels: Vec::new(),
            bounds: None,
            offset: (0, 0, 0),
            resolution: ONE_METER,
        }
    }

    /// A new store of the cells of this store, moved by its offset, followed by
    /// the given entries, with no offset of its own and with no box given.
    fn absorb(self, voxels: Vec<Entry>) -> (store: Self)
        requires
            self.wf(),
            all_fit(self.cells(), self.spec_offset()),
        ensures
            store.wf(),
            store.spec_offset() == origin(),
            store.spec_resolution() == self.spec_resolution(),
            exists|first: Seq<Entry>| #[trigger]
                hands_out(self.cells(), self.spec_offset(), first) && merges(store, first + voxels@, None),
    {
        let resolution = self.get_resolution();
        let mut entries = self.into_vec_with_offset();
        let ghost first = entries@;
        let mut voxels = voxels;
        entries.append(&mut voxels);
        let store = Self::new(entries, None, (0, 0, 0), resolution);
        proof {
            assert(hands_out(self.cells(), self.spec_offset(), first));
        }
        store
    }

    /// Puts in place of every voxel what `f` makes of it. A voxel that `f` makes
    /// vacant leaves the store. The store is built anew from a listing of its
    /// cells, with its box if it knows one, its offset and its resolution.
    fn batch<F: Fn(Voxel) -> Voxel>(&mut self, f: F)
        requires
            old(self).wf(),
            forall|voxel: Voxel| #[trigger] f.requires((voxel,)),
        ensures
            final(self).wf(),
            final(self).spec_offset() == old(self).spec_offset(),
            final(self).spec_resolution() == old(self).spec_resolution(),
            exists|list: Seq<Entry>, changed: Seq<Entry>| #[trigger]
                lists(old(self).cells(), list) && #[trigger] changes(f, list, changed) && merges(
                    *final(self),
                    changed,
                    if old(self).spec_has_bounds() {
                        Some(old(self).spec_bounds())
                    } else {
                        None
                    },
                ),
    {
        let bounds = if self.has_bounds() {
            Some(self.get_bounds())
        } else {
            None
        };
        let offset = self.get_offset();
        let resolution = self.get_resolution();
        let entries = self.to_vec();
        let mut changed: Vec<Entry> = Vec::new();
        let mut i: usize = 0;
        while i < entries.len()
            invariant
                i <= entries@.len(),
                forall|voxel: Voxel| #[trigger] f.requires((voxel,)),
                changed@.len() == i,
                forall|j: int|
                    0 <= j < i ==> (#[trigger] changed@[j]).0 == entries@[j].0 && f.ensures(
                        (entries@[j].1,),
                        changed@[j].1,
                    ),
            decreases entries@.len() - i,
        {
            let entry: Entry = entries[i];
            changed.push((entry.0, f(entry.1)));
            i += 1;
        }
        proof {
            assert(lists(old(self).cells(), entries@));
            assert(changes(f, entries@, changed@));
        }
        *self = Self::new(changed, bounds, offset, resolution);
    }

    /// Offers every cell of another store, moved by the offset of that store, to
    /// this one. The two stores are taken to have cells of the same size.
    fn insert<T: VoxelCollection>(&mut self, pc: T)
        requires
            old(self).wf(),
            pc.wf(),
            all_fit(pc.cells(), pc.spec_offset()),
        ensures
            final(self).wf(),
            exists|moved: Seq<Entry>| #[trigger]
                hands_out(pc.cells(), pc.spec_offset(), moved) && final(self).cells() == put_all(
                    old(self).cells(),
                    old(self).admitted(),
                    Self::planar(),
                    moved,
                ),
            final(self).admitted() == old(self).admitted(),
            final(self).spec_offset() == old(self).spec_offset(),
            final(self).spec_resolution() == old(self).spec_resolution(),
    {
        let entries = pc.into_vec_with_offset();
        let mut i: usize = 0;
        while i < entries.len()
            invariant
                i <= entries.len(),
                self.wf(),
                self.cells() == put_all(old(self).cells(), old(self).admitted(), Self::planar(), entries@.take(i as int)),
                self.admitted() == old(self).admitted(),
                self.spec_offset() == old(self).spec_offset(),
                self.spec_resolution() == old(self).spec_resolution(),
            decreases entries.len() - i,
        {
            proof {
                lemma_put_all_push(old(self).cells(), old(self).admitted(), Self::planar(), entries@, i as int);
            }
            let entry: Entry = entries[i];
            self.insert_one(entry.0, entry.1);
            i += 1;
        }
        proof {
            assert(entries@.take(entries@.len() as int) == entries@);
            assert(hands_out(pc.cells(), pc.spec_offset(), entries@));
        }
    }

    /// A new store of the cells of both stores, each moved by the offset of its
    /// store, with no offset of its own. Stores with cells of different size
    /// are not merged.
    fn merge<T: VoxelCollection>(self, pc: T) -> (r: Result<Self, MergeError>)
        requires
            self.wf(),
            pc.wf(),
            all_fit(self.cells(), self.spec_offset()),
            all_fit(pc.cells(), pc.spec_offset()),
        ensures
            r is Err <==> self.spec_resolution() != pc.spec_resolution(),
            r is Err ==> r->Err_0 == MergeError::ResolutionMismatch,
            r is Ok ==> r->Ok_0.wf() && r->Ok_0.spec_offset() == origin() && r->Ok_0.spec_resolution()
                == self.spec_resolution() && exists|first: Seq<Entry>, second: Seq<Entry>| #[trigger]
                hands_out(self.cells(), self.spec_offset(), first) && #[trigger] hands_out(
                    pc.cells(),
                    pc.spec_offset(),
                    second,
                ) && merges(
                    r->Ok_0,
                    first + second,
                    merged_bounds(
                        if self.spec_has_bounds() { Some(self.spec_bounds()) } else { None },
                        self.spec_offset(),
                        if pc.spec_has_bounds() { Some(pc.spec_bounds()) } else { None },
                        pc.spec_offset(),
                    ),
                ),
    {
        let mut this = self;
        let mut that = pc;
        if this.get_resolution() != that.get_resolution() {
            return Err(MergeError::ResolutionMismatch);
        }
        let resolution = this.get_resolution();
        let new_bounds = if this.has_bounds() && that.has_bounds() {
            let a = shift_box(this.get_bounds(), this.get_offset());
            let b = shift_box(that.get_bounds(), that.get_offset());
            Some(calc_bounds_from_2(a, b))
        } else {
            None
        };
        let mut voxels = this.into_vec_with_offset();
        let ghost first = voxels@;
        let mut others = that.into_vec_with_offset();
        let ghost second = others@;
        voxels.append(&mut others);
        let store = Self::new(voxels, new_bounds, (0, 0, 0), resolution);
        proof {
            assert(hands_out(self.cells(), self.spec_offset(), first));
            assert(hands_out(pc.cells(), pc.spec_offset(), second));
            assert(merges(store, first + second, new_bounds));
        }
        Ok(store)
    }
}

impl<S: VoxelCollection> JoinVoxelCollection for S {

}

/// That `changed` holds the cells of `list`, each with what `f` makes of its
/// voxel.
pub open spec fn changes<F: Fn(Voxel) -> Voxel>(f: F, list: Seq<Entry>, changed: Seq<Entry>) -> bool {
    &&& changed.len() == list.len()
    &&& forall|j: int|
        0 <= j < list.len() ==> (#[trigger] changed[j]).0 == list[j].0 && f.ensures((list[j].1,), changed[j].1)
}

/// That `store` is what building a store from `voxels` and `bounds` gives.
pub open spec fn merges<S: VoxelCollection>(store: S, voxels: Seq<Entry>, bounds: Option<Bounds>) -> bool {
    &&& store.admitted() == S::frame(voxels, bounds)
    &&& store.cells() == put_all(no_cells(), store.admitted(), S::planar(), voxels)
    &&& store.spec_has_bounds() == S::founded(bounds)
    &&& bounds.is_some() ==> store.spec_bounds() == bounds.unwrap()
}

/// The entries with every cell moved by `offset`.
pub fn relocate<V: Copy>(list: Vec<(Point3D, V)>, offset: Point3D) -> (moved: Vec<(Point3D, V)>)
    requires
        forall|i: int| 0 <= i < list@.len() ==> fits((#[trigger] list@[i]).0, offset),
    ensures
        relocates(list@, offset, moved@),
{
    let mut moved: Vec<(Point3D, V)> = Vec::new();
    let mut i: usize = 0;
    while i < list.len()
        invariant
            i <= list.len(),
            forall|j: int| 0 <= j < list@.len() ==> fits((#[trigger] list@[j]).0, offset),
            relocates(list@.take(i as int), offset, moved@),
        decreases list.len() - i,
    {
        let entry: (Point3D, V) = list[i];
        assert(fits(list@[i as int].0, offset));
        moved.push(((entry.0.0 + offset.0, entry.0.1 + offset.1, entry.0.2 + offset.2), entry.1));
        i += 1;
    }
    proof {
        assert(list@.take(list@.len() as int) == list@);
    }
    moved
}

/// The entries with the color that each voxel shows in place of the voxel.
pub fn average_all(list: Vec<Entry>) -> (points: Vec<(Point3D, Color)>)
    ensures
        points@.len() == list@.len(),
        forall|i: int| 0 <= i < list@.len() ==> #[trigger] points@[i] == (list@[i].0, averaged(list@[i].1)),
{
    let mut points: Vec<(Point3D, Color)> = Vec::new();
    let mut i: usize = 0;
    while i < list.len()
        invariant
            i <= list.len(),
            points@.len() == i,
            forall|j: int| 0 <= j < i ==> #[trigger] points@[j] == (list@[j].0, averaged(list@[j].1)),
        decreases list.len() - i,
    {
        let entry: Entry = list[i];
        points.push((entry.0, entry.1.average()));
        i += 1;
    }
    points
}

} // verus!
