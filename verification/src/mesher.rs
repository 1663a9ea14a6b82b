use vstd::prelude::*;
use crate::collection::{colors, is_extent, lists, VoxelCollection};
use crate::element::{Color, Point, Point3D};
use crate::voxel_mesh::{
    accounted, corners_insert, groups_fit, groups_insert, groups_remove, in_reach, lemma_accounted_moved,
    lemma_accounted_push, lemma_resolved_grown, named_by, resolved, Corner, VoxelMesh,
};

verus! {

/// Which faces of a voxel may carry surface: one bit for each of the six
/// directions, and one bit that admits faces on the box around the surface.
#[derive(Clone, Copy, Debug, PartialEq, Eq)]
pub struct ValidSide {
    pub bits: u8,
}

/// The bit of the faces that look up the third axis.
pub const TOP: u8 = 0b0000_0001;

/// The bit of the faces that look down the third axis.
pub const BOTTOM: u8 = 0b0000_0010;

/// The bit of the faces that look down the first axis.
pub const LEFT: u8 = 0b0000_0100;

/// The bit of the faces that look up the first axis.
pub const RIGHT: u8 = 0b0000_1000;

/// The bit of the faces that look up the second axis.
pub const FRONT: u8 = 0b0001_0000;

/// The bit of the faces that look down the second axis.
pub const BACK: u8 = 0b0010_0000;

/// The bit that admits faces with a corner on the box around the surface.
pub const BORDER: u8 = 0b0100_0000;

/// The bit of the direction numbered `dir`, in the order left, right, bottom,
/// top, back, front.
pub open spec fn flag_of(dir: int) -> u8 {
    if dir == 0 {
        LEFT
    } else if dir == 1 {
        RIGHT
    } else if dir == 2 {
        BOTTOM
    } else if dir == 3 {
        TOP
    } else if dir == 4 {
        BACK
    } else {
        FRONT
    }
}

impl ValidSide {
    /// Whether every bit of `flag` is set.
    pub open spec fn holds(&self, flag: u8) -> bool {
        self.bits & flag == flag
    }

    /// The sides with exactly the given bits.
    pub fn from_bits(bits: u8) -> (side: ValidSide)
        ensures
            side.bits == bits,
    {
        ValidSide { bits }
    }

    /// The six directions and the border.
    pub fn all() -> (side: ValidSide)
        ensures
            side.bits == 0b0111_1111,
    {
        ValidSide { bits: 0b0111_1111 }
    }

    /// No direction.
    pub fn empty() -> (side: ValidSide)
        ensures
            side.bits == 0,
    {
        ValidSide { bits: 0 }
    }

    /// The bits.
    pub fn bits(&self) -> (bits: u8)
        ensures
            bits == self.bits,
    {
        self.bits
    }

    /// Whether every bit of `flag` is set.
    pub fn contains(&self, flag: u8) -> (r: bool)
        ensures
            r == self.holds(flag),
    {
        (self.bits & flag) == flag
    }

    /// These sides with the bits of `flag` set.
    pub fn with(&self, flag: u8) -> (side: ValidSide)
        ensures
            side.bits == self.bits | flag,
    {
        ValidSide { bits: self.bits | flag }
    }

    /// These sides with the bits of `flag` cleared.
    pub fn without(&self, flag: u8) -> (side: ValidSide)
        ensures
            side.bits == self.bits & !flag,
    {
        ValidSide { bits: self.bits & !flag }
    }
}

/// A cell as the corner with the least index on each axis.
pub open spec fn base_of(point: Point3D) -> Corner {
    (point.0 as i64, point.1 as i64, point.2 as i64)
}

/// The box around the corners of the cells of a box of cells: one more than the
/// greatest cell on each axis.
pub open spec fn corner_box(bounds: (Point3D, Point3D)) -> (Corner, Corner) {
    (base_of(bounds.0), ((bounds.1.0 + 1) as i64, (bounds.1.1 + 1) as i64, (bounds.1.2 + 1) as i64))
}

/// The four corners of the face of the unit cell in direction `dir`, seen from
/// outside and counted against the clock.
pub open spec fn quad(dir: int, k: int) -> (int, int, int) {
    if dir == 0 {
        if k == 0 { (0, 0, 0) } else if k == 1 { (0, 0, 1) } else if k == 2 { (0, 1, 1) } else { (0, 1, 0) }
    } else if dir == 1 {
        if k == 0 { (1, 0, 0) } else if k == 1 { (1, 1, 0) } else if k == 2 { (1, 1, 1) } else { (1, 0, 1) }
    } else if dir == 2 {
        if k == 0 { (0, 0, 0) } else if k == 1 { (0, 1, 0) } else if k == 2 { (1, 1, 0) } else { (1, 0, 0) }
    } else if dir == 3 {
        if k == 0 { (0, 0, 1) } else if k == 1 { (1, 0, 1) } else if k == 2 { (1, 1, 1) } else { (0, 1, 1) }
    } else if dir == 4 {
        if k == 0 { (0, 0, 0) } else if k == 1 { (1, 0, 0) } else if k == 2 { (1, 0, 1) } else { (0, 0, 1) }
    } else {
        if k == 0 { (1, 1, 1) } else if k == 1 { (1, 1, 0) } else if k == 2 { (0, 1, 0) } else { (0, 1, 1) }
    }
}

/// Which corner of the quad the two triangles of a face name at each of their
/// six places: the first, second, third, then the third, fourth, first.
pub open spec fn winding(place: int) -> int {
    if place == 0 {
        0
    } else if place == 1 {
        1
    } else if place == 2 {
        2
    } else if place == 3 {
        2
    } else if place == 4 {
        3
    } else {
        0
    }
}

/// The corner that the face of cell `point` in direction `dir` names at `place`.
pub open spec fn face_corner(point: Point3D, dir: int, place: int) -> Corner {
    let d = quad(dir, winding(place));
    ((point.0 + d.0) as i64, (point.1 + d.1) as i64, (point.2 + d.2) as i64)
}

/// The six corners that the two triangles of a face name.
pub open spec fn face_corners(point: Point3D, dir: int) -> Seq<Corner> {
    Seq::new(6, |place: int| face_corner(point, dir, place))
}

/// The cell next to `point` in direction `dir`, if its index is in range.
pub open spec fn neighbour(point: Point3D, dir: int) -> Option<Point3D> {
    if dir == 0 {
        point.moved(-1, 0, 0)
    } else if dir == 1 {
        point.moved(1, 0, 0)
    } else if dir == 2 {
        point.moved(0, 0, -1)
    } else if dir == 3 {
        point.moved(0, 0, 1)
    } else if dir == 4 {
        point.moved(0, -1, 0)
    } else {
        point.moved(0, 1, 0)
    }
}

/// Whether the face of `point` in direction `dir` borders empty space.
pub open spec fn exposed(occupied: Set<Point3D>, point: Point3D, dir: int) -> bool {
    match neighbour(point, dir) {
        Some(next) => !occupied.contains(next),
        None => true,
    }
}

/// Whether a corner lies on the box.
pub open spec fn on_border(corner: Corner, bounds: (Corner, Corner)) -> bool {
    corner.0 == bounds.0.0 || corner.0 == bounds.1.0 || corner.1 == bounds.0.1 || corner.1 == bounds.1.1
        || corner.2 == bounds.0.2 || corner.2 == bounds.1.2
}

/// Whether a face has a corner on the box.
pub open spec fn touches_border(point: Point3D, dir: int, bounds: (Corner, Corner)) -> bool {
    exists|place: int| 0 <= place < 6 && on_border(#[trigger] face_corner(point, dir, place), bounds)
}

/// Whether the surface has the face of `point` in direction `dir`: the
/// direction is enabled, the face borders empty space, and unless the border
/// bit is set none of its corners lies on the box.
pub open spec fn wanted(
    occupied: Set<Point3D>,
    bounds: (Corner, Corner),
    side: ValidSide,
    point: Point3D,
    dir: int,
) -> bool {
    &&& side.holds(flag_of(dir))
    &&& exposed(occupied, point, dir)
    &&& side.holds(BORDER) || !touches_border(point, dir, bounds)
}

/// The corners that the faces of one cell name, for the directions below
/// `upto` in the order left, right, bottom, top, back, front.
pub open spec fn cell_corners(
    occupied: Set<Point3D>,
    bounds: (Corner, Corner),
    side: ValidSide,
    point: Point3D,
    upto: int,
) -> Seq<Corner>
    decreases upto,
{
    if upto <= 0 {
        Seq::empty()
    } else {
        cell_corners(occupied, bounds, side, point, upto - 1) + (if wanted(occupied, bounds, side, point, upto - 1) {
            face_corners(point, upto - 1)
        } else {
            Seq::empty()
        })
    }
}

/// The corners that the triangles of one color name, over the first `upto`
/// cells of a listing: cell after cell, the faces of the cells of that color.
pub open spec fn group_corners(
    occupied: Set<Point3D>,
    bounds: (Corner, Corner),
    side: ValidSide,
    list: Seq<(Point3D, Color)>,
    color: Color,
    upto: int,
) -> Seq<Corner>
    decreases upto,
{
    if upto <= 0 {
        Seq::empty()
    } else {
        group_corners(occupied, bounds, side, list, color, upto - 1) + (if list[upto - 1].1 == color {
            cell_corners(occupied, bounds, side, list[upto - 1].0, 6)
        } else {
            Seq::empty()
        })
    }
}

/// That the triangles of the surface are, color by color, the wanted faces of
/// the cells of `list`, and no others.
pub open spec fn surfaces(
    mesh: VoxelMesh,
    occupied: Set<Point3D>,
    side: ValidSide,
    list: Seq<(Point3D, Color)>,
    upto: int,
) -> bool {
    forall|color: Color|
        {
            let named = #[trigger] group_corners(occupied, mesh.spec_bounds(), side, list, color, upto);
            &&& mesh.groups().dom().contains(color) <==> named.len() > 0
            &&& mesh.groups().dom().contains(color) ==> resolved(mesh.corners(), mesh.groups()[color]) == named
        }
}

/// Between two occupied cells that touch there is no face: the face of either
/// cell towards the other is not wanted, whatever the sides allow.
pub proof fn lemma_shared_face_culled(
    occupied: Set<Point3D>,
    bounds: (Corner, Corner),
    side: ValidSide,
    point: Point3D,
    dir: int,
)
    requires
        0 <= dir < 6,
        neighbour(point, dir) is Some,
        occupied.contains(neighbour(point, dir).unwrap()),
    ensures
        !wanted(occupied, bounds, side, point, dir),
        cell_corners(occupied, bounds, side, point, dir + 1) == cell_corners(occupied, bounds, side, point, dir),
{
}

/// A wanted face is named once among the corners of its cell: its six corners
/// stand together, after the faces of the directions before it.
pub proof fn lemma_wanted_face_named(
    occupied: Set<Point3D>,
    bounds: (Corner, Corner),
    side: ValidSide,
    point: Point3D,
    dir: int,
)
    requires
        0 <= dir < 6,
        wanted(occupied, bounds, side, point, dir),
    ensures
        cell_corners(occupied, bounds, side, point, dir + 1) == cell_corners(occupied, bounds, side, point, dir)
            + face_corners(point, dir),
{
}

fn widen(point: Point3D) -> (corner: Corner)
    ensures
        corner == base_of(point),
{
    (point.0 as i64, point.1 as i64, point.2 as i64)
}

fn flag(dir: u8) -> (r: u8)
    requires
        dir < 6,
    ensures
        r == flag_of(dir as int),
{
    if dir == 0 {
        LEFT
    } else if dir == 1 {
        RIGHT
    } else if dir == 2 {
        BOTTOM
    } else if dir == 3 {
        TOP
    } else if dir == 4 {
        BACK
    } else {
        FRONT
    }
}

fn next_to(point: &Point3D, dir: u8) -> (r: Option<Point3D>)
    requires
        dir < 6,
    ensures
        r == neighbour(*point, dir as int),
{
    if dir == 0 {
        point.left()
    } else if dir == 1 {
        point.right()
    } else if dir == 2 {
        point.bottom()
    } else if dir == 3 {
        point.top()
    } else if dir == 4 {
        point.back()
    } else {
        point.front()
    }
}

fn quad_corner(dir: u8, k: u8) -> (d: (i64, i64, i64))
    requires
        dir < 6,
        k < 4,
    ensures
        d.0 == quad(dir as int, k as int).0,
        d.1 == quad(dir as int, k as int).1,
        d.2 == quad(dir as int, k as int).2,
        0 <= d.0 <= 1,
        0 <= d.1 <= 1,
        0 <= d.2 <= 1,
{
    if dir == 0 {
        if k == 0 { (0, 0, 0) } else if k == 1 { (0, 0, 1) } else if k == 2 { (0, 1, 1) } else { (0, 1, 0) }
    } else if dir == 1 {
        if k == 0 { (1, 0, 0) } else if k == 1 { (1, 1, 0) } else if k == 2 { (1, 1, 1) } else { (1, 0, 1) }
    } else if dir == 2 {
        if k == 0 { (0, 0, 0) } else if k == 1 { (0, 1, 0) } else if k == 2 { (1, 1, 0) } else { (1, 0, 0) }
    } else if dir == 3 {
        if k == 0 { (0, 0, 1) } else if k == 1 { (1, 0, 1) } else if k == 2 { (1, 1, 1) } else { (0, 1, 1) }
    } else if dir == 4 {
        if k == 0 { (0, 0, 0) } else if k == 1 { (1, 0, 0) } else if k == 2 { (1, 0, 1) } else { (0, 0, 1) }
    } else {
        if k == 0 { (1, 1, 1) } else if k == 1 { (1, 1, 0) } else if k == 2 { (0, 1, 0) } else { (0, 1, 1) }
    }
}

fn wind(place: u8) -> (k: u8)
    requires
        place < 6,
    ensures
        k == winding(place as int),
        k < 4,
{
    if place == 0 {
        0
    } else if place == 1 {
        1
    } else if place == 2 {
        2
    } else if place == 3 {
        2
    } else if place == 4 {
        3
    } else {
        0
    }
}

fn corner_of(point: &Point3D, dir: u8, place: u8) -> (corner: Corner)
    requires
        dir < 6,
        place < 6,
    ensures
        corner == face_corner(*point, dir as int, place as int),
        in_reach(corner),
{
    let d = quad_corner(dir, wind(place));
    (point.0 as i64 + d.0, point.1 as i64 + d.1, point.2 as i64 + d.2)
}

fn is_on_border(corner: &Corner, bounds: &(Corner, Corner)) -> (r: bool)
    ensures
        r == on_border(*corner, *bounds),
{
    corner.0 == bounds.0.0 || corner.0 == bounds.1.0 || corner.1 == bounds.0.1 || corner.1 == bounds.1.1
        || corner.2 == bounds.0.2 || corner.2 == bounds.1.2
}

fn face_touches_border(point: &Point3D, dir: u8, bounds: &(Corner, Corner)) -> (r: bool)
    requires
        dir < 6,
    ensures
        r == touches_border(*point, dir as int, *bounds),
{
    let mut place: u8 = 0;
    while place < 6
        invariant
            place <= 6,
            dir < 6,
            forall|j: int| 0 <= j < place ==> !on_border(#[trigger] face_corner(*point, dir as int, j), *bounds),
        decreases 6 - place,
    {
        let corner = corner_of(point, dir, place);
        if is_on_border(&corner, bounds) {
            return true;
        }
        place += 1;
    }
    false
}

/// The maker of surfaces.
pub struct Mesher;

impl Mesher {
    /// The surface of a store: for every occupied cell and every enabled
    /// direction in which the next cell is not occupied, two triangles over the
    /// corners of that face, grouped by the color the cell shows. Unless the
    /// border bit is set, faces with a corner on the box around the surface are
    /// left out. The box reaches one past the box of the store, where the far
    /// corners of its cells lie; for a store that does not know its box, that
    /// is the smallest box around its cells.
    pub fn meshing<VCF: VoxelCollection>(vc: VCF, valid_side: ValidSide) -> (mesh: VoxelMesh)
        requires
            vc.wf(),
        ensures
            mesh.wf(),
            mesh.all_named(),
            mesh.spec_bounds() == corner_box(vc.spec_bounds()),
            !vc.spec_has_bounds() ==> is_extent(vc.cells(), vc.spec_bounds()),
            mesh.spec_offset() == vc.spec_offset(),
            mesh.spec_resolution() == vc.spec_resolution(),
            exists|list: Seq<(Point3D, Color)>| #[trigger]
                lists(colors(vc.cells()), list) && surfaces(
                    mesh,
                    vc.cells().dom(),
                    valid_side,
                    list,
                    list.len() as int,
                ),
    {
        let mut vc = vc;
        let store_bounds = vc.get_bounds();
        let low: Corner = widen(store_bounds.0);
        let high: Corner = (
            store_bounds.1.0 as i64 + 1,
            store_bounds.1.1 as i64 + 1,
            store_bounds.1.2 as i64 + 1,
        );
        let bounds: (Corner, Corner) = (low, high);
        let mut mesh = VoxelMesh::empty(bounds, vc.get_offset(), vc.get_resolution());
        let points = vc.to_points();
        let ghost occupied = vc.cells().dom();
        let mut i: usize = 0;
        while i < points.len()
            invariant
                i <= points.len(),
                vc.wf(),
                occupied == vc.cells().dom(),
                mesh.wf(),
                mesh.all_named(),
                mesh.bounds == bounds,
                mesh.spec_offset() == vc.spec_offset(),
                mesh.spec_resolution() == vc.spec_resolution(),
                surfaces(mesh, occupied, valid_side, points@, i as int),
            decreases points.len() - i,
        {
            let point: Point3D = points[i].0;
            let color: Color = points[i].1;
            let ghost corners_0 = mesh.corners();
            let ghost groups_0 = mesh.groups();
            let mut unit: Vec<usize> = Vec::new();
            let mut dir: u8 = 0;
            proof {
                assert forall|j: int| 0 <= j < corners_0.len() implies #[trigger] accounted(groups_0, unit@, j) by {
                    assert(named_by(groups_0, j));
                }
            }
            while dir < 6
                invariant
                    dir <= 6,
                    forall|j: int| 0 <= j < mesh.corners().len() ==> #[trigger] accounted(groups_0, unit@, j),
                    vc.wf(),
                    occupied == vc.cells().dom(),
                    mesh.bounds == bounds,
                    mesh.spec_offset() == vc.spec_offset(),
                    mesh.spec_resolution() == vc.spec_resolution(),
                    mesh.groups() == groups_0,
                    mesh.corners().no_duplicates(),
                    forall|j: int| 0 <= j < mesh.corners().len() ==> in_reach(#[trigger] mesh.corners()[j]),
                    corners_0.len() <= mesh.corners().len(),
                    mesh.corners().take(corners_0.len() as int) == corners_0,
                    forall|k: int| 0 <= k < unit@.len() ==> #[trigger] unit@[k] < mesh.corners().len(),
                    unit@.len() % 6 == 0,
                    resolved(mesh.corners(), unit@) == cell_corners(occupied, bounds, valid_side, point, dir as int),
                decreases 6 - dir,
            {
                let enabled = valid_side.contains(flag(dir));
                let required = enabled && match next_to(&point, dir) {
                    Some(next) => !vc.has(&next),
                    None => true,
                };
                let take = required && (valid_side.contains(BORDER) || !face_touches_border(&point, dir, &bounds));
                assert(take == wanted(occupied, bounds, valid_side, point, dir as int));
                if take {
                    let ghost unit_0 = unit@;
                    let ghost corners_1 = mesh.corners();
                    let mut place: u8 = 0;
                    while place < 6
                        invariant
                            place <= 6,
                            dir < 6,
                            forall|j: int| 0 <= j < mesh.corners().len() ==> #[trigger] accounted(groups_0, unit@, j),
                            mesh.bounds == bounds,
                            mesh.spec_offset() == vc.spec_offset(),
                            mesh.spec_resolution() == vc.spec_resolution(),
                            mesh.groups() == groups_0,
                            mesh.corners().no_duplicates(),
                            forall|j: int| 0 <= j < mesh.corners().len() ==> in_reach(#[trigger] mesh.corners()[j]),
                            corners_1.len() <= mesh.corners().len(),
                            mesh.corners().take(corners_1.len() as int) == corners_1,
                            forall|k: int| 0 <= k < unit@.len() ==> #[trigger] unit@[k] < mesh.corners().len(),
                            forall|k: int| 0 <= k < unit_0.len() ==> #[trigger] unit_0[k] < corners_1.len(),
                            unit@.len() == unit_0.len() + place,
                            unit@.take(unit_0.len() as int) == unit_0,
                            forall|j: int|
                                0 <= j < place ==> mesh.corners()[(#[trigger] unit@[unit_0.len() + j]) as int]
                                    == face_corner(point, dir as int, j),
                        decreases 6 - place,
                    {
                        let corner = corner_of(&point, dir, place);
                        let ghost corners_2 = mesh.corners();
                        let ghost unit_2 = unit@;
                        let (index, _fresh) = corners_insert(&mut mesh.points, corner);
                        unit.push(index);
                        proof {
                            let now = mesh.corners();
                            lemma_accounted_push(groups_0, unit_2, index, corners_2.len() as int, now.len() as int);
                            assert(now.take(corners_2.len() as int) == corners_2);
                            assert(now.take(corners_1.len() as int) == corners_2.take(corners_1.len() as int));
                            assert(unit@.take(unit_0.len() as int) == unit_2.take(unit_0.len() as int));
                            assert forall|j: int| 0 <= j < place + 1 implies now[(#[trigger] unit@[unit_0.len()
                                + j]) as int] == face_corner(point, dir as int, j) by {
                                if j < place {
                                    assert(unit@[unit_0.len() + j] == unit_2[unit_0.len() + j]);
                                    assert(now.take(corners_2.len() as int)[unit_2[unit_0.len() + j] as int]
                                        == now[unit_2[unit_0.len() + j] as int]);
                                }
                            }
                            if !corners_2.contains(corner) {
                                assert forall|a: int, b: int| 0 <= a < now.len() && 0 <= b < now.len() && a
                                    != b implies now[a] != now[b] by {
                                    if a == corners_2.len() {
                                        if now[b] == corner {
                                            assert(corners_2[b] == corner);
                                            assert(corners_2.contains(corner));
                                        }
                                    } else if b == corners_2.len() {
                                        if now[a] == corner {
                                            assert(corners_2[a] == corner);
                                            assert(corners_2.contains(corner));
                                        }
                                    } else {
                                        assert(corners_2[a] != corners_2[b]);
                                    }
                                }
                            }
                        }
                        place += 1;
                    }
                    proof {
                        let now = mesh.corners();
                        lemma_resolved_grown(corners_1, now, unit_0);
                        assert(resolved(now, unit@) =~= resolved(corners_1, unit_0) + face_corners(point, dir as int))
                            by {
                            assert forall|k: int| 0 <= k < unit@.len() implies #[trigger] resolved(now, unit@)[k] == (
                            resolved(corners_1, unit_0) + face_corners(point, dir as int))[k] by {
                                if k < unit_0.len() {
                                    assert(unit@.take(unit_0.len() as int)[k] == unit@[k]);
                                    assert(resolved(now, unit_0)[k] == resolved(corners_1, unit_0)[k]);
                                } else {
                                    let j = k - unit_0.len();
                                    assert(unit@[unit_0.len() + j] == unit@[k]);
                                }
                            }
                        }
                        assert(now.take(corners_0.len() as int) == corners_1.take(corners_0.len() as int));
                    }
                }
                dir += 1;
            }
            proof {
                let now = mesh.corners();
                assert forall|c: Color| #[trigger] groups_0.dom().contains(c) implies resolved(now, groups_0[c])
                    == resolved(corners_0, groups_0[c]) by {
                    lemma_resolved_grown(corners_0, now, groups_0[c]);
                }
            }
            let ghost unit_whole = unit@;
            if unit.len() > 0 {
                let ghost unit_all = unit@;
                match groups_remove(&mut mesh.faces, &color) {
                    Some(list) => {
                        let mut list = list;
                        let ghost list_0 = list@;
                        list.append(&mut unit);
                        proof {
                            assert(resolved(mesh.corners(), list@) =~= resolved(mesh.corners(), list_0) + resolved(
                                mesh.corners(),
                                unit_all,
                            ));
                        }
                        groups_insert(&mut mesh.faces, color, list);
                    },
                    None => {
                        proof {
                            assert(group_corners(occupied, bounds, valid_side, points@, color, i as int).len() == 0);
                            assert(group_corners(occupied, bounds, valid_side, points@, color, i as int)
                                + resolved(mesh.corners(), unit_all) =~= resolved(mesh.corners(), unit_all));
                        }
                        groups_insert(&mut mesh.faces, color, unit);
                    },
                }
                proof {
                    assert(mesh.groups() =~= groups_0.insert(color, mesh.groups()[color]));
                    lemma_accounted_moved(
                        groups_0,
                        unit_whole,
                        color,
                        mesh.groups()[color],
                        mesh.corners().len() as int,
                    );
                }
            } else {
                proof {
                    assert forall|j: int| 0 <= j < mesh.corners().len() implies #[trigger] named_by(
                        mesh.groups(),
                        j,
                    ) by {
                        assert(accounted(groups_0, unit_whole, j));
                    }
                }
            }
            proof {
                assert forall|c: Color|
                    {
                        let named = #[trigger] group_corners(occupied, mesh.spec_bounds(), valid_side, points@, c, i + 1);
                        &&& mesh.groups().dom().contains(c) <==> named.len() > 0
                        &&& mesh.groups().dom().contains(c) ==> resolved(mesh.corners(), mesh.groups()[c]) == named
                    } by {
                    let before = group_corners(occupied, bounds, valid_side, points@, c, i as int);
                    if c != color {
                        assert(group_corners(occupied, bounds, valid_side, points@, c, i + 1) =~= before);
                    }
                }
                assert(groups_fit(mesh.groups(), mesh.corners().len() as int));
            }
            i += 1;
        }
        mesh
    }
}

} // verus!
