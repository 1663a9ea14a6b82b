use vstd::prelude::*;
use crate::element::{Color, Meters, Point3D};
use dashmap::DashMap;
use fxhash::FxBuildHasher;
use indexmap::IndexSet;

verus! {

/// A corner of a cell. Corners lie one past the greatest cell index on each axis,
/// so they are held in a wider type than the cells.
pub type Corner = (i64, i64, i64);

/// The corners an insertion-ordered set holds, in the order in which they were
/// first inserted.
pub uninterp spec fn corners_of(set: IndexSet<Corner, FxBuildHasher>) -> Seq<Corner>;

/// The index lists a sharded map holds, by color.
pub uninterp spec fn groups_of(map: DashMap<Color, Vec<usize>, FxBuildHasher>) -> Map<Color, Seq<usize>>;

/// No corners.
pub open spec fn no_corners() -> Seq<Corner> {
    Seq::empty()
}

/// No groups.
pub open spec fn no_groups() -> Map<Color, Seq<usize>> {
    Map::empty()
}

/// `IndexSet::with_hasher`: a set that holds nothing.
#[verifier::external_body]
pub(crate) fn corners_new() -> (set: IndexSet<Corner, FxBuildHasher>)
    ensures
        corners_of(set) == no_corners(),
{
    IndexSet::with_hasher(FxBuildHasher::default())
}

/// `IndexSet::insert_full`: a corner the set already holds stays where it is and
/// its index comes back with `false`; a new corner goes to the end and its index
/// comes back with `true`.
#[verifier::external_body]
pub(crate) fn corners_insert(set: &mut IndexSet<Corner, FxBuildHasher>, corner: Corner) -> (r: (usize, bool))
    ensures
        corners_of(*old(set)).contains(corner) ==> !r.1 && corners_of(*final(set)) == corners_of(*old(set))
            && r.0 < corners_of(*old(set)).len() && corners_of(*old(set))[r.0 as int] == corner,
        !corners_of(*old(set)).contains(corner) ==> r.1 && corners_of(*final(set)) == corners_of(
            *old(set),
        ).push(corner) && r.0 == corners_of(*old(set)).len(),
{
    set.insert_full(corner)
}

/// `IndexSet::len`: how many corners the set holds.
#[verifier::external_body]
pub(crate) fn corners_len(set: &IndexSet<Corner, FxBuildHasher>) -> (n: usize)
    ensures
        n == corners_of(*set).len(),
{
    set.len()
}

/// `IndexSet::get_index`: the corner at an index, if the index is below the length.
#[verifier::external_body]
pub(crate) fn corners_get(set: &IndexSet<Corner, FxBuildHasher>, index: usize) -> (r: Option<Corner>)
    ensures
        r == (if index < corners_of(*set).len() {
            Some(corners_of(*set)[index as int])
        } else {
            None
        }),
{
    set.get_index(index).copied()
}

/// `DashMap::with_hasher`: a map that holds nothing.
#[verifier::external_body]
pub(crate) fn groups_new() -> (map: DashMap<Color, Vec<usize>, FxBuildHasher>)
    ensures
        groups_of(map) == no_groups(),
{
    DashMap::with_hasher(FxBuildHasher::default())
}

/// `DashMap::remove`: takes the list of a color out of the map and hands it over,
/// if the map holds one.
#[verifier::external_body]
pub(crate) fn groups_remove(map: &mut DashMap<Color, Vec<usize>, FxBuildHasher>, color: &Color) -> (r: Option<Vec<usize>>)
    ensures
        groups_of(*final(map)) == groups_of(*old(map)).remove(*color),
        groups_of(*old(map)).dom().contains(*color) ==> r.is_some() && r.unwrap()@ == groups_of(*old(map))[*color],
        !groups_of(*old(map)).dom().contains(*color) ==> r.is_none(),
{
    map.remove(color).map(|entry| entry.1)
}

/// `DashMap::insert`: sets the list of a color, in place of the one it had.
#[verifier::external_body]
pub(crate) fn groups_insert(map: &mut DashMap<Color, Vec<usize>, FxBuildHasher>, color: Color, indices: Vec<usize>)
    ensures
        groups_of(*final(map)) == groups_of(*old(map)).insert(color, indices@),
{
    map.insert(color, indices);
}

/// `DashMap::iter`: every color of the map once, with a copy of its list, in an
/// order that the map does not promise.
#[verifier::external_body]
pub(crate) fn groups_to_vec(map: &DashMap<Color, Vec<usize>, FxBuildHasher>) -> (r: Vec<(Color, Vec<usize>)>)
    ensures
        lists_groups(groups_of(*map), r@),
{
    map.iter().map(|entry| (*entry.key(), entry.value().clone())).collect()
}

/// That `list` names every color of `groups` exactly once, each with its indices.
pub open spec fn lists_groups(groups: Map<Color, Seq<usize>>, list: Seq<(Color, Vec<usize>)>) -> bool {
    &&& forall|i: int, j: int| 0 <= i < j < list.len() ==> (#[trigger] list[i]).0 != (#[trigger] list[j]).0
    &&& forall|i: int|
        0 <= i < list.len() ==> groups.dom().contains((#[trigger] list[i]).0) && groups[list[i].0] == list[i].1@
    &&& forall|color: Color| #[trigger]
        groups.dom().contains(color) ==> exists|i: int| 0 <= i < list.len() && (#[trigger] list[i]).0 == color
}

/// That every index of every group points at a corner and the groups are made of
/// triangles.
pub open spec fn groups_fit(groups: Map<Color, Seq<usize>>, corners: int) -> bool {
    forall|color: Color| #[trigger]
        groups.dom().contains(color) ==> groups[color].len() % 3 == 0 && forall|k: int|
            0 <= k < groups[color].len() ==> #[trigger] groups[color][k] < corners
}

/// Whether a corner lies where corners of cells can lie.
pub open spec fn in_reach(corner: Corner) -> bool {
    &&& i32::MIN <= corner.0 <= i32::MAX + 1
    &&& i32::MIN <= corner.1 <= i32::MAX + 1
    &&& i32::MIN <= corner.2 <= i32::MAX + 1
}

/// The corners that a list of indices names.
pub open spec fn resolved(corners: Seq<Corner>, indices: Seq<usize>) -> Seq<Corner> {
    Seq::new(indices.len(), |k: int| corners[indices[k] as int])
}

/// Whether a list of indices holds the index.
pub open spec fn named_in(list: Seq<usize>, index: int) -> bool {
    exists|k: int| 0 <= k < list.len() && #[trigger] list[k] == index
}

/// Whether a triangle of some color names the corner with the index.
pub open spec fn named_by(groups: Map<Color, Seq<usize>>, index: int) -> bool {
    exists|color: Color| #[trigger] groups.dom().contains(color) && named_in(groups[color], index)
}

/// Whether a triangle of some color or the list names the corner with the
/// index.
pub open spec fn accounted(groups: Map<Color, Seq<usize>>, list: Seq<usize>, index: int) -> bool {
    named_by(groups, index) || named_in(list, index)
}

/// Whether one of the first `upto` groups names the corner.
pub open spec fn used(corners: Seq<Corner>, groups: Seq<(Color, Seq<usize>)>, upto: int, corner: Corner) -> bool {
    exists|i: int, k: int|
        0 <= i < upto && 0 <= k < groups[i].1.len() && corners[(#[trigger] groups[i].1[k]) as int] == corner
}

/// Whether one of the first `upto` groups has the color.
pub open spec fn colored(groups: Seq<(Color, Seq<usize>)>, upto: int, color: Color) -> bool {
    exists|i: int| 0 <= i < upto && (#[trigger] groups[i]).0 == color
}

/// Whether corners, triangles by color and a box can make a surface.
pub open spec fn sound(corners: Seq<Corner>, groups: Seq<(Color, Seq<usize>)>, bounds: (Corner, Corner)) -> bool {
    &&& in_reach(bounds.0)
    &&& in_reach(bounds.1)
    &&& forall|j: int| 0 <= j < corners.len() ==> in_reach(#[trigger] corners[j])
    &&& forall|i: int, k: int|
        0 <= i < groups.len() && 0 <= k < groups[i].1.len() ==> (#[trigger] groups[i].1[k]) < corners.len()
    &&& forall|i: int| 0 <= i < groups.len() ==> (#[trigger] groups[i]).1.len() % 3 == 0
    &&& forall|i: int, j: int| 0 <= i < j < groups.len() ==> (#[trigger] groups[i]).0 != (#[trigger] groups[j]).0
}

/// That the surface has the colors of the first `upto` groups, that the
/// triangles of each color name the corners that the group names, and that the
/// surface has no corner that no group names.
pub open spec fn rebuilds(mesh: VoxelMesh, corners: Seq<Corner>, groups: Seq<(Color, Seq<usize>)>, upto: int) -> bool {
    &&& forall|color: Color| #[trigger] mesh.groups().dom().contains(color) <==> colored(groups, upto, color)
    &&& forall|i: int|
        0 <= i < upto ==> resolved(mesh.corners(), mesh.groups()[(#[trigger] groups[i]).0]) == resolved(
            corners,
            groups[i].1,
        )
    &&& forall|j: int| 0 <= j < mesh.corners().len() ==> used(corners, groups, upto, #[trigger] mesh.corners()[j])
}

/// A list of indices in the width of list lengths.
pub open spec fn wide_list(list: Seq<u32>) -> Seq<usize> {
    Seq::new(list.len(), |k: int| list[k] as usize)
}

/// The colors of the groups, each with its indices as a plain list.
pub open spec fn deep(groups: Seq<(Color, Vec<usize>)>) -> Seq<(Color, Seq<usize>)> {
    Seq::new(groups.len(), |i: int| (groups[i].0, groups[i].1@))
}

/// The colors of the survivors, each with its indices as a plain list.
pub open spec fn wide(survivors: Seq<(Color, Vec<u32>)>) -> Seq<(Color, Seq<usize>)> {
    Seq::new(survivors.len(), |i: int| (survivors[i].0, wide_list(survivors[i].1@)))
}

/// A surface over voxels: the corners it uses, each once and in the order of
/// first use, and for each color the triangles of that color, three corner
/// indices each.
pub struct VoxelMesh {
    pub bounds: (Corner, Corner),
    pub offset: Point3D,
    pub points: IndexSet<Corner, FxBuildHasher>,
    pub faces: DashMap<Color, Vec<usize>, FxBuildHasher>,
    pub resolution: Meters,
}

impl VoxelMesh {
    /// The corners, in index order.
    pub open spec fn corners(&self) -> Seq<Corner> {
        corners_of(self.points)
    }

    /// The corner indices of the triangles, by color.
    pub open spec fn groups(&self) -> Map<Color, Seq<usize>> {
        groups_of(self.faces)
    }

    /// The least and the greatest corner of the box around the surface.
    pub open spec fn spec_bounds(&self) -> (Corner, Corner) {
        self.bounds
    }

    /// The translation that places the surface.
    pub open spec fn spec_offset(&self) -> Point3D {
        self.offset
    }

    /// The edge length of a cell.
    pub open spec fn spec_resolution(&self) -> Meters {
        self.resolution
    }

    /// No corner occurs twice, and every triangle index points at a corner.
    pub open spec fn wf(&self) -> bool {
        &&& self.corners().no_duplicates()
        &&& forall|i: int| 0 <= i < self.corners().len() ==> in_reach(#[trigger] self.corners()[i])
        &&& in_reach(self.spec_bounds().0)
        &&& in_reach(self.spec_bounds().1)
        &&& groups_fit(self.groups(), self.corners().len() as int)
    }

    /// Every corner is named by a triangle.
    pub open spec fn all_named(&self) -> bool {
        forall|j: int| 0 <= j < self.corners().len() ==> #[trigger] named_by(self.groups(), j)
    }

    /// A surface without corners or triangles.
    pub fn empty(bounds: (Corner, Corner), offset: Point3D, resolution: Meters) -> (mesh: VoxelMesh)
        requires
            in_reach(bounds.0),
            in_reach(bounds.1),
        ensures
            mesh.wf(),
            mesh.corners() == no_corners(),
            mesh.groups() == no_groups(),
            mesh.spec_bounds() == bounds,
            mesh.spec_offset() == offset,
            mesh.spec_resolution() == resolution,
    {
        VoxelMesh { bounds, offset, points: corners_new(), faces: groups_new(), resolution }
    }

    /// The box around the surface.
    pub fn bounds(&self) -> (r: (Corner, Corner))
        ensures
            r == self.spec_bounds(),
    {
        self.bounds
    }

    /// The translation that places the surface.
    pub fn offset(&self) -> (r: Point3D)
        ensures
            r == self.spec_offset(),
    {
        self.offset
    }

    /// The edge length of a cell.
    pub fn resolution(&self) -> (r: Meters)
        ensures
            r == self.spec_resolution(),
    {
        self.resolution
    }

    /// The corners, in index order.
    pub fn vertices(&self) -> (r: Vec<Corner>)
        ensures
            r@ == self.corners(),
    {
        let n: usize = corners_len(&self.points);
        let mut out: Vec<Corner> = Vec::new();
        let mut i: usize = 0;
        while i < n
            invariant
                i <= n,
                n == corners_of(self.points).len(),
                out@ == corners_of(self.points).take(i as int),
            decreases n - i,
        {
            match corners_get(&self.points, i) {
                Some(corner) => {
                    out.push(corner);
                },
                None => {},
            }
            proof {
                assert(corners_of(self.points).take(i + 1) == corners_of(self.points).take(i as int).push(
                    corners_of(self.points)[i as int],
                ));
            }
            i += 1;
        }
        proof {
            assert(corners_of(self.points).take(n as int) == corners_of(self.points));
        }
        out
    }

    /// The triangles by color: each color once, in an order that is not promised,
    /// with the corner indices of its triangles.
    pub fn into_groups(self) -> (r: Vec<(Color, Vec<usize>)>)
        ensures
            lists_groups(self.groups(), r@),
    {
        groups_to_vec(&self.faces)
    }

    /// The triangles by color: each color once, in an order that is not promised,
    /// with the corner indices of its triangles.
    pub fn to_groups(&self) -> (r: Vec<(Color, Vec<usize>)>)
        ensures
            lists_groups(self.groups(), r@),
    {
        groups_to_vec(&self.faces)
    }

    /// The surface of given corners and triangles by color, if they make one:
    /// the corners and the box must lie where corners of cells can lie, every
    /// index must name a corner, every list must be made of triangles, and no
    /// color may occur twice. The surface keeps the corners that the triangles
    /// use, each once, and numbers them anew.
    pub fn from_parts(
        corners: &Vec<Corner>,
        groups: Vec<(Color, Vec<usize>)>,
        bounds: (Corner, Corner),
        offset: Point3D,
        resolution: Meters,
    ) -> (r: Option<VoxelMesh>)
        ensures
            r is Some <==> sound(corners@, deep(groups@), bounds),
            r is Some ==> {
                &&& r->Some_0.wf()
                &&& r->Some_0.spec_bounds() == bounds
                &&& r->Some_0.spec_offset() == offset
                &&& r->Some_0.spec_resolution() == resolution
                &&& rebuilds(r->Some_0, corners@, deep(groups@), groups@.len() as int)
                &&& r->Some_0.all_named()
            },
    {
        if !check_parts(corners, &groups, &bounds) {
            return None;
        }
        let mut mesh = VoxelMesh::empty(bounds, offset, resolution);
        let ghost gs = deep(groups@);
        let mut i: usize = 0;
        while i < groups.len()
            invariant
                i <= groups@.len(),
                gs == deep(groups@),
                sound(corners@, gs, bounds),
                mesh.wf(),
                mesh.bounds == bounds,
                mesh.offset == offset,
                mesh.resolution == resolution,
                rebuilds(mesh, corners@, gs, i as int),
            decreases groups@.len() - i,
        {
            let color: Color = groups[i].0;
            let ghost corners_0 = mesh.corners();
            let ghost groups_0 = mesh.groups();
            let ghost ids = groups@[i as int].1@;
            assert(gs[i as int] == (color, ids));
            let mut list: Vec<usize> = Vec::new();
            let mut k: usize = 0;
            while k < groups[i].1.len()
                invariant
                    i < groups@.len(),
                    k <= ids.len(),
                    ids == groups@[i as int].1@,
                    gs[i as int].1 == ids,
                    gs.len() == groups@.len(),
                    sound(corners@, gs, bounds),
                    mesh.bounds == bounds,
                    mesh.offset == offset,
                    mesh.resolution == resolution,
                    mesh.groups() == groups_0,
                    mesh.corners().no_duplicates(),
                    forall|j: int| 0 <= j < mesh.corners().len() ==> in_reach(#[trigger] mesh.corners()[j]),
                    forall|j: int| 0 <= j < mesh.corners().len() ==> used(corners@, gs, i + 1, #[trigger] mesh.corners()[j]),
                    corners_0.len() <= mesh.corners().len(),
                    mesh.corners().take(corners_0.len() as int) == corners_0,
                    list@.len() == k,
                    forall|j: int|
                        0 <= j < k ==> (#[trigger] list@[j]) < mesh.corners().len() && mesh.corners()[list@[j] as int]
                            == corners@[ids[j] as int],
                decreases ids.len() - k,
            {
                let id: usize = groups[i].1[k];
                assert(gs[i as int].1[k as int] < corners@.len());
                let corner: Corner = corners[id];
                let ghost corners_1 = mesh.corners();
                let ghost list_1 = list@;
                let (index, _fresh) = corners_insert(&mut mesh.points, corner);
                list.push(index);
                proof {
                    let now = mesh.corners();
                    assert(now.take(corners_1.len() as int) == corners_1);
                    assert(now.take(corners_0.len() as int) == corners_1.take(corners_0.len() as int));
                    assert(used(corners@, gs, i + 1, corner)) by {
                        assert(corners@[gs[i as int].1[k as int] as int] == corner);
                    }
                    assert forall|j: int| 0 <= j < now.len() implies in_reach(#[trigger] now[j]) && used(
                        corners@,
                        gs,
                        i + 1,
                        now[j],
                    ) by {
                        if j < corners_1.len() {
                            assert(now.take(corners_1.len() as int)[j] == now[j]);
                        }
                    }
                    assert forall|j: int| 0 <= j < k + 1 implies (#[trigger] list@[j]) < now.len() && now[list@[j] as int]
                        == corners@[ids[j] as int] by {
                        if j < k {
                            assert(list@[j] == list_1[j]);
                            assert(now.take(corners_1.len() as int)[list_1[j] as int] == now[list_1[j] as int]);
                        }
                    }
                    if !corners_1.contains(corner) {
                        assert forall|a: int, b: int| 0 <= a < now.len() && 0 <= b < now.len() && a != b implies now[a]
                            != now[b] by {
                            if a == corners_1.len() {
                                if now[b] == corner {
                                    assert(corners_1[b] == corner);
                                    assert(corners_1.contains(corner));
                                }
                            } else if b == corners_1.len() {
                                if now[a] == corner {
                                    assert(corners_1[a] == corner);
                                    assert(corners_1.contains(corner));
                                }
                            } else {
                                assert(corners_1[a] != corners_1[b]);
                            }
                        }
                    }
                }
                k += 1;
            }
            let ghost list_all = list@;
            groups_insert(&mut mesh.faces, color, list);
            proof {
                lemma_rebuilds_step(mesh, corners@, gs, bounds, i as int, corners_0, groups_0, list_all);
            }
            i += 1;
        }
        proof {
            lemma_rebuilt_named(mesh, corners@, gs);
        }
        Some(mesh)
    }

    /// The surface that is left of this one when, of each color, only the
    /// triangles with the given corner indices survive. The indices are those of
    /// this surface; the new surface numbers the corners that are still used
    /// anew. There is no such surface if an index
    /// names no corner, a list is not made of triangles, or a color occurs
    /// twice.
    pub fn simplify(self, survivors: Vec<(Color, Vec<u32>)>) -> (r: Option<VoxelMesh>)
        requires
            self.wf(),
        ensures
            r is Some <==> sound(self.corners(), wide(survivors@), self.spec_bounds()),
            r is Some ==> {
                &&& r->Some_0.wf()
                &&& r->Some_0.spec_bounds() == self.spec_bounds()
                &&& r->Some_0.spec_offset() == self.spec_offset()
                &&& r->Some_0.spec_resolution() == self.spec_resolution()
                &&& rebuilds(r->Some_0, self.corners(), wide(survivors@), survivors@.len() as int)
                &&& r->Some_0.all_named()
            },
    {
        let corners = self.vertices();
        let mut groups: Vec<(Color, Vec<usize>)> = Vec::new();
        let mut i: usize = 0;
        while i < survivors.len()
            invariant
                i <= survivors@.len(),
                groups@.len() == i,
                forall|j: int|
                    0 <= j < i ==> (#[trigger] groups@[j]).0 == survivors@[j].0 && groups@[j].1@ == wide_list(
                        survivors@[j].1@,
                    ),
            decreases survivors@.len() - i,
        {
            let mut list: Vec<usize> = Vec::new();
            let mut k: usize = 0;
            while k < survivors[i].1.len()
                invariant
                    i < survivors@.len(),
                    k <= survivors@[i as int].1@.len(),
                    list@.len() == k,
                    forall|j: int| 0 <= j < k ==> #[trigger] list@[j] == survivors@[i as int].1@[j],
                decreases survivors@[i as int].1@.len() - k,
            {
                list.push(survivors[i].1[k] as usize);
                k += 1;
            }
            proof {
                assert(list@ =~= wide_list(survivors@[i as int].1@));
            }
            groups.push((survivors[i].0, list));
            i += 1;
        }
        proof {
            assert(deep(groups@) =~= wide(survivors@));
        }
        Self::from_parts(&corners, groups, self.bounds, self.offset, self.resolution)
    }
}

/// Whether one corner lies where corners of cells can lie.
fn reaches(corner: &Corner) -> (r: bool)
    ensures
        r == in_reach(*corner),
{
    -2147483648 <= corner.0 && corner.0 <= 2147483648 && -2147483648 <= corner.1 && corner.1 <= 2147483648
        && -2147483648 <= corner.2 && corner.2 <= 2147483648
}

/// Whether corners, triangles by color and a box can make a surface.
fn check_parts(corners: &Vec<Corner>, groups: &Vec<(Color, Vec<usize>)>, bounds: &(Corner, Corner)) -> (r: bool)
    ensures
        r == sound(corners@, deep(groups@), *bounds),
{
    let ghost gs = deep(groups@);
    if !reaches(&bounds.0) || !reaches(&bounds.1) {
        return false;
    }
    let mut j: usize = 0;
    while j < corners.len()
        invariant
            j <= corners@.len(),
            forall|a: int| 0 <= a < j ==> in_reach(#[trigger] corners@[a]),
        decreases corners@.len() - j,
    {
        if !reaches(&corners[j]) {
            return false;
        }
        j += 1;
    }
    let mut i: usize = 0;
    while i < groups.len()
        invariant
            i <= groups@.len(),
            gs == deep(groups@),
            forall|a: int, k: int| 0 <= a < i && 0 <= k < gs[a].1.len() ==> (#[trigger] gs[a].1[k]) < corners@.len(),
            forall|a: int| 0 <= a < i ==> (#[trigger] gs[a]).1.len() % 3 == 0,
            forall|a: int, b: int| 0 <= a < b < i ==> (#[trigger] gs[a]).0 != (#[trigger] gs[b]).0,
        decreases groups@.len() - i,
    {
        assert(gs[i as int] == (groups@[i as int].0, groups@[i as int].1@));
        if groups[i].1.len() % 3 != 0 {
            return false;
        }
        let mut k: usize = 0;
        while k < groups[i].1.len()
            invariant
                i < groups@.len(),
                gs == deep(groups@),
                k <= groups@[i as int].1@.len(),
                forall|c: int| 0 <= c < k ==> (#[trigger] gs[i as int].1[c]) < corners@.len(),
            decreases groups@[i as int].1@.len() - k,
        {
            if groups[i].1[k] >= corners.len() {
                assert(!(gs[i as int].1[k as int] < corners@.len()));
                return false;
            }
            k += 1;
        }
        let color: Color = groups[i].0;
        let mut b: usize = 0;
        while b < i
            invariant
                b <= i < groups@.len(),
                gs == deep(groups@),
                color == gs[i as int].0,
                forall|a: int| 0 <= a < b ==> (#[trigger] gs[a]).0 != color,
            decreases i - b,
        {
            let other: Color = groups[b].0;
            assert(gs[b as int].0 == other);
            if other.0 == color.0 && other.1 == color.1 && other.2 == color.2 {
                assert(gs[b as int].0 == gs[i as int].0);
                return false;
            }
            b += 1;
        }
        i += 1;
    }
    true
}

/// Indices that named corners before the list of corners grew name the same
/// corners afterwards.
pub proof fn lemma_resolved_grown(before: Seq<Corner>, after: Seq<Corner>, indices: Seq<usize>)
    requires
        before.len() <= after.len(),
        after.take(before.len() as int) == before,
        forall|k: int| 0 <= k < indices.len() ==> #[trigger] indices[k] < before.len(),
    ensures
        resolved(after, indices) == resolved(before, indices),
{
    assert forall|k: int| 0 <= k < indices.len() implies #[trigger] resolved(after, indices)[k] == resolved(
        before,
        indices,
    )[k] by {
        assert(after.take(before.len() as int)[indices[k] as int] == after[indices[k] as int]);
    }
    assert(resolved(after, indices) =~= resolved(before, indices));
}

proof fn lemma_rebuilds_step(
    mesh: VoxelMesh,
    corners: Seq<Corner>,
    groups: Seq<(Color, Seq<usize>)>,
    bounds: (Corner, Corner),
    i: int,
    corners_0: Seq<Corner>,
    groups_0: Map<Color, Seq<usize>>,
    list: Seq<usize>,
)
    requires
        0 <= i < groups.len(),
        sound(corners, groups, bounds),
        groups_fit(groups_0, corners_0.len() as int),
        forall|color: Color| #[trigger] groups_0.dom().contains(color) <==> colored(groups, i, color),
        forall|a: int|
            0 <= a < i ==> resolved(corners_0, groups_0[(#[trigger] groups[a]).0]) == resolved(corners, groups[a].1),
        corners_0.len() <= mesh.corners().len(),
        mesh.corners().take(corners_0.len() as int) == corners_0,
        mesh.groups() == groups_0.insert(groups[i].0, list),
        list.len() == groups[i].1.len(),
        forall|j: int|
            0 <= j < list.len() ==> (#[trigger] list[j]) < mesh.corners().len() && mesh.corners()[list[j] as int]
                == corners[groups[i].1[j] as int],
        forall|j: int| 0 <= j < mesh.corners().len() ==> used(corners, groups, i + 1, #[trigger] mesh.corners()[j]),
    ensures
        rebuilds(mesh, corners, groups, i + 1),
        groups_fit(mesh.groups(), mesh.corners().len() as int),
{
    let color = groups[i].0;
    assert(!groups_0.dom().contains(color)) by {
        if colored(groups, i, color) {
            let a = choose|a: int| 0 <= a < i && (#[trigger] groups[a]).0 == color;
            assert(groups[a].0 != groups[i].0);
        }
    }
    assert forall|c: Color| #[trigger] mesh.groups().dom().contains(c) <==> colored(groups, i + 1, c) by {
        if colored(groups, i + 1, c) {
            let a = choose|a: int| 0 <= a < i + 1 && (#[trigger] groups[a]).0 == c;
            if a < i {
                assert(colored(groups, i, c));
            }
        }
        if mesh.groups().dom().contains(c) {
            if c == color {
                assert(groups[i].0 == c);
            } else {
                assert(colored(groups, i, c));
                let a = choose|a: int| 0 <= a < i && (#[trigger] groups[a]).0 == c;
                assert(groups[a].0 == c);
            }
        }
    }
    assert forall|a: int| 0 <= a < i + 1 implies resolved(mesh.corners(), mesh.groups()[(#[trigger] groups[a]).0])
        == resolved(corners, groups[a].1) by {
        if a < i {
            assert(groups[a].0 != groups[i].0);
            assert(colored(groups, i, groups[a].0));
            assert(groups_0.dom().contains(groups[a].0));
            lemma_resolved_grown(corners_0, mesh.corners(), groups_0[groups[a].0]);
        } else {
            assert(resolved(mesh.corners(), list) =~= resolved(corners, groups[i].1));
        }
    }
    assert forall|c: Color| #[trigger] mesh.groups().dom().contains(c) implies mesh.groups()[c].len() % 3 == 0
        && forall|k: int| 0 <= k < mesh.groups()[c].len() ==> #[trigger] mesh.groups()[c][k] < mesh.corners().len() by {
        if c != color {
            assert(groups_0.dom().contains(c));
        }
    }
}

/// In a surface rebuilt from groups every corner is named by a triangle.
pub proof fn lemma_rebuilt_named(mesh: VoxelMesh, corners: Seq<Corner>, groups: Seq<(Color, Seq<usize>)>)
    requires
        mesh.wf(),
        rebuilds(mesh, corners, groups, groups.len() as int),
    ensures
        mesh.all_named(),
{
    assert forall|j: int| 0 <= j < mesh.corners().len() implies #[trigger] named_by(mesh.groups(), j) by {
        assert(used(corners, groups, groups.len() as int, mesh.corners()[j]));
        let (i, k) = choose|i: int, k: int|
            0 <= i < groups.len() && 0 <= k < groups[i].1.len() && corners[(#[trigger] groups[i].1[k]) as int]
                == mesh.corners()[j];
        let color = groups[i].0;
        assert(colored(groups, groups.len() as int, color));
        assert(mesh.groups().dom().contains(color));
        let list = mesh.groups()[color];
        assert(resolved(mesh.corners(), list) == resolved(corners, groups[i].1));
        assert(resolved(mesh.corners(), list).len() == list.len());
        assert(resolved(corners, groups[i].1).len() == groups[i].1.len());
        assert(resolved(mesh.corners(), list)[k] == resolved(corners, groups[i].1)[k]);
        assert(mesh.corners()[list[k] as int] == mesh.corners()[j]);
        assert(list[k] < mesh.corners().len());
        assert(list[k] == j);
        assert(named_in(list, j));
    }
}

/// When an index is added to a list, the corners that were accounted for
/// stay so, and so is the corner of the index.
pub proof fn lemma_accounted_push(
    groups: Map<Color, Seq<usize>>,
    list: Seq<usize>,
    index: usize,
    before: int,
    after: int,
)
    requires
        forall|j: int| 0 <= j < before ==> #[trigger] accounted(groups, list, j),
        before <= after <= before + 1,
        after == before + 1 ==> index == before,
    ensures
        forall|j: int| 0 <= j < after ==> #[trigger] accounted(groups, list.push(index), j),
{
    let grown = list.push(index);
    assert forall|j: int| 0 <= j < after implies #[trigger] accounted(groups, grown, j) by {
        if j < before {
            assert(accounted(groups, list, j));
            if named_in(list, j) {
                let k = choose|k: int| 0 <= k < list.len() && #[trigger] list[k] == j;
                assert(grown[k] == j);
            }
        } else {
            assert(grown[list.len() as int] == j);
        }
    }
}

/// When a list goes to the triangles of a color, behind those the color had,
/// every corner that was accounted for is named by a triangle.
pub proof fn lemma_accounted_moved(
    groups: Map<Color, Seq<usize>>,
    list: Seq<usize>,
    color: Color,
    joined: Seq<usize>,
    count: int,
)
    requires
        forall|j: int| 0 <= j < count ==> #[trigger] accounted(groups, list, j),
        groups.dom().contains(color) ==> joined == groups[color] + list,
        !groups.dom().contains(color) ==> joined == list,
    ensures
        forall|j: int| 0 <= j < count ==> #[trigger] named_by(groups.insert(color, joined), j),
{
    let after = groups.insert(color, joined);
    assert forall|j: int| 0 <= j < count implies #[trigger] named_by(after, j) by {
        assert(accounted(groups, list, j));
        if named_in(list, j) {
            let k = choose|k: int| 0 <= k < list.len() && #[trigger] list[k] == j;
            if groups.dom().contains(color) {
                assert(joined[groups[color].len() + k] == j);
            } else {
                assert(joined[k] == j);
            }
            assert(after.dom().contains(color) && named_in(after[color], j));
        } else {
            let c = choose|c: Color| #[trigger] groups.dom().contains(c) && named_in(groups[c], j);
            if c == color {
                let k = choose|k: int| 0 <= k < groups[c].len() && #[trigger] groups[c][k] == j;
                assert(joined[k] == j);
                assert(after.dom().contains(color) && named_in(after[color], j));
            } else {
                assert(after.dom().contains(c) && named_in(after[c], j));
            }
        }
    }
}

} // verus!
