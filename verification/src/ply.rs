use vstd::prelude::*;
use crate::element::{Color, Point3D};
use crate::glb_gen::flattened;
use crate::voxel_mesh::{corners_insert, corners_new, corners_of, lists_groups, Corner, VoxelMesh};

verus! {

/// One vertex of a polygon file: where it lies, in cells from the origin of
/// space, and its color. Multiplied by the resolution the position is in metres.
#[derive(Copy, Clone, Debug, PartialEq, Eq, Hash)]
pub struct Vertex {
    pub x: i64,
    pub y: i64,
    pub z: i64,
    pub r: u8,
    pub g: u8,
    pub b: u8,
}

/// One face of a polygon file: the indices of its vertices.
#[derive(Clone, Debug, PartialEq, Eq, Hash)]
pub struct Face {
    pub vertex_indices: Vec<u32>,
}

/// What a property of a polygon file holds, as far as the library reads it.
#[derive(Clone, Debug, PartialEq, Eq)]
pub enum PlyValue {
    /// A single precision number, as its bit pattern.
    Float(u32),
    /// A byte.
    UChar(u8),
    /// A list of 32-bit indices.
    ListUInt(Vec<u32>),
    /// Anything else.
    Other,
}

/// One vertex as it is read from a polygon file: where it lies, each
/// coordinate as the bit pattern of a single precision number, and its color.
/// A channel or coordinate that the file does not give stays zero.
#[derive(Copy, Clone, Debug, PartialEq, Eq, Hash)]
pub struct VertexRecord {
    pub x: u32,
    pub y: u32,
    pub z: u32,
    pub r: u8,
    pub g: u8,
    pub b: u8,
}

/// The record after a property was read: the properties `x`, `y` and `z` set
/// the coordinates if they hold a number, `red`, `green` and `blue` set the
/// channels if they hold a byte, and nothing else changes the record.
pub open spec fn with_property(record: VertexRecord, key: Seq<char>, property: PlyValue) -> VertexRecord {
    if key == "x"@ && property is Float {
        VertexRecord { x: property->Float_0, ..record }
    } else if key == "y"@ && property is Float {
        VertexRecord { y: property->Float_0, ..record }
    } else if key == "z"@ && property is Float {
        VertexRecord { z: property->Float_0, ..record }
    } else if key == "red"@ && property is UChar {
        VertexRecord { r: property->UChar_0, ..record }
    } else if key == "green"@ && property is UChar {
        VertexRecord { g: property->UChar_0, ..record }
    } else if key == "blue"@ && property is UChar {
        VertexRecord { b: property->UChar_0, ..record }
    } else {
        record
    }
}

impl VertexRecord {
    /// The record of a vertex of which nothing was read yet.
    pub fn new() -> (record: Self)
        ensures
            record == (VertexRecord { x: 0, y: 0, z: 0, r: 0, g: 0, b: 0 }),
    {
        VertexRecord { x: 0, y: 0, z: 0, r: 0, g: 0, b: 0 }
    }

    /// Reads one property into the record.
    pub fn set_property(&mut self, key: String, property: PlyValue)
        ensures
            *final(self) == with_property(*old(self), key@, property),
    {
        match property {
            PlyValue::Float(bits) => {
                if key == "x".to_owned() {
                    self.x = bits;
                } else if key == "y".to_owned() {
                    self.y = bits;
                } else if key == "z".to_owned() {
                    self.z = bits;
                }
            },
            PlyValue::UChar(byte) => {
                if key == "red".to_owned() {
                    self.r = byte;
                } else if key == "green".to_owned() {
                    self.g = byte;
                } else if key == "blue".to_owned() {
                    self.b = byte;
                }
            },
            _ => {},
        }
    }
}

impl Face {
    /// A face without vertices.
    pub fn new() -> (face: Self)
        ensures
            face.vertex_indices@.len() == 0,
    {
        Face { vertex_indices: Vec::new() }
    }

    /// Reads one property into the face: the property `vertex_indices` sets
    /// the indices if it holds a list of indices, and nothing else changes the
    /// face.
    pub fn set_property(&mut self, key: String, property: PlyValue)
        ensures
            key@ == "vertex_indices"@ && property is ListUInt ==> final(self).vertex_indices@
                == property->ListUInt_0@,
            !(key@ == "vertex_indices"@ && property is ListUInt) ==> final(self).vertex_indices@ == old(
                self,
            ).vertex_indices@,
    {
        match property {
            PlyValue::ListUInt(indices) => {
                if key == "vertex_indices".to_owned() {
                    self.vertex_indices = indices;
                }
            },
            _ => {},
        }
    }
}

/// What a polygon file holds.
#[derive(Clone, Debug)]
pub struct PlyStructs {
    pub vertices: Vec<Vertex>,
    pub faces: Vec<Face>,
}

/// Why a surface cannot be written as a polygon file.
#[derive(Copy, Clone, Debug, PartialEq, Eq)]
pub enum PlyError {
    /// The surface has more vertices than a 32-bit index can name.
    TooManyVertices,
}

/// How many vertices a 32-bit index can tell apart.
pub const INDEX_COUNT: u64 = 0x1_0000_0000;

/// The vertex of a corner of the surface, moved by the offset, in a color.
pub open spec fn vertex_at(corner: Corner, offset: Point3D, color: Color) -> Vertex {
    Vertex {
        x: (corner.0 + offset.0) as i64,
        y: (corner.1 + offset.1) as i64,
        z: (corner.2 + offset.2) as i64,
        r: color.0,
        g: color.1,
        b: color.2,
    }
}

/// The vertices that the triangles of the first `upto` groups name, group after
/// group, each in the color of its group.
pub open spec fn named_vertices(
    corners: Seq<Corner>,
    groups: Seq<(Color, Vec<usize>)>,
    offset: Point3D,
    upto: int,
) -> Seq<Vertex>
    decreases upto,
{
    if upto <= 0 {
        Seq::empty()
    } else {
        named_vertices(corners, groups, offset, upto - 1) + Seq::new(
            groups[upto - 1].1@.len(),
            |k: int| vertex_at(corners[groups[upto - 1].1@[k] as int], offset, groups[upto - 1].0),
        )
    }
}

/// Whether a face names the vertex with the index.
pub open spec fn face_names(faces: Seq<Face>, index: int) -> bool {
    exists|t: int, k: int| 0 <= t < faces.len() && 0 <= k < 3 && (#[trigger] faces[t].vertex_indices@[k]) == index
}

/// That the faces of `ply` are triangles that name, one after the other, the
/// vertices of `named`, that no vertex occurs twice, and that every vertex is
/// named by a face.
pub open spec fn tabulates(ply: PlyStructs, named: Seq<Vertex>) -> bool {
    &&& forall|a: int| 0 <= a < ply.vertices@.len() ==> #[trigger] face_names(ply.faces@, a)
    &&& ply.faces@.len() * 3 == named.len()
    &&& forall|t: int| 0 <= t < ply.faces@.len() ==> (#[trigger] ply.faces@[t]).vertex_indices@.len() == 3
    &&& forall|t: int, k: int|
        0 <= t < ply.faces@.len() && 0 <= k < 3 ==> (#[trigger] ply.faces@[t].vertex_indices@[k]) < ply.vertices@.len()
            && ply.vertices@[ply.faces@[t].vertex_indices@[k] as int] == named[3 * t + k]
    &&& ply.vertices@.no_duplicates()
}

/// That every place names a vertex, and the vertex that `named` has there.
pub open spec fn places_name(vertices: Seq<Vertex>, mapped: Seq<usize>, named: Seq<Vertex>) -> bool {
    &&& mapped.len() == named.len()
    &&& forall|k: int|
        0 <= k < mapped.len() ==> (#[trigger] mapped[k]) < vertices.len() && vertices[mapped[k] as int] == named[k]
}

/// That all vertices differ and each has the color of one of the first `upto`
/// groups.
pub open spec fn distinct_colored(vertices: Seq<Vertex>, groups: Seq<(Color, Vec<usize>)>, upto: int) -> bool {
    &&& vertices.no_duplicates()
    &&& forall|a: int| 0 <= a < vertices.len() ==> colored_before(groups, upto, #[trigger] vertices[a])
}

proof fn lemma_face_names(faces: Seq<Face>, mapped: Seq<usize>, w: int)
    requires
        faces.len() * 3 == mapped.len(),
        0 <= w < mapped.len(),
        forall|f: int|
            0 <= f < faces.len() ==> (#[trigger] faces[f]).vertex_indices@.len() == 3 && faces[f].vertex_indices@[0]
                == mapped[3 * f] && faces[f].vertex_indices@[1] == mapped[3 * f + 1] && faces[f].vertex_indices@[2]
                == mapped[3 * f + 2],
    ensures
        face_names(faces, mapped[w] as int),
{
    let t = w / 3;
    let k = w % 3;
    assert(0 <= t < faces.len());
    assert(faces[t].vertex_indices@.len() == 3);
    assert(w == 3 * t + k);
    assert(faces[t].vertex_indices@[k] == mapped[w]);
}

proof fn lemma_vertex_count(vertices: Seq<Vertex>, mapped: Seq<usize>, named: Seq<Vertex>)
    requires
        vertices.no_duplicates(),
        places_name(vertices, mapped, named),
        forall|a: int| 0 <= a < vertices.len() ==> #[trigger] placed(mapped, a),
    ensures
        named.to_set().len() == vertices.len(),
{
    assert forall|v: Vertex| vertices.to_set().contains(v) == named.to_set().contains(v) by {
        if vertices.to_set().contains(v) {
            let a = choose|a: int| 0 <= a < vertices.len() && vertices[a] == v;
            assert(placed(mapped, a));
            let w = choose|w: int| 0 <= w < mapped.len() && #[trigger] mapped[w] == a;
            assert(named[w] == v);
            assert(named.contains(v));
        }
        if named.to_set().contains(v) {
            let w = choose|w: int| 0 <= w < named.len() && named[w] == v;
            assert(vertices[mapped[w] as int] == v);
            assert(vertices.contains(v));
        }
    }
    assert(vertices.to_set() =~= named.to_set());
    vertices.unique_seq_to_set();
}

proof fn lemma_group_named(
    corners: Seq<Corner>,
    groups: Seq<(Color, Vec<usize>)>,
    offset: Point3D,
    i: int,
    vertices_0: Seq<Vertex>,
    mapped_0: Seq<usize>,
    vertices_1: Seq<Vertex>,
    mapped_1: Seq<usize>,
)
    requires
        0 <= i < groups.len(),
        places_name(vertices_0, mapped_0, named_vertices(corners, groups, offset, i)),
        vertices_0.len() <= vertices_1.len(),
        vertices_1.take(vertices_0.len() as int) == vertices_0,
        mapped_1.len() == mapped_0.len() + groups[i].1@.len(),
        mapped_1.take(mapped_0.len() as int) == mapped_0,
        forall|j: int|
            0 <= j < groups[i].1@.len() ==> (#[trigger] mapped_1[mapped_0.len() + j]) < vertices_1.len()
                && vertices_1[mapped_1[mapped_0.len() + j] as int] == vertex_at(
                corners[groups[i].1@[j] as int],
                offset,
                groups[i].0,
            ),
    ensures
        places_name(vertices_1, mapped_1, named_vertices(corners, groups, offset, i + 1)),
{
    let named_0 = named_vertices(corners, groups, offset, i);
    let named_1 = named_vertices(corners, groups, offset, i + 1);
    let tail = Seq::new(
        groups[i].1@.len(),
        |k: int| vertex_at(corners[groups[i].1@[k] as int], offset, groups[i].0),
    );
    assert(named_1 == named_0 + tail);
    assert forall|k: int| 0 <= k < mapped_1.len() implies (#[trigger] mapped_1[k]) < vertices_1.len()
        && vertices_1[mapped_1[k] as int] == named_1[k] by {
        if k < mapped_0.len() {
            assert(mapped_1.take(mapped_0.len() as int)[k] == mapped_1[k]);
            assert(vertices_1.take(vertices_0.len() as int)[mapped_0[k] as int] == vertices_1[mapped_0[k] as int]);
        } else {
            let j = k - mapped_0.len();
            assert(mapped_1[mapped_0.len() + j] == mapped_1[k]);
            assert(named_1[k] == tail[j]);
        }
    }
}

proof fn lemma_group_distinct(
    groups: Seq<(Color, Vec<usize>)>,
    i: int,
    vertices_0: Seq<Vertex>,
    vertices_1: Seq<Vertex>,
)
    requires
        0 <= i < groups.len(),
        forall|a: int, b: int| 0 <= a < b < groups.len() ==> (#[trigger] groups[a]).0 != (#[trigger] groups[b]).0,
        distinct_colored(vertices_0, groups, i),
        vertices_0.len() <= vertices_1.len(),
        vertices_1.take(vertices_0.len() as int) == vertices_0,
        forall|a: int| vertices_0.len() <= a < vertices_1.len() ==> color_of(#[trigger] vertices_1[a]) == groups[i].0,
        forall|a: int, b: int|
            vertices_0.len() <= a < b < vertices_1.len() ==> #[trigger] vertices_1[a] != #[trigger] vertices_1[b],
    ensures
        distinct_colored(vertices_1, groups, i + 1),
{
    let base = vertices_0.len() as int;
    assert forall|a: int| 0 <= a < vertices_1.len() implies colored_before(groups, i + 1, #[trigger] vertices_1[a]) by {
        if a < base {
            assert(vertices_1.take(base)[a] == vertices_1[a]);
            assert(colored_before(groups, i, vertices_0[a]));
            let w = choose|w: int| 0 <= w < i && color_of(vertices_0[a]) == (#[trigger] groups[w]).0;
            assert(color_of(vertices_1[a]) == groups[w].0);
        } else {
            assert(color_of(vertices_1[a]) == groups[i].0);
        }
    }
    assert forall|a: int, b: int| 0 <= a < vertices_1.len() && 0 <= b < vertices_1.len() && a != b implies vertices_1[a]
        != vertices_1[b] by {
        if a < base && b < base {
            assert(vertices_1.take(base)[a] == vertices_1[a]);
            assert(vertices_1.take(base)[b] == vertices_1[b]);
        } else if a >= base && b >= base {
            if a < b {
                assert(vertices_1[a] != vertices_1[b]);
            } else {
                assert(vertices_1[b] != vertices_1[a]);
            }
        } else {
            let old_one = if a < base { a } else { b };
            let new_one = if a < base { b } else { a };
            assert(vertices_1.take(base)[old_one] == vertices_1[old_one]);
            assert(colored_before(groups, i, vertices_0[old_one]));
            let w = choose|w: int| 0 <= w < i && color_of(vertices_0[old_one]) == (#[trigger] groups[w]).0;
            assert(groups[w].0 != groups[i].0);
            assert(color_of(vertices_1[new_one]) == groups[i].0);
        }
    }
}

impl PlyStructs {
    /// A polygon file of the given vertices and faces.
    pub fn new(vertices: Vec<Vertex>, faces: Vec<Face>) -> (ply: Self)
        ensures
            ply.vertices == vertices,
            ply.faces == faces,
    {
        Self { vertices, faces }
    }

    /// The polygon file of given corners and triangles by color: a vertex for
    /// each corner and color that the triangles use, in the order of first use,
    /// and a face for every three indices.
    pub fn tabulate(corners: Vec<Corner>, groups: Vec<(Color, Vec<usize>)>, offset: Point3D) -> (r: Result<
        Self,
        PlyError,
    >)
        requires
            forall|i: int| 0 <= i < corners@.len() ==> crate::voxel_mesh::in_reach(#[trigger] corners@[i]),
            crate::glb_gen::indices_fit(groups@, corners@.len() as int),
            forall|i: int| 0 <= i < groups@.len() ==> (#[trigger] groups@[i]).1@.len() % 3 == 0,
            forall|i: int, j: int| 0 <= i < j < groups@.len() ==> (#[trigger] groups@[i]).0 != (#[trigger] groups@[j]).0,
        ensures
            r is Ok <==> named_vertices(corners@, groups@, offset, groups@.len() as int).to_set().len() <= INDEX_COUNT,
            r is Ok ==> tabulates(r->Ok_0, named_vertices(corners@, groups@, offset, groups@.len() as int)),
            r is Err ==> r->Err_0 == PlyError::TooManyVertices,
    {
        let mut vertices: Vec<Vertex> = Vec::new();
        let mut mapped: Vec<usize> = Vec::new();
        let mut i: usize = 0;
        while i < groups.len()
            invariant
                i <= groups.len(),
                forall|a: int| 0 <= a < corners@.len() ==> crate::voxel_mesh::in_reach(#[trigger] corners@[a]),
                crate::glb_gen::indices_fit(groups@, corners@.len() as int),
                forall|a: int| 0 <= a < groups@.len() ==> (#[trigger] groups@[a]).1@.len() % 3 == 0,
                forall|a: int, b: int| 0 <= a < b < groups@.len() ==> (#[trigger] groups@[a]).0 != (#[trigger] groups@[b]).0,
                vertices@.len() <= mapped@.len(),
                mapped@.len() == flattened(groups@, i as int).len(),
                mapped@.len() % 3 == 0,
                distinct_colored(vertices@, groups@, i as int),
                places_name(vertices@, mapped@, named_vertices(corners@, groups@, offset, i as int)),
                forall|a: int| 0 <= a < vertices@.len() ==> #[trigger] placed(mapped@, a),
            decreases groups.len() - i,
        {
            let color: Color = groups[i].0;
            let ghost vertices_0 = vertices@;
            let ghost mapped_0 = mapped@;
            let ghost ids = groups@[i as int].1@;
            assert forall|a: int| 0 <= a < ids.len() implies #[trigger] ids[a] < corners@.len() by {
                assert(groups@[i as int].1@[a] < corners@.len());
            }
            add_group(&mut vertices, &mut mapped, &corners, &groups[i].1, color, offset);
            proof {
                lemma_group_named(corners@, groups@, offset, i as int, vertices_0, mapped_0, vertices@, mapped@);
                lemma_group_distinct(groups@, i as int, vertices_0, vertices@);
                assert(flattened(groups@, i + 1).len() == flattened(groups@, i as int).len() + ids.len());
                assert forall|a: int| 0 <= a < vertices@.len() implies #[trigger] placed(mapped@, a) by {
                    if a < vertices_0.len() {
                        assert(placed(mapped_0, a));
                        let w = choose|w: int| 0 <= w < mapped_0.len() && #[trigger] mapped_0[w] == a;
                        assert(mapped@.take(mapped_0.len() as int)[w] == mapped@[w]);
                    }
                }
            }
            i += 1;
        }
        proof {
            lemma_vertex_count(vertices@, mapped@, named_vertices(corners@, groups@, offset, groups@.len() as int));
        }
        if vertices.len() as u64 > 0x1_0000_0000 {
            return Err(PlyError::TooManyVertices);
        }
        let faces = triangles(&mapped, vertices.len());
        proof {
            assert forall|a: int| 0 <= a < vertices@.len() implies #[trigger] face_names(faces@, a) by {
                assert(placed(mapped@, a));
                let w = choose|w: int| 0 <= w < mapped@.len() && #[trigger] mapped@[w] == a;
                lemma_face_names(faces@, mapped@, w);
            }
        }
        Ok(Self { vertices, faces })
    }

    /// The polygon file of a surface. The colors follow each other in the order
    /// in which the surface hands them out, which it does not promise.
    pub fn from_voxel_mesh(voxel_mesh: VoxelMesh) -> (r: Result<Self, PlyError>)
        requires
            voxel_mesh.wf(),
        ensures
            exists|groups: Seq<(Color, Vec<usize>)>| #[trigger]
                lists_groups(voxel_mesh.groups(), groups) && {
                    &&& r is Ok <==> named_vertices(
                        voxel_mesh.corners(),
                        groups,
                        voxel_mesh.spec_offset(),
                        groups.len() as int,
                    ).to_set().len() <= INDEX_COUNT
                    &&& r is Ok ==> tabulates(
                        r->Ok_0,
                        named_vertices(voxel_mesh.corners(), groups, voxel_mesh.spec_offset(), groups.len() as int),
                    )
                    &&& r is Err ==> r->Err_0 == PlyError::TooManyVertices
                },
    {
        let corners = voxel_mesh.vertices();
        let offset = voxel_mesh.offset();
        let groups = voxel_mesh.into_groups();
        let r = Self::tabulate(corners, groups, offset);
        proof {
            assert(lists_groups(voxel_mesh.groups(), groups@));
        }
        r
    }
}

/// Whether a place names the vertex with the given index.
pub open spec fn placed(mapped: Seq<usize>, index: int) -> bool {
    exists|w: int| 0 <= w < mapped.len() && #[trigger] mapped[w] == index
}

/// Whether a vertex has the color of one of the first `upto` groups.
pub open spec fn colored_before(groups: Seq<(Color, Vec<usize>)>, upto: int, vertex: Vertex) -> bool {
    exists|w: int| 0 <= w < upto && color_of(vertex) == (#[trigger] groups[w]).0
}

/// Adds the vertices that the indices of one color name, each once, and the
/// place of the vertex of every index.
fn add_group(
    vertices: &mut Vec<Vertex>,
    mapped: &mut Vec<usize>,
    corners: &Vec<Corner>,
    ids: &Vec<usize>,
    color: Color,
    offset: Point3D,
)
    requires
        forall|a: int| 0 <= a < corners@.len() ==> crate::voxel_mesh::in_reach(#[trigger] corners@[a]),
        forall|a: int| 0 <= a < ids@.len() ==> #[trigger] ids@[a] < corners@.len(),
        old(vertices)@.len() <= old(mapped)@.len(),
    ensures
        final(vertices)@.len() >= old(vertices)@.len(),
        final(vertices)@.take(old(vertices)@.len() as int) == old(vertices)@,
        final(vertices)@.len() <= final(mapped)@.len(),
        final(mapped)@.len() == old(mapped)@.len() + ids@.len(),
        final(mapped)@.take(old(mapped)@.len() as int) == old(mapped)@,
        forall|a: int| old(vertices)@.len() <= a < final(vertices)@.len() ==> color_of(#[trigger] final(vertices)@[a]) == color,
        forall|a: int, b: int|
            old(vertices)@.len() <= a < b < final(vertices)@.len() ==> #[trigger] final(vertices)@[a]
                != #[trigger] final(vertices)@[b],
        forall|j: int|
            0 <= j < ids@.len() ==> old(vertices)@.len() <= (#[trigger] final(mapped)@[old(mapped)@.len() + j])
                < final(vertices)@.len() && final(vertices)@[final(mapped)@[old(mapped)@.len() + j] as int]
                == vertex_at(corners@[ids@[j] as int], offset, color),
        forall|a: int| old(vertices)@.len() <= a < final(vertices)@.len() ==> #[trigger] placed(final(mapped)@, a),
{
    let base: usize = vertices.len();
    let ghost vertices_0 = vertices@;
    let ghost mapped_0 = mapped@;
    let mut seen = corners_new();
    let mut k: usize = 0;
    while k < ids.len()
        invariant
            k <= ids@.len(),
            forall|a: int| 0 <= a < corners@.len() ==> crate::voxel_mesh::in_reach(#[trigger] corners@[a]),
            forall|a: int| 0 <= a < ids@.len() ==> #[trigger] ids@[a] < corners@.len(),
            base == vertices_0.len(),
            base <= mapped_0.len(),
            vertices@.len() == base + corners_of(seen).len(),
            vertices@.take(base as int) == vertices_0,
            corners_of(seen).no_duplicates(),
            corners_of(seen).len() <= k,
            forall|j: int|
                0 <= j < corners_of(seen).len() ==> #[trigger] vertices@[base + j] == at_position(
                    corners_of(seen)[j],
                    color,
                ),
            mapped@.len() == mapped_0.len() + k,
            mapped@.take(mapped_0.len() as int) == mapped_0,
            forall|j: int|
                0 <= j < k ==> base <= (#[trigger] mapped@[mapped_0.len() + j]) < vertices@.len() && vertices@[mapped@[mapped_0.len()
                    + j] as int] == vertex_at(corners@[ids@[j] as int], offset, color),
            forall|a: int| base <= a < vertices@.len() ==> #[trigger] placed(mapped@, a),
        decreases ids@.len() - k,
    {
        let id: usize = ids[k];
        let corner: Corner = corners[id];
        assert(crate::voxel_mesh::in_reach(corners@[id as int]));
        let position: Corner = (corner.0 + offset.0 as i64, corner.1 + offset.1 as i64, corner.2 + offset.2 as i64);
        let ghost seen_0 = corners_of(seen);
        let ghost vertices_1 = vertices@;
        let ghost mapped_1 = mapped@;
        let (index, fresh) = corners_insert(&mut seen, position);
        if fresh {
            vertices.push(Vertex { x: position.0, y: position.1, z: position.2, r: color.0, g: color.1, b: color.2 });
        }
        let filled: usize = mapped.len();
        assert(base + index <= filled);
        mapped.push(base + index);
        proof {
            assert(at_position(position, color) == vertex_at(corners@[ids@[k as int] as int], offset, color));
            assert(vertices@.take(base as int) == vertices_1.take(base as int));
            assert(mapped@.take(mapped_0.len() as int) == mapped_1.take(mapped_0.len() as int));
            if !seen_0.contains(position) {
                assert forall|a: int, b: int|
                    0 <= a < corners_of(seen).len() && 0 <= b < corners_of(seen).len() && a != b implies corners_of(
                    seen,
                )[a] != corners_of(seen)[b] by {
                    if a == seen_0.len() {
                        if seen_0[b] == position {
                            assert(seen_0.contains(position));
                        }
                    } else if b == seen_0.len() {
                        if seen_0[a] == position {
                            assert(seen_0.contains(position));
                        }
                    }
                }
            }
            assert forall|j: int| 0 <= j < corners_of(seen).len() implies #[trigger] vertices@[base + j]
                == at_position(corners_of(seen)[j], color) by {
                if j < seen_0.len() {
                    assert(vertices@[base + j] == vertices_1[base + j]);
                }
            }
            assert forall|j: int| 0 <= j < k + 1 implies base <= (#[trigger] mapped@[mapped_0.len() + j])
                < vertices@.len() && vertices@[mapped@[mapped_0.len() + j] as int] == vertex_at(
                corners@[ids@[j] as int],
                offset,
                color,
            ) by {
                if j < k {
                    assert(mapped@[mapped_0.len() + j] == mapped_1[mapped_0.len() + j]);
                    assert(vertices@[mapped_1[mapped_0.len() + j] as int] == vertices_1[mapped_1[mapped_0.len()
                        + j] as int]);
                }
            }
            assert forall|a: int| base <= a < vertices@.len() implies #[trigger] placed(mapped@, a) by {
                if a < vertices_1.len() {
                    assert(placed(mapped_1, a));
                    let w = choose|w: int| 0 <= w < mapped_1.len() && #[trigger] mapped_1[w] == a;
                    assert(mapped@[w] == a);
                } else {
                    assert(mapped@[mapped_1.len() as int] == a);
                }
            }
        }
        k += 1;
    }
    proof {
        assert forall|a: int| base <= a < vertices@.len() implies color_of(#[trigger] vertices@[a]) == color by {
            assert(vertices@[base + (a - base)] == at_position(corners_of(seen)[a - base], color));
        }
        assert forall|a: int, b: int| base <= a < b < vertices@.len() implies #[trigger] vertices@[a]
            != #[trigger] vertices@[b] by {
            assert(vertices@[base + (a - base)] == at_position(corners_of(seen)[a - base], color));
            assert(vertices@[base + (b - base)] == at_position(corners_of(seen)[b - base], color));
        }
    }
}

/// A face for every three places.
fn triangles(mapped: &Vec<usize>, limit: usize) -> (faces: Vec<Face>)
    requires
        mapped@.len() % 3 == 0,
        limit <= INDEX_COUNT,
        forall|k: int| 0 <= k < mapped@.len() ==> #[trigger] mapped@[k] < limit,
    ensures
        faces@.len() * 3 == mapped@.len(),
        forall|f: int|
            0 <= f < faces@.len() ==> (#[trigger] faces@[f]).vertex_indices@.len() == 3 && faces@[f].vertex_indices@[0]
                == mapped@[3 * f] && faces@[f].vertex_indices@[1] == mapped@[3 * f + 1]
                && faces@[f].vertex_indices@[2] == mapped@[3 * f + 2],
{
    let mut faces: Vec<Face> = Vec::new();
    let mut t: usize = 0;
    while t < mapped.len() / 3
        invariant
            t <= mapped@.len() / 3,
            mapped@.len() % 3 == 0,
            limit <= INDEX_COUNT,
            faces@.len() == t,
            forall|k: int| 0 <= k < mapped@.len() ==> #[trigger] mapped@[k] < limit,
            forall|f: int|
                0 <= f < t ==> (#[trigger] faces@[f]).vertex_indices@.len() == 3 && faces@[f].vertex_indices@[0]
                    == mapped@[3 * f] && faces@[f].vertex_indices@[1] == mapped@[3 * f + 1]
                    && faces@[f].vertex_indices@[2] == mapped@[3 * f + 2],
        decreases mapped@.len() / 3 - t,
    {
        let a: usize = mapped[3 * t];
        let b: usize = mapped[3 * t + 1];
        let c: usize = mapped[3 * t + 2];
        let mut vertex_indices: Vec<u32> = Vec::new();
        vertex_indices.push(a as u32);
        vertex_indices.push(b as u32);
        vertex_indices.push(c as u32);
        faces.push(Face { vertex_indices });
        t += 1;
    }
    faces
}

/// The color of a vertex.
pub open spec fn color_of(vertex: Vertex) -> Color {
    (vertex.r, vertex.g, vertex.b)
}

/// The vertex at a position, in a color.
pub open spec fn at_position(position: Corner, color: Color) -> Vertex {
    Vertex { x: position.0, y: position.1, z: position.2, r: color.0, g: color.1, b: color.2 }
}

} // verus!
