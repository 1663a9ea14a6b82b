use voxel_tiler_core::element::ONE_METER;
use voxel_tiler_core::ply::{Face, PlyError, PlyStructs, PlyValue, Vertex, VertexRecord};
use voxel_tiler_core::voxel_mesh::VoxelMesh;

fn corners() -> Vec<(i64, i64, i64)> {
    vec![(0, 0, 0), (1, 0, 0), (1, 1, 0), (0, 1, 0), (0, 0, 1)]
}

fn bounds() -> ((i64, i64, i64), (i64, i64, i64)) {
    ((0, 0, 0), (2, 2, 2))
}

#[test]
fn a_surface_keeps_the_corners_its_triangles_use() {
    let mesh =
        VoxelMesh::from_parts(&corners(), vec![((9, 9, 9), vec![4, 2, 1, 1, 2, 4])], bounds(), (1, 2, 3), 77).unwrap();
    assert_eq!(mesh.vertices(), vec![(0, 0, 1), (1, 1, 0), (1, 0, 0)]);
    assert_eq!(mesh.to_groups(), vec![((9, 9, 9), vec![0, 1, 2, 2, 1, 0])]);
    assert_eq!(mesh.bounds(), bounds());
    assert_eq!(mesh.offset(), (1, 2, 3));
    assert_eq!(mesh.resolution(), 77);
}

#[test]
fn parts_that_make_no_surface_are_refused() {
    assert!(VoxelMesh::from_parts(&corners(), vec![((9, 9, 9), vec![0, 1, 5])], bounds(), (0, 0, 0), 1).is_none());
    assert!(VoxelMesh::from_parts(&corners(), vec![((9, 9, 9), vec![0, 1])], bounds(), (0, 0, 0), 1).is_none());
    assert!(VoxelMesh::from_parts(
        &corners(),
        vec![((9, 9, 9), vec![0, 1, 2]), ((9, 9, 9), vec![0, 1, 2])],
        bounds(),
        (0, 0, 0),
        1
    )
    .is_none());
    assert!(VoxelMesh::from_parts(&vec![(1i64 << 40, 0, 0)], vec![], bounds(), (0, 0, 0), 1).is_none());
    assert!(VoxelMesh::from_parts(&corners(), vec![], ((0, 0, 0), (0, 0, 1i64 << 32)), (0, 0, 0), 1).is_none());
    let empty = VoxelMesh::from_parts(&corners(), vec![], bounds(), (0, 0, 0), 1).unwrap();
    assert_eq!(empty.vertices(), Vec::new());
    assert_eq!(empty.into_groups(), Vec::new());
}

#[test]
fn simplify_keeps_the_surviving_triangles() {
    let mesh = VoxelMesh::from_parts(
        &corners(),
        vec![((9, 9, 9), vec![0, 1, 2, 2, 3, 0]), ((1, 1, 1), vec![0, 1, 4])],
        bounds(),
        (1, 2, 3),
        ONE_METER,
    )
    .unwrap();
    let order = mesh.vertices();
    let third = order.iter().position(|corner| *corner == (1, 1, 0)).unwrap() as u32;
    let fourth = order.iter().position(|corner| *corner == (0, 1, 0)).unwrap() as u32;
    let first = order.iter().position(|corner| *corner == (0, 0, 0)).unwrap() as u32;
    let simple = mesh.simplify(vec![((9, 9, 9), vec![third, fourth, first]), ((1, 1, 1), vec![])]).unwrap();
    assert_eq!(simple.vertices(), vec![(1, 1, 0), (0, 1, 0), (0, 0, 0)]);
    let mut groups = simple.to_groups();
    groups.sort();
    assert_eq!(groups, vec![((1, 1, 1), vec![]), ((9, 9, 9), vec![0, 1, 2])]);
    assert_eq!(simple.bounds(), bounds());
    assert_eq!(simple.offset(), (1, 2, 3));
    assert_eq!(simple.resolution(), ONE_METER);
}

#[test]
fn simplify_refuses_indices_that_name_no_corner() {
    let mesh = VoxelMesh::from_parts(&corners(), vec![((9, 9, 9), vec![0, 1, 2])], bounds(), (0, 0, 0), 1).unwrap();
    assert!(mesh.simplify(vec![((9, 9, 9), vec![0, 1, 3])]).is_none());
}

#[test]
fn polygon_file_has_a_vertex_for_each_corner_and_color() {
    let ply = PlyStructs::tabulate(
        corners(),
        vec![((255, 0, 0), vec![0, 1, 2, 2, 3, 0]), ((0, 0, 255), vec![0, 1, 4])],
        (10, 20, 30),
    )
    .unwrap();
    assert_eq!(
        ply.vertices,
        vec![
            Vertex { x: 10, y: 20, z: 30, r: 255, g: 0, b: 0 },
            Vertex { x: 11, y: 20, z: 30, r: 255, g: 0, b: 0 },
            Vertex { x: 11, y: 21, z: 30, r: 255, g: 0, b: 0 },
            Vertex { x: 10, y: 21, z: 30, r: 255, g: 0, b: 0 },
            Vertex { x: 10, y: 20, z: 30, r: 0, g: 0, b: 255 },
            Vertex { x: 11, y: 20, z: 30, r: 0, g: 0, b: 255 },
            Vertex { x: 10, y: 20, z: 31, r: 0, g: 0, b: 255 },
        ]
    );
    assert_eq!(
        ply.faces,
        vec![
            Face { vertex_indices: vec![0, 1, 2] },
            Face { vertex_indices: vec![2, 3, 0] },
            Face { vertex_indices: vec![4, 5, 6] },
        ]
    );
}

#[test]
fn polygon_file_of_a_surface_names_the_same_corners() {
    let mesh = VoxelMesh::from_parts(
        &corners(),
        vec![((255, 0, 0), vec![0, 1, 2, 2, 3, 0]), ((0, 0, 255), vec![0, 1, 4])],
        bounds(),
        (0, 0, -1),
        ONE_METER,
    )
    .unwrap();
    let ply = PlyStructs::from_voxel_mesh(mesh).unwrap();
    assert_eq!(ply.vertices.len(), 7);
    assert_eq!(ply.faces.len(), 3);
    let mut red = Vec::new();
    let mut blue = Vec::new();
    for face in &ply.faces {
        assert_eq!(face.vertex_indices.len(), 3);
        for index in &face.vertex_indices {
            let vertex = ply.vertices[*index as usize];
            if vertex.r == 255 {
                red.push((vertex.x, vertex.y, vertex.z));
            } else {
                assert_eq!((vertex.r, vertex.g, vertex.b), (0, 0, 255));
                blue.push((vertex.x, vertex.y, vertex.z));
            }
        }
    }
    assert_eq!(red, vec![(0, 0, -1), (1, 0, -1), (1, 1, -1), (1, 1, -1), (0, 1, -1), (0, 0, -1)]);
    assert_eq!(blue, vec![(0, 0, -1), (1, 0, -1), (0, 0, 0)]);
    let given = PlyStructs::new(ply.vertices.clone(), ply.faces.clone());
    assert_eq!(given.vertices, ply.vertices);
    assert_eq!(given.faces, ply.faces);
    assert_eq!(PlyError::TooManyVertices, PlyError::TooManyVertices);
}

#[test]
fn a_vertex_reads_its_six_properties_and_no_others() {
    let mut record = VertexRecord::new();
    assert_eq!(record, VertexRecord { x: 0, y: 0, z: 0, r: 0, g: 0, b: 0 });
    record.set_property(String::from("x"), PlyValue::Float(1.5f32.to_bits()));
    record.set_property(String::from("y"), PlyValue::Float(2.5f32.to_bits()));
    record.set_property(String::from("z"), PlyValue::Float((-3.0f32).to_bits()));
    record.set_property(String::from("red"), PlyValue::UChar(7));
    record.set_property(String::from("blue"), PlyValue::UChar(9));
    record.set_property(String::from("green"), PlyValue::Float(4.0f32.to_bits()));
    record.set_property(String::from("x"), PlyValue::UChar(1));
    record.set_property(String::from("nx"), PlyValue::Float(8.0f32.to_bits()));
    record.set_property(String::from("alpha"), PlyValue::UChar(200));
    record.set_property(String::from("z"), PlyValue::Other);
    assert_eq!(
        record,
        VertexRecord { x: 1.5f32.to_bits(), y: 2.5f32.to_bits(), z: (-3.0f32).to_bits(), r: 7, g: 0, b: 9 }
    );
}

#[test]
fn a_face_reads_its_vertex_indices_and_nothing_else() {
    let mut face = Face::new();
    assert_eq!(face.vertex_indices, Vec::new());
    face.set_property(String::from("vertex_indices"), PlyValue::ListUInt(vec![3, 1, 2]));
    face.set_property(String::from("vertex_index"), PlyValue::ListUInt(vec![9, 9, 9]));
    face.set_property(String::from("vertex_indices"), PlyValue::UChar(4));
    assert_eq!(face, Face { vertex_indices: vec![3, 1, 2] });
}

#[test]
fn every_vertex_of_the_polygon_file_is_named_by_a_face() {
    let ply = PlyStructs::tabulate(
        corners(),
        vec![((255, 0, 0), vec![0, 1, 2, 2, 3, 0]), ((0, 0, 255), vec![0, 1, 4])],
        (0, 0, 0),
    )
    .unwrap();
    let mut named = vec![false; ply.vertices.len()];
    for face in &ply.faces {
        for index in &face.vertex_indices {
            named[*index as usize] = true;
        }
    }
    assert_eq!(named.len(), 7);
    assert!(named.into_iter().all(|used| used));
}
