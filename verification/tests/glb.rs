use voxel_tiler_core::element::ONE_METER;
use voxel_tiler_core::glb_gen::{BufferView, GlbError, GlbGen, GlbGenPrivateMethod, GlbParts, Mime, TextureInfo};
use voxel_tiler_core::voxel_mesh::VoxelMesh;

fn small_mesh() -> VoxelMesh {
    VoxelMesh::from_parts(
        &vec![(0, 0, 0), (1, 0, 0), (1, 1, 0), (0, 1, 0), (0, 0, 1)],
        vec![((255, 0, 0), vec![0, 1, 2, 2, 3, 0]), ((0, 0, 255), vec![0, 1, 4])],
        ((0, 0, 0), (2, 4, 1)),
        (10, 20, 30),
        ONE_METER,
    )
    .unwrap()
}

#[test]
fn test_round_up_to_mul_of_four() {
    assert_eq!(GlbParts::round_up_to_mul_of_four(0), 0);
    assert_eq!(GlbParts::round_up_to_mul_of_four(1), 4);
    assert_eq!(GlbParts::round_up_to_mul_of_four(2), 4);
    assert_eq!(GlbParts::round_up_to_mul_of_four(3), 4);
    assert_eq!(GlbParts::round_up_to_mul_of_four(4), 4);
    assert_eq!(GlbParts::round_up_to_mul_of_four(5), 8);
    assert_eq!(GlbParts::round_up_to_mul_of_four(6), 8);
    assert_eq!(GlbParts::round_up_to_mul_of_four(7), 8);
    assert_eq!(GlbParts::round_up_to_mul_of_four(8), 8);
}

#[test]
fn test_pad_to_mul_of_four() {
    assert_eq!(GlbParts::pad_to_mul_of_four(vec![1, 2, 3]), vec![1, 2, 3, 0]);
    assert_eq!(GlbParts::pad_to_mul_of_four(vec![1, 2, 3, 4]), vec![1, 2, 3, 4]);
    assert_eq!(GlbParts::pad_to_mul_of_four(vec![1, 2, 3, 4, 5]), vec![1, 2, 3, 4, 5, 0, 0, 0]);
}

#[test]
fn padding_an_empty_list_adds_nothing() {
    assert_eq!(GlbParts::pad_to_mul_of_four(Vec::<u8>::new()), Vec::<u8>::new());
}

#[test]
fn glb_positions_are_remapped() {
    let mesh = VoxelMesh::from_parts(
        &vec![(1, 2, 3)],
        vec![((255, 0, 0), vec![0, 0, 0])],
        ((0, 0, 0), (4, 4, 4)),
        (0, 0, 0),
        ONE_METER,
    )
    .unwrap();
    let layout = GlbParts::from_voxel_mesh(mesh).unwrap();
    assert_eq!(layout.vertex_count, 1);
    assert_eq!(layout.positions, vec![(1, 3, -2), (0, 0, 0), (0, 0, 0), (0, 0, 0)]);
}

#[test]
fn colored_layout_lies_on_the_four_byte_grid() {
    let layout = GlbParts::from_voxel_mesh(small_mesh()).unwrap();
    assert_eq!(layout.vertex_count, 5);
    assert_eq!(layout.positions.len(), 8);
    assert_eq!(layout.vertices_view, BufferView { byte_offset: 0, byte_length: 8 * 12 });
    assert_eq!(layout.indices_view, BufferView { byte_offset: 96, byte_length: 8 * 4 + 4 * 4 });
    assert_eq!(layout.buffer_length, 96 + 48);
    assert_eq!(layout.primitives.len(), 2);
    let mut offsets = Vec::new();
    for primitive in &layout.primitives {
        assert_eq!(primitive.byte_offset % 4, 0);
        assert_eq!(primitive.indices.len() % 4, 0);
        offsets.push(primitive.byte_offset);
        if primitive.color == (255, 0, 0) {
            assert_eq!(primitive.count, 6);
            assert_eq!(primitive.indices, vec![0, 1, 2, 2, 3, 0, 0, 0]);
        } else {
            assert_eq!(primitive.color, (0, 0, 255));
            assert_eq!(primitive.count, 3);
            assert_eq!(primitive.indices, vec![0, 1, 4, 0]);
        }
    }
    assert_eq!(offsets[0], 0);
    assert_eq!(offsets[1], layout.primitives[0].indices.len() * 4);
    for view in [layout.vertices_view, layout.indices_view] {
        assert_eq!(view.byte_offset % 4, 0);
        assert_eq!(view.byte_length % 4, 0);
    }
    assert_eq!(layout.min, (0, 0, 0));
    assert_eq!(layout.max, (2, 4, 1));
    assert_eq!(layout.translation, (10, 20, 30));
    assert_eq!(layout.scale, ONE_METER);
}

#[test]
fn colored_layout_follows_the_order_of_the_groups() {
    let layout = GlbParts::colored(
        vec![(0, 0, 0), (0, 5, 0), (7, 0, 0)],
        vec![((1, 1, 1), vec![0, 1, 2]), ((2, 2, 2), vec![2, 1, 0, 0, 1, 2])],
        ((0, 0, 0), (7, 5, 0)),
        (0, 0, 0),
        ONE_METER,
    )
    .unwrap();
    assert_eq!(layout.positions, vec![(0, 0, 0), (0, 0, -5), (7, 0, 0), (0, 0, 0)]);
    assert_eq!(layout.primitives[0].color, (1, 1, 1));
    assert_eq!(layout.primitives[0].byte_offset, 0);
    assert_eq!(layout.primitives[1].color, (2, 2, 2));
    assert_eq!(layout.primitives[1].byte_offset, 16);
    assert_eq!(layout.primitives[1].indices, vec![2, 1, 0, 0, 1, 2, 0, 0]);
    assert_eq!(layout.buffer_length, 48 + 16 + 32);
}

#[test]
fn textured_layout_projects_the_corners_on_the_ground() {
    let texture = TextureInfo { buf: Some(vec![1, 2, 3, 4, 5]), uri: None, mime_type: Mime::ImageJpeg };
    let layout = GlbParts::textured(
        vec![(0, 0, 0), (1, 0, 0), (1, 1, 0), (0, 1, 0), (0, 0, 1)],
        vec![((255, 0, 0), vec![0, 1, 2, 2, 3, 0]), ((0, 0, 255), vec![0, 1, 4])],
        ((0, 0, 0), (2, 4, 1)),
        (10, 20, 30),
        ONE_METER,
        texture,
    )
    .unwrap();
    assert_eq!(layout.vertex_count, 5);
    assert_eq!(layout.index_count, 9);
    assert_eq!(layout.indices, vec![0, 1, 2, 2, 3, 0, 0, 1, 4, 0, 0, 0]);
    assert_eq!(layout.uvs[0], (-10, -20));
    assert_eq!(layout.uvs[2], (-9, -19));
    assert_eq!(layout.uvs.len(), 8);
    assert_eq!(layout.uvs[5], (0, 0));
    assert_eq!(layout.uv_extent, (2, 4));
    assert_eq!(layout.vertices_view, BufferView { byte_offset: 0, byte_length: 96 });
    assert_eq!(layout.indices_view, BufferView { byte_offset: 96, byte_length: 48 });
    assert_eq!(layout.uv_view, BufferView { byte_offset: 144, byte_length: 64 });
    assert_eq!(layout.texture_view, Some(BufferView { byte_offset: 208, byte_length: 8 }));
    assert_eq!(layout.texture, Some(vec![1, 2, 3, 4, 5, 0, 0, 0]));
    assert_eq!(layout.buffer_length, 216);
    assert_eq!(layout.mime_type, Mime::ImageJpeg);
    assert_eq!(layout.uri, None);
    assert_eq!(layout.translation, (10, 20, 30));
}

#[test]
fn textured_layout_without_image_has_no_image_view() {
    let texture = TextureInfo { buf: None, uri: Some(String::from("ground.png")), mime_type: Mime::ImagePng };
    let layout = GlbParts::from_voxel_mesh_with_texture_projected_z(small_mesh(), texture).unwrap();
    assert_eq!(layout.texture, None);
    assert_eq!(layout.texture_view, None);
    assert_eq!(layout.uri, Some(String::from("ground.png")));
    assert_eq!(layout.mime_type, Mime::ImagePng);
    assert_eq!(layout.index_count, 9);
    assert_eq!(layout.buffer_length, 96 + 48 + 64);
    for view in [layout.vertices_view, layout.indices_view, layout.uv_view] {
        assert_eq!(view.byte_offset % 4, 0);
        assert_eq!(view.byte_length % 4, 0);
    }
}

#[test]
fn container_length_adds_the_rounded_text_and_the_buffer() {
    assert_eq!(GlbParts::container_length(10, 48), Ok(60));
    assert_eq!(GlbParts::container_length(12, 0), Ok(12));
    assert_eq!(GlbParts::container_length(0xffff_fffc, 3), Ok(0xffff_ffff));
}

#[test]
fn container_longer_than_the_header_can_say_is_refused() {
    assert_eq!(GlbParts::container_length(0xffff_fffd, 0), Err(GlbError::SizeExceeded));
    assert_eq!(GlbParts::container_length(8, 0xffff_fff8), Err(GlbError::SizeExceeded));
    assert_eq!(GlbParts::padded_bytes(0x1555_5556, 12), None);
    assert_eq!(GlbParts::padded_bytes(0x1555_5554, 12), Some(0xffff_fff0));
    assert_eq!(GlbParts::padded_bytes(5, 4), Some(32));
}
