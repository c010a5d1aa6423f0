use scenecore::bytes::{u32_from_le, u32_to_le, u64_from_le, u64_to_le, BlobBuilder};
use scenecore::model_format::{MaterialHeader, MeshHeader, ModelBuffer};
use scenecore::records::{Sampler, TextureFormat, TextureSlot};
use scenecore::scene_format::{
    resolve_texture, NodeHeader, PrimitiveHeader, SceneBuffer, TexCoordHeader, TextureHeader,
};

#[test]
fn integer_codecs_roundtrip() {
    let bytes = u64_to_le(0x0102_0304_0506_0708);
    assert_eq!(bytes, [8, 7, 6, 5, 4, 3, 2, 1]);
    assert_eq!(u64_from_le(&bytes.to_vec(), 0), 0x0102_0304_0506_0708);
    let bytes = u32_to_le(0xdead_beef);
    assert_eq!(u32_from_le(&bytes.to_vec(), 0), 0xdead_beef);
}

#[test]
fn blob_builder_aligns_and_patches() {
    let mut builder = BlobBuilder::new();
    let header = builder.reserve(8, 8);
    assert_eq!(header, 0);
    let data = builder.push_bytes_aligned(&vec![1, 2, 3], 4);
    assert_eq!(data, 8);
    builder.align(8);
    assert_eq!(builder.len(), 16);
    builder.write_at(0, &vec![9; 8]);
    let blob = builder.finish();
    assert_eq!(blob, vec![9, 9, 9, 9, 9, 9, 9, 9, 1, 2, 3, 0, 0, 0, 0, 0]);
}

fn sample_node() -> NodeHeader {
    NodeHeader {
        position: [1, 2, 3],
        rotation: [4, 5, 6, 7],
        scale: [8, 9, 10],
        primitive_header_offset: 0,
        primitive_count: 1,
    }
}

#[test]
fn scene_buffer_roundtrips_through_bytes() {
    let nodes = vec![sample_node()];
    let prims = vec![PrimitiveHeader {
        vertex_offset: 0,
        vertex_count: 3,
        index_offset: 0,
        index_count: 3,
        uv_header_offset: 0,
        uv_set_count: 1,
        material_index: 0,
    }];
    let uvs = vec![TexCoordHeader { offset: 0, count: 3 }];
    let textures_hdr = vec![TextureHeader {
        offset: 0,
        size: 4,
        format: TextureFormat::rgba8(),
        width: 1,
        height: 1,
    }];
    let samplers = vec![Sampler::default()];
    let materials = vec![scenecore::records::MaterialRecord {
        base_color: Some(TextureSlot { texture_index: 0, uv_index: 1, sampler_index: 0 }),
        metallic_roughness: None,
        normal: None,
        occlusion: Some(TextureSlot { texture_index: 0, uv_index: 0, sampler_index: 7 }),
        emissive: None,
        base_color_factor: [10, 20, 30, 40],
        emissive_factor: [1, 2, 3],
        metallic_factor: 5,
        roughness_factor: 6,
        occlusion_strength: 7,
        normal_scale: 8,
        alpha_cutoff: 9,
        alpha_mode: 1,
        double_sided: 1,
    }];
    let vertices = vec![0u8; 120];
    let indices = vec![0u32, 1, 2];
    let uv_sets = vec![0u8; 24];
    let texture_bytes = vec![1u8, 2, 3, 4];
    let buffer = SceneBuffer::new(
        &nodes,
        &prims,
        &uvs,
        &textures_hdr,
        &materials,
        &samplers,
        &vertices,
        &indices,
        &uv_sets,
        &texture_bytes,
    );
    // a receiver wraps the same bytes and reads everything back
    let received = SceneBuffer::from_bytes(buffer.buffer().clone());
    let header = received.scene_header().expect("header must decode");
    assert_eq!(header.node_header_count, 1);
    assert_eq!(header.primitive_header_count, 1);
    assert_eq!(header.uv_header_count, 1);
    assert_eq!(header.texture_header_count, 1);
    assert_eq!(header.materials_count, 1);
    assert_eq!(header.samplers_count, 1);
    assert_eq!(header.vertices_count, 3);
    assert_eq!(header.indices_count, 3);
    assert_eq!(header.uv_sets_count, 3);
    assert_eq!(header.texture_size, 4);
    let decoded_nodes = received.node_headers().expect("nodes must decode");
    assert_eq!(decoded_nodes, nodes);
    let decoded_prims = received.primitive_headers().expect("primitives must decode");
    assert_eq!(decoded_prims, prims);
    assert_eq!(received.texcoord_headers().expect("uv headers must decode"), uvs);
    assert_eq!(received.texture_headers().expect("texture headers must decode"), textures_hdr);
    assert_eq!(received.sampler_records().expect("samplers must decode"), samplers);
    assert_eq!(received.material_records().expect("materials must decode"), materials);
    let texture = received
        .slice_bytes(header.texture_offset, header.texture_size)
        .expect("texture payload in bounds");
    assert_eq!(texture, texture_bytes);
    let v = received
        .slice_bytes(header.vertices_offset, 120)
        .expect("vertex payload in bounds");
    assert_eq!(v, vertices);
}

#[test]
fn truncated_scene_buffer_is_rejected() {
    let buffer = SceneBuffer::from_bytes(vec![0u8; 10]);
    assert!(buffer.scene_header().is_none());
    assert!(buffer.node_headers().is_none());
    assert!(buffer.slice_bytes(8, 8).is_none());
    assert!(buffer.material_records().is_none());
}

#[test]
fn out_of_bounds_table_is_rejected() {
    // a syntactically complete header whose node table points past the end
    let mut bytes = vec![0u8; 160];
    bytes[0] = 200; // node_header_offset = 200
    bytes[8] = 3; // node_header_count = 3
    let buffer = SceneBuffer::from_bytes(bytes);
    assert!(buffer.scene_header().is_some());
    assert!(buffer.node_headers().is_none());
}

#[test]
fn model_buffer_layout_is_sequential() {
    let meshes = vec![MeshHeader {
        vertex_offset: 0,
        vertex_count: 3,
        index_offset: 0,
        index_count: 3,
        material_index: 0,
    }];
    let materials = vec![MaterialHeader {
        offset: 0,
        size: 2,
        format: TextureFormat::r8(),
        width: 2,
        height: 1,
    }];
    let vertices = vec![7u8; 96];
    let indices = vec![0u8; 12];
    let textures = vec![5u8, 6];
    let buffer = ModelBuffer::new(&meshes, &materials, &vertices, &indices, &textures);
    let received = ModelBuffer::from_bytes(buffer.buffer().clone());
    assert_eq!(received.mesh_headers().expect("meshes must decode"), meshes);
    assert_eq!(received.material_headers().expect("materials must decode"), materials);
    let header = received.model_header().expect("header must decode");
    assert_eq!(header.mesh_header_offset, 40);
    assert_eq!(header.material_header_offset, 80);
    assert_eq!(header.vertices_offset, 112);
    assert_eq!(header.indices_offset, 208);
    assert_eq!(header.texture_offset, 220);
    assert_eq!(received.buffer().len(), 222);
    assert_eq!(&received.buffer()[220..], &[5, 6]);
}

#[test]
fn short_model_buffer_is_rejected() {
    let buffer = ModelBuffer::from_bytes(vec![0u8; 39]);
    assert!(buffer.model_header().is_none());
}

#[test]
fn texture_resolution_falls_back_to_the_default_sampler() {
    let headers = vec![TextureHeader {
        offset: 16,
        size: 64,
        format: TextureFormat::rgb8(),
        width: 4,
        height: 4,
    }];
    let odd_sampler = Sampler {
        mag_filter: 0,
        min_filter: 0,
        mipmap_filter: 0,
        address_mode_u: 0,
        address_mode_v: 0,
    };
    let samplers = vec![odd_sampler];

    // no slot: no view
    assert!(resolve_texture(&headers, &samplers, &None, true).is_none());

    // a slot naming a missing texture: no view
    let missing = TextureSlot { texture_index: 3, uv_index: 0, sampler_index: 0 };
    assert!(resolve_texture(&headers, &samplers, &Some(missing), true).is_none());

    // a valid slot with a valid sampler
    let slot = TextureSlot { texture_index: 0, uv_index: 2, sampler_index: 0 };
    let view = resolve_texture(&headers, &samplers, &Some(slot), true).unwrap();
    assert_eq!(view.texture_offset, 16);
    assert_eq!(view.texture_size, 64);
    assert_eq!(view.uv_index, 2);
    assert_eq!(view.sampler, odd_sampler);
    assert!(view.is_srgb);

    // a valid slot whose sampler index is out of range: default sampler
    let slot = TextureSlot { texture_index: 0, uv_index: 0, sampler_index: 9 };
    let view = resolve_texture(&headers, &samplers, &Some(slot), false).unwrap();
    assert_eq!(view.sampler, Sampler::default());
    assert!(!view.is_srgb);
}
