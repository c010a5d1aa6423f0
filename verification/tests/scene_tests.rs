use scenecore::records::{LightRecord, NormalRecord, TransformRecord, LIGHT_DIRECTIONAL, LIGHT_POINT};
use scenecore::scene::{Geometry, PipelineKind, PrimitiveRecord, SceneGraph};

fn normal_zero() -> NormalRecord {
    NormalRecord { cols: [0; 16] }
}

fn default_material() -> scenecore::records::MaterialRecord {
    scenecore::records::MaterialRecord {
        base_color: None,
        metallic_roughness: None,
        normal: None,
        occlusion: None,
        emissive: None,
        base_color_factor: [0; 4],
        emissive_factor: [0; 3],
        metallic_factor: 0,
        roughness_factor: 0,
        occlusion_strength: 0,
        normal_scale: 0,
        alpha_cutoff: 0,
        alpha_mode: 0,
        double_sided: 0,
    }
}

fn mesh_render_id(scene: &mut SceneGraph) -> u128 {
    let material = scene.add_material(default_material());
    let primitives = vec![PrimitiveRecord { num_elements: 36, material_index: 0 }];
    scene.add_mesh(&primitives, &vec![material])
}

#[test]
fn hundred_identical_nodes_make_one_batch() {
    let mut scene = SceneGraph::new();
    let rid = mesh_render_id(&mut scene);
    for i in 0..100u128 {
        scene.add_node(i, rid, TransformRecord::identity(), normal_zero());
    }
    let batches = scene.render_batches();
    assert_eq!(batches.len(), 1);
    assert_eq!(batches[0].key.render_id, rid);
    assert_eq!(batches[0].key.pipeline, PipelineKind::Mesh);
    assert_eq!(batches[0].instance_count, 100);
    assert_eq!(batches[0].instance_offset, 0);

    // removing half of them leaves one batch of the other half, and the
    // pool cursor reflects only currently-live records
    for i in 0..50u128 {
        scene.remove_node(i);
    }
    let batches = scene.render_batches();
    assert_eq!(batches.len(), 1);
    assert_eq!(batches[0].instance_count, 50);
    assert_eq!(scene.pool_cursor(), 50);
}

#[test]
fn batch_rebuild_is_deterministic() {
    let mut scene = SceneGraph::new();
    let rid_a = mesh_render_id(&mut scene);
    let rid_b = mesh_render_id(&mut scene);
    for i in 0..5u128 {
        scene.add_node(i, rid_a, TransformRecord::identity(), normal_zero());
    }
    for i in 5..8u128 {
        scene.add_node(i, rid_b, TransformRecord::identity(), normal_zero());
    }
    scene.add_light(
        99,
        LightRecord { color: [0; 3], cutoff: 0, intensity: 0, kind: LIGHT_POINT },
        TransformRecord::identity(),
    );
    scene.build_render_batches();
    let first: Vec<_> = scene.render_batches().clone();
    let first_records: Vec<_> = (0..scene.pool_cursor()).map(|i| scene.pool_record(i)).collect();
    scene.build_render_batches();
    let second: Vec<_> = scene.render_batches().clone();
    let second_records: Vec<_> = (0..scene.pool_cursor()).map(|i| scene.pool_record(i)).collect();
    assert_eq!(first, second);
    assert_eq!(first_records, second_records);
    // light debug batches sort first, then the mesh batches by render id
    assert_eq!(first.len(), 3);
    assert_eq!(first[0].key.pipeline, PipelineKind::Light);
    assert_eq!(first[1].key.pipeline, PipelineKind::Mesh);
    assert!(first[1].key.render_id < first[2].key.render_id);
}

#[test]
fn point_lights_get_debug_cubes_but_directional_do_not() {
    let mut scene = SceneGraph::new();
    scene.add_light(
        1,
        LightRecord { color: [0; 3], cutoff: 0, intensity: 0, kind: LIGHT_POINT },
        TransformRecord::identity(),
    );
    scene.add_light(
        2,
        LightRecord { color: [0; 3], cutoff: 0, intensity: 0, kind: LIGHT_DIRECTIONAL },
        TransformRecord::identity(),
    );
    scene.build_render_batches();
    let batches = scene.render_batches();
    assert_eq!(batches.len(), 1);
    assert_eq!(batches[0].key.pipeline, PipelineKind::Light);
    assert_eq!(batches[0].key.render_id, scene.debug_id());
    assert_eq!(batches[0].instance_count, 1);
}

#[test]
fn node_with_missing_renderable_is_skipped() {
    let mut scene = SceneGraph::new();
    scene.add_node(1, 0xdead_beef, TransformRecord::identity(), normal_zero());
    assert_eq!(scene.render_batches().len(), 0);
}

#[test]
fn sync_rebuilds_bindings_only_when_dirty() {
    let mut scene = SceneGraph::new();
    // a fresh scene has nothing dirty
    assert!(!scene.sync());
    // adding transforms beyond the initial capacity grows the store
    for i in 0..65u128 {
        scene.add_light(
            i,
            LightRecord { color: [0; 3], cutoff: 0, intensity: 0, kind: LIGHT_DIRECTIONAL },
            TransformRecord::identity(),
        );
    }
    assert!(scene.sync());
    let binding = scene.binding_set();
    assert_eq!(binding.transforms_generation, 1);
    // a second sync finds nothing dirty and keeps the binding set
    assert!(!scene.sync());
    assert_eq!(scene.binding_set(), binding);
}

#[test]
fn update_transform_changes_only_existing_entities() {
    let mut scene = SceneGraph::new();
    let rid = mesh_render_id(&mut scene);
    scene.add_node(1, rid, TransformRecord::identity(), normal_zero());
    let moved = TransformRecord { cols: [7; 16] };
    scene.update_transform(1, moved);
    assert_eq!(scene.transform_of(1), Some(&moved));
    scene.update_transform(2, moved);
    assert_eq!(scene.transform_of(2), None);
}

#[test]
fn mesh_handles_resolve_through_geometry_store() {
    let mut scene = SceneGraph::new();
    let material = scene.add_material(default_material());
    let primitives = vec![
        PrimitiveRecord { num_elements: 36, material_index: 0 },
        PrimitiveRecord { num_elements: 12, material_index: 0 },
    ];
    let rid = scene.add_mesh(&primitives, &vec![material]);
    match scene.renderable_of(rid) {
        Some(scenecore::scene::Renderable::Mesh(handles)) => {
            assert_eq!(handles.len(), 2);
            match scene.geometry_by_id(handles[1].geometry_index) {
                Some(Geometry::Primitive(p)) => assert_eq!(p.num_elements, 12),
                other => panic!("unexpected geometry {:?}", other),
            }
        }
        _ => panic!("expected a mesh renderable"),
    }
}
