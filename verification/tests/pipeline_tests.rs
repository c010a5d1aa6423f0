use scenecore::pipeline::{
    drain_burst, AssetPayload, Command, Event, Inbox, MeshNode, RenderState, SceneAsset,
};
use scenecore::records::{
    CameraRecord, LightRecord, NormalRecord, SurfaceConfig, TransformRecord, LIGHT_POINT,
};
use scenecore::scene::{PipelineKind, PointcloudRecord, PrimitiveRecord};

fn camera(tag: u32) -> CameraRecord {
    CameraRecord { position: [tag, 0, 0], view: [0; 16], projection: [0; 16] }
}

fn camera_command(tag: u32) -> Command {
    Command::UpdateCamera { camera: camera(tag) }
}

fn spawn_command(entity: u128) -> Command {
    Command::SpawnAsset {
        entity_id: entity,
        render_id: 0,
        transform: TransformRecord::identity(),
        normal: NormalRecord { cols: [0; 16] },
    }
}

#[test]
fn camera_burst_coalesces_to_last() {
    let burst = vec![
        camera_command(1),
        camera_command(2),
        camera_command(3),
    ];
    let applied = drain_burst(burst);
    assert_eq!(applied.len(), 1);
    match &applied[0] {
        Command::UpdateCamera { camera: c } => assert_eq!(c.position[0], 3),
        _ => panic!("expected the last camera update"),
    }
}

#[test]
fn ordered_commands_survive_in_order() {
    let burst = vec![
        camera_command(1),
        spawn_command(10),
        camera_command(2),
        spawn_command(11),
        Command::RenderFrame,
        spawn_command(12),
        camera_command(3),
        Command::Stop,
    ];
    let applied = drain_burst(burst);
    // the ordered prefix: the three spawns and the stop, in arrival order
    let entities: Vec<u128> = applied
        .iter()
        .filter_map(|c| match c {
            Command::SpawnAsset { entity_id, .. } => Some(*entity_id),
            _ => None,
        })
        .collect();
    assert_eq!(entities, vec![10, 11, 12]);
    assert!(matches!(applied[3], Command::Stop));
    // then the surviving camera update, then the frame
    match &applied[4] {
        Command::UpdateCamera { camera: c } => assert_eq!(c.position[0], 3),
        _ => panic!("expected the coalesced camera update"),
    }
    assert!(matches!(applied[5], Command::RenderFrame));
    assert_eq!(applied.len(), 6);
}

#[test]
fn drain_applies_resize_before_camera_before_frame() {
    let burst = vec![
        Command::RenderFrame,
        camera_command(7),
        Command::Resize { config: SurfaceConfig { width: 800, height: 600 } },
    ];
    let applied = drain_burst(burst);
    assert_eq!(applied.len(), 3);
    assert!(matches!(applied[0], Command::Resize { .. }));
    assert!(matches!(applied[1], Command::UpdateCamera { .. }));
    assert!(matches!(applied[2], Command::RenderFrame));
}

#[test]
fn inbox_keeps_latest_of_each_kind() {
    let mut inbox = Inbox::new();
    assert!(inbox.receive(camera_command(1)).is_none());
    assert!(inbox.receive(camera_command(2)).is_none());
    assert!(matches!(inbox.receive(spawn_command(5)), Some(Command::SpawnAsset { .. })));
    let ready = inbox.take_ready();
    assert_eq!(ready.len(), 1);
    match &ready[0] {
        Command::UpdateCamera { camera: c } => assert_eq!(c.position[0], 2),
        _ => panic!("expected the last camera update"),
    }
    assert_eq!(inbox.take_ready().len(), 0);
}

#[test]
fn stop_halts_the_state_machine() {
    let mut state = RenderState::new(SurfaceConfig { width: 640, height: 480 });
    assert!(state.is_running());
    let events = state.apply_command(Command::Stop);
    assert!(events.is_empty());
    assert!(!state.is_running());
}

#[test]
fn resize_is_deferred_until_the_next_frame() {
    let mut state = RenderState::new(SurfaceConfig { width: 640, height: 480 });
    let config = SurfaceConfig { width: 1920, height: 1080 };
    let events = state.apply_command(Command::Resize { config });
    assert_eq!(events.len(), 1);
    assert!(matches!(events[0], Event::ResizeComplete { config: c } if c == config));
    // the surface keeps its old size until a frame is rendered
    assert_eq!(state.current_config(), SurfaceConfig { width: 640, height: 480 });
    let events = state.apply_command(Command::RenderFrame);
    assert_eq!(events.len(), 1);
    assert!(matches!(events[0], Event::FrameComplete));
    assert_eq!(state.current_config(), config);
}

#[test]
fn camera_update_is_applied() {
    let mut state = RenderState::new(SurfaceConfig { width: 640, height: 480 });
    let events = state.apply_command(Command::UpdateCamera { camera: camera(9) });
    assert!(events.is_empty());
    assert_eq!(state.camera().position[0], 9);
}

#[test]
fn spawned_lights_and_nodes_feed_the_batches() {
    let mut state = RenderState::new(SurfaceConfig { width: 640, height: 480 });
    let events = state.apply_command(Command::SpawnLight {
        entity_id: 1,
        light: LightRecord { color: [0; 3], cutoff: 0, intensity: 0, kind: LIGHT_POINT },
        transform: TransformRecord::identity(),
    });
    assert!(events.is_empty());
    // spawning a node against the built-in debug renderable draws it
    let debug_id = state.scene().debug_id();
    let events = state.apply_command(Command::SpawnAsset {
        entity_id: 2,
        render_id: debug_id,
        transform: TransformRecord::identity(),
        normal: NormalRecord { cols: [0; 16] },
    });
    assert!(events.is_empty());
    let batches = state.scene().render_batches();
    assert_eq!(batches.len(), 2);
    assert_eq!(batches[0].key.pipeline, PipelineKind::Light);
    assert_eq!(batches[1].key.pipeline, PipelineKind::Mesh);
}

#[test]
fn update_light_recolors_an_existing_light() {
    let mut state = RenderState::new(SurfaceConfig { width: 640, height: 480 });
    state.apply_command(Command::SpawnLight {
        entity_id: 1,
        light: LightRecord { color: [0; 3], cutoff: 0, intensity: 0, kind: LIGHT_POINT },
        transform: TransformRecord::identity(),
    });
    let events = state.apply_command(Command::UpdateLight {
        entity_id: 1,
        color: [10, 20, 30],
        intensity: 40,
        cutoff: 0,
    });
    assert!(events.is_empty());
    let light = state.scene().light_of(1).unwrap();
    assert_eq!(light.color, [10, 20, 30]);
    assert_eq!(light.intensity, 40);
    assert_eq!(light.kind, LIGHT_POINT);
}

fn default_material() -> scenecore::records::MaterialRecord {
    scenecore::records::MaterialRecord {
        base_color: None,
        metallic_roughness: None,
        normal: None,
        occlusion: None,
        emissive: None,
        base_color_factor: [0; 4],
        emissive_factor: [0; 3],
        metallic_factor: 0,
        roughness_factor: 0,
        occlusion_strength: 0,
        normal_scale: 0,
        alpha_cutoff: 0,
        alpha_mode: 0,
        double_sided: 0,
    }
}

#[test]
fn scene_load_emits_one_event_per_valid_node() {
    let mut state = RenderState::new(SurfaceConfig { width: 640, height: 480 });
    let asset = SceneAsset {
        materials: vec![default_material()],
        nodes: vec![
            MeshNode {
                transform: TransformRecord::identity(),
                primitives: vec![PrimitiveRecord { num_elements: 36, material_index: 0 }],
            },
            // this node names a material the asset does not have: skipped
            MeshNode {
                transform: TransformRecord::identity(),
                primitives: vec![PrimitiveRecord { num_elements: 12, material_index: 5 }],
            },
            MeshNode {
                transform: TransformRecord::identity(),
                primitives: vec![PrimitiveRecord { num_elements: 6, material_index: 0 }],
            },
        ],
    };
    let events = state.apply_command(Command::LoadAsset {
        asset: AssetPayload::Scene { asset, label: Some("demo".to_string()) },
    });
    assert_eq!(events.len(), 2);
    let mut render_ids = Vec::new();
    for event in &events {
        match event {
            Event::LoadComplete { render_id, transform, label } => {
                assert_eq!(transform, &Some(TransformRecord::identity()));
                assert_eq!(label.as_deref(), Some("demo"));
                render_ids.push(*render_id);
            }
            _ => panic!("expected load completions"),
        }
    }
    assert_ne!(render_ids[0], render_ids[1]);
    // the registered renderables resolve
    for rid in render_ids {
        assert!(state.scene().renderable_of(rid).is_some());
    }
}

#[test]
fn pointcloud_load_reports_the_axis_swap() {
    let mut state = RenderState::new(SurfaceConfig { width: 640, height: 480 });
    let events = state.apply_command(Command::LoadAsset {
        asset: AssetPayload::Pointcloud {
            pointcloud: PointcloudRecord { num_points: 12345 },
            label: None,
        },
    });
    assert_eq!(events.len(), 1);
    match &events[0] {
        Event::LoadComplete { render_id, transform, label } => {
            assert_eq!(transform, &Some(scenecore::pipeline::swap_yz()));
            assert!(label.is_none());
            match state.scene().renderable_of(*render_id) {
                Some(scenecore::scene::Renderable::Pointcloud(handle)) => {
                    match state.scene().geometry_by_id(handle.geometry_index) {
                        Some(scenecore::scene::Geometry::Pointcloud(pc)) => {
                            assert_eq!(pc.num_points, 12345)
                        }
                        other => panic!("unexpected geometry {:?}", other),
                    }
                }
                _ => panic!("expected a point cloud renderable"),
            }
        }
        _ => panic!("expected a load completion"),
    }
}

#[test]
fn entities_get_distinct_random_keys() {
    let a = scenecore::entity::Entity::new(TransformRecord::identity(), None);
    let b = scenecore::entity::Entity::new(TransformRecord::identity(), None);
    assert_ne!(a.id(), b.id());
}
