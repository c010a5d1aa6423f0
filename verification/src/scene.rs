//! The scene graph: owns every component store, the relation stores that tie
//! nodes and lights to their transforms, the ring instance pool and the
//! render batches, and rebuilds the batches whenever the topology changes.
//!
//! Renderable, geometry and material records are keyed by identifiers the
//! scene mints from a private counter, so every freshly added asset gets a
//! key no earlier asset used. Nodes, transforms, normals and lights are
//! keyed by the caller's entity keys.

use vstd::prelude::*;
use crate::instance::{Instance, InstancePool, PoolModel, pool_wf, spec_upload, spec_upload_offset};
use crate::records::{
    EnvironmentMap, LightRecord, MaterialRecord, NormalRecord, TransformRecord, LIGHT_POINT,
};
use crate::relation::{
    relation_headroom, relation_wf, spec_link, spec_relation_new, RelationModel, RelationStore,
};
use crate::store::{
    spec_add, spec_add_slot, spec_remove, spec_set, spec_store_new, store_headroom, store_wf,
    ComponentId, ComponentStore, StoreModel,
};

verus! {

/// Which pipeline a batch is drawn with, in the order batches are sorted:
/// the debug-light pipeline, then meshes, then point clouds.
#[derive(Clone, Copy, Debug, PartialEq)]
pub enum PipelineKind {
    Light,
    Mesh,
    Pointcloud,
}

impl PipelineKind {
    /// Sort rank of the pipeline; injective.
    pub open spec fn spec_rank(self) -> u8 {
        match self {
            PipelineKind::Light => 0,
            PipelineKind::Mesh => 1,
            PipelineKind::Pointcloud => 2,
        }
    }

    /// Sort rank of the pipeline.
    pub fn rank(&self) -> (r: u8)
        ensures
            r == self.spec_rank(),
    {
        match self {
            PipelineKind::Light => 0,
            PipelineKind::Mesh => 1,
            PipelineKind::Pointcloud => 2,
        }
    }
}

/// What a render batch is keyed by: the pipeline and the renderable.
#[derive(Clone, Copy, Debug, PartialEq)]
pub struct BatchKey {
    pub pipeline: PipelineKind,
    pub render_id: u128,
}

/// Strict total order on batch keys: by pipeline rank, then by renderable
/// identifier.
pub open spec fn key_lt(a: BatchKey, b: BatchKey) -> bool {
    a.pipeline.spec_rank() < b.pipeline.spec_rank()
        || (a.pipeline.spec_rank() == b.pipeline.spec_rank() && a.render_id < b.render_id)
}

/// `key_lt` is a strict total order: exactly one of `a < b`, `a == b`,
/// `b < a` holds.
pub proof fn lemma_key_lt_trichotomy(a: BatchKey, b: BatchKey)
    ensures
        key_lt(a, b) || key_lt(b, a) || a == b,
        key_lt(a, b) ==> !key_lt(b, a) && a != b,
        key_lt(b, a) ==> !key_lt(a, b) && a != b,
{
    if a.pipeline.spec_rank() == b.pipeline.spec_rank() {
        assert(a.pipeline == b.pipeline) by {
            match a.pipeline {
                PipelineKind::Light => assert(b.pipeline == PipelineKind::Light),
                PipelineKind::Mesh => assert(b.pipeline == PipelineKind::Mesh),
                PipelineKind::Pointcloud => assert(b.pipeline == PipelineKind::Pointcloud),
            }
        }
    }
}

/// A sequence of keys in strictly increasing order (hence duplicate-free).
pub open spec fn strictly_sorted_keys(keys: Seq<BatchKey>) -> bool {
    forall|i: int, j: int| 0 <= i < j < keys.len() ==> key_lt(#[trigger] keys[i], #[trigger] keys[j])
}

/// Two strictly sorted key sequences that contain the same keys are equal.
pub proof fn lemma_sorted_keys_unique(x: Seq<BatchKey>, y: Seq<BatchKey>)
    requires
        strictly_sorted_keys(x),
        strictly_sorted_keys(y),
        forall|k: BatchKey| x.contains(k) <==> y.contains(k),
    ensures
        x =~= y,
    decreases x.len(),
{
    if x.len() == 0 {
        if y.len() > 0 {
            assert(y.contains(y[0]));
        }
    } else {
        assert(x.contains(x[0]));
        assert(y.contains(x[0]));
        let j = choose|j: int| 0 <= j < y.len() && y[j] == x[0];
        assert(y.contains(y[0]));
        assert(x.contains(y[0]));
        let i = choose|i: int| 0 <= i < x.len() && x[i] == y[0];
        lemma_key_lt_trichotomy(x[0], y[0]);
        assert(x[0] == y[0]) by {
            if key_lt(x[0], y[0]) {
                assert(j > 0);
                assert(key_lt(y[0], y[j]));
            } else if key_lt(y[0], x[0]) {
                assert(i > 0);
                assert(key_lt(x[0], x[i]));
            }
        }
        let xr = x.drop_first();
        let yr = y.drop_first();
        assert forall|k: BatchKey| xr.contains(k) implies yr.contains(k) by {
            let ii = choose|ii: int| 0 <= ii < xr.len() && xr[ii] == k;
            assert(x[ii + 1] == k);
            assert(key_lt(x[0], k));
            assert(y.contains(k));
            let jj = choose|jj: int| 0 <= jj < y.len() && y[jj] == k;
            lemma_key_lt_trichotomy(x[0], k);
            assert(jj != 0);
            assert(yr[jj - 1] == k);
        }
        assert forall|k: BatchKey| yr.contains(k) implies xr.contains(k) by {
            let jj = choose|jj: int| 0 <= jj < yr.len() && yr[jj] == k;
            assert(y[jj + 1] == k);
            assert(key_lt(y[0], k));
            assert(x.contains(k));
            let ii = choose|ii: int| 0 <= ii < x.len() && x[ii] == k;
            lemma_key_lt_trichotomy(y[0], k);
            assert(ii != 0);
            assert(xr[ii - 1] == k);
        }
        lemma_sorted_keys_unique(xr, yr);
        assert(x.len() == y.len());
        assert forall|t: int| 0 <= t < x.len() implies x[t] == y[t] by {
            if t > 0 {
                assert(x[t] == xr[t - 1]);
                assert(y[t] == yr[t - 1]);
            }
        }
    }
}

/// A contiguous instance-pool range drawn with one pipeline and one
/// renderable.
#[derive(Clone, Copy, Debug, PartialEq)]
pub struct RenderBatch {
    pub key: BatchKey,
    pub instance_offset: u32,
    pub instance_count: u32,
}

impl RenderBatch {
    /// The batch's half-open instance range, as a start/end pair.
    pub fn instance_range(&self) -> (r: (u32, u32))
        requires
            self.instance_offset + self.instance_count <= u32::MAX,
        ensures
            r.0 == self.instance_offset,
            r.1 == self.instance_offset + self.instance_count,
    {
        (self.instance_offset, self.instance_offset + self.instance_count)
    }
}

/// One vertex/index buffer pair as the scene tracks it: how many indices a
/// draw of it covers and which of the asset's materials it uses.
#[derive(Clone, Copy, Debug, PartialEq)]
pub struct PrimitiveRecord {
    pub num_elements: u32,
    pub material_index: usize,
}

/// One point-cloud vertex buffer as the scene tracks it.
#[derive(Clone, Copy, Debug, PartialEq)]
pub struct PointcloudRecord {
    pub num_points: u32,
}

/// A stored geometry: a mesh primitive or a point cloud.
#[derive(Clone, Copy, Debug, PartialEq)]
pub enum Geometry {
    Primitive(PrimitiveRecord),
    Pointcloud(PointcloudRecord),
}

/// One primitive of a mesh renderable: its geometry slot and its material
/// slot.
#[derive(Clone, Copy, Debug, PartialEq)]
pub struct PrimitiveHandle {
    pub geometry_index: ComponentId<Geometry>,
    pub material_index: ComponentId<MaterialRecord>,
}

/// The single geometry slot of a point-cloud renderable.
#[derive(Clone, Copy, Debug, PartialEq)]
pub struct PointcloudHandle {
    pub geometry_index: ComponentId<Geometry>,
}

/// A drawable unit: a list of primitive handles, or one point cloud.
pub enum Renderable {
    Mesh(Vec<PrimitiveHandle>),
    Pointcloud(PointcloudHandle),
}

impl Renderable {
    /// The pipeline a renderable of this kind is drawn with.
    pub open spec fn spec_kind(&self) -> PipelineKind {
        match self {
            Renderable::Mesh(_) => PipelineKind::Mesh,
            Renderable::Pointcloud(_) => PipelineKind::Pointcloud,
        }
    }

    /// The pipeline a renderable of this kind is drawn with.
    pub fn kind(&self) -> (r: PipelineKind)
        ensures
            r == self.spec_kind(),
    {
        match self {
            Renderable::Mesh(_) => PipelineKind::Mesh,
            Renderable::Pointcloud(_) => PipelineKind::Pointcloud,
        }
    }
}

/// The generations of the four store buffers the aggregate binding set was
/// built from. A binding set is usable only while these match the stores'
/// current buffer generations.
#[derive(Clone, Copy, Debug, PartialEq)]
pub struct BindingSet {
    pub transforms_generation: u64,
    pub normals_generation: u64,
    pub lights_generation: u64,
    pub lights_transform_generation: u64,
}

/// Mathematical model of the whole scene graph.
#[verifier::ext_equal]
pub struct SceneModel {
    pub nodes: StoreModel<u128>,
    pub renderables: StoreModel<Renderable>,
    pub geometries: StoreModel<Geometry>,
    pub materials: StoreModel<MaterialRecord>,
    pub transforms: StoreModel<TransformRecord>,
    pub normals: StoreModel<NormalRecord>,
    pub lights: StoreModel<LightRecord>,
    pub node_transform_index: RelationModel,
    pub node_normal_index: RelationModel,
    pub lights_transform_index: RelationModel,
    pub environment_map: Option<EnvironmentMap>,
    pub pool: PoolModel,
    pub batches: Seq<RenderBatch>,
    pub debug_id: u128,
    pub next_key: u128,
    pub binding: BindingSet,
}

/// Scene invariant: every owned store is well formed, asset keys stay below
/// the mint counter, the debug renderable is always present, and whenever a
/// store's dirty flag is clear the binding set was built from its current
/// buffer.
pub open spec fn scene_wf(m: SceneModel) -> bool {
    &&& store_wf(m.nodes)
    &&& store_wf(m.renderables)
    &&& store_wf(m.geometries)
    &&& store_wf(m.materials)
    &&& store_wf(m.transforms)
    &&& store_wf(m.normals)
    &&& store_wf(m.lights)
    &&& relation_wf(m.node_transform_index)
    &&& relation_wf(m.node_normal_index)
    &&& relation_wf(m.lights_transform_index)
    &&& pool_wf(m.pool)
    &&& forall|k: u128| #[trigger] m.renderables.index.contains_key(k) ==> k < m.next_key
    &&& forall|k: u128| #[trigger] m.geometries.index.contains_key(k) ==> k < m.next_key
    &&& forall|k: u128| #[trigger] m.materials.index.contains_key(k) ==> k < m.next_key
    &&& m.renderables.index.contains_key(m.debug_id)
    &&& (!m.transforms.dirty ==> m.binding.transforms_generation == m.transforms.generation)
    &&& (!m.normals.dirty ==> m.binding.normals_generation == m.normals.generation)
    &&& (!m.lights.dirty ==> m.binding.lights_generation == m.lights.generation)
    &&& (!m.lights_transform_index.dirty ==> m.binding.lights_transform_generation
        == m.lights_transform_index.generation)
}

/// The binding set matches every mirrored buffer it references: safe to use
/// for the next submission.
pub open spec fn binding_current(m: SceneModel) -> bool {
    &&& m.binding.transforms_generation == m.transforms.generation
    &&& m.binding.normals_generation == m.normals.generation
    &&& m.binding.lights_generation == m.lights.generation
    &&& m.binding.lights_transform_generation == m.lights_transform_index.generation
}

/// The scene graph.
pub struct SceneGraph {
    nodes: ComponentStore<u128>,
    renderables: ComponentStore<Renderable>,
    geometries: ComponentStore<Geometry>,
    materials: ComponentStore<MaterialRecord>,
    transforms: ComponentStore<TransformRecord>,
    normals: ComponentStore<NormalRecord>,
    lights: ComponentStore<LightRecord>,
    node_transform_index: RelationStore<u128, TransformRecord>,
    node_normal_index: RelationStore<u128, NormalRecord>,
    lights_transform_index: RelationStore<LightRecord, TransformRecord>,
    environment_map: Option<EnvironmentMap>,
    instance_pool: InstancePool,
    render_batches: Vec<RenderBatch>,
    debug_id: u128,
    next_key: u128,
    binding: BindingSet,
}

impl View for SceneGraph {
    type V = SceneModel;

    closed spec fn view(&self) -> SceneModel {
        SceneModel {
            nodes: self.nodes@,
            renderables: self.renderables@,
            geometries: self.geometries@,
            materials: self.materials@,
            transforms: self.transforms@,
            normals: self.normals@,
            lights: self.lights@,
            node_transform_index: self.node_transform_index@,
            node_normal_index: self.node_normal_index@,
            lights_transform_index: self.lights_transform_index@,
            environment_map: self.environment_map,
            pool: self.instance_pool@,
            batches: self.render_batches@,
            debug_id: self.debug_id,
            next_key: self.next_key,
            binding: self.binding,
        }
    }
}

/// Number of indices of the built-in unit cube (12 triangles).
pub const UNIT_CUBE_INDICES: u32 = 36;

impl SceneGraph {
    pub open spec fn wf(&self) -> bool {
        scene_wf(self@)
    }

    /// A new scene: empty stores, a zero-filled instance pool, and the
    /// built-in unit-cube renderable that debug-visualizes point lights,
    /// registered under `debug_id`.
    pub fn new() -> (s: Self)
        ensures
            s.wf(),
            s@.nodes == spec_store_new::<u128>(64),
            s@.transforms == spec_store_new::<TransformRecord>(64),
            s@.normals == spec_store_new::<NormalRecord>(64),
            s@.lights == spec_store_new::<LightRecord>(64),
            s@.materials == spec_store_new::<MaterialRecord>(64),
            s@.geometries == spec_add(
                spec_store_new::<Geometry>(64),
                0,
                Geometry::Primitive(
                    PrimitiveRecord { num_elements: UNIT_CUBE_INDICES, material_index: 0 },
                ),
            ),
            s@.renderables.index.contains_key(s@.debug_id),
            s@.renderables.records[s@.renderables.index[s@.debug_id] as int] matches
                Renderable::Mesh(handles) && handles@.len() == 1
                && handles@[0].geometry_index@ == 0 && handles@[0].material_index@ == 0,
            s@.node_transform_index == spec_relation_new(64),
            s@.node_normal_index == spec_relation_new(64),
            s@.lights_transform_index == spec_relation_new(64),
            s@.environment_map is None,
            s@.pool.cursor == 0,
            s@.pool.data.len() == 2048,
            s@.batches =~= Seq::<RenderBatch>::empty(),
            s@.debug_id == 1,
            s@.next_key == 2,
    {
        let mut geometries: ComponentStore<Geometry> = ComponentStore::new(64);
        let cube = Geometry::Primitive(
            PrimitiveRecord { num_elements: UNIT_CUBE_INDICES, material_index: 0 },
        );
        let cube_geometry = geometries.add(0, cube);
        let mut renderables: ComponentStore<Renderable> = ComponentStore::new(64);
        let handles = vec![
            PrimitiveHandle { geometry_index: cube_geometry, material_index: ComponentId::new(0) },
        ];
        let debug_id: u128 = 1;
        renderables.add(debug_id, Renderable::Mesh(handles));
        SceneGraph {
            nodes: ComponentStore::new(64),
            renderables,
            geometries,
            materials: ComponentStore::new(64),
            transforms: ComponentStore::new(64),
            normals: ComponentStore::new(64),
            lights: ComponentStore::new(64),
            node_transform_index: RelationStore::new(64),
            node_normal_index: RelationStore::new(64),
            lights_transform_index: RelationStore::new(64),
            environment_map: None,
            instance_pool: InstancePool::new(2048),
            render_batches: Vec::new(),
            debug_id,
            next_key: 2,
            binding: BindingSet {
                transforms_generation: 0,
                normals_generation: 0,
                lights_generation: 0,
                lights_transform_generation: 0,
            },
        }
    }

    /// Register a material under a fresh key; the returned handle names its
    /// slot.
    pub fn add_material(&mut self, material: MaterialRecord) -> (id: ComponentId<MaterialRecord>)
        requires
            old(self).wf(),
            store_headroom(old(self)@.materials),
            old(self)@.next_key < u128::MAX,
        ensures
            final(self).wf(),
            final(self)@ == (SceneModel {
                materials: spec_add(old(self)@.materials, old(self)@.next_key, material),
                next_key: (old(self)@.next_key + 1) as u128,
                ..old(self)@
            }),
            id@ == spec_add_slot(old(self)@.materials, old(self)@.next_key) as u32,
            id == ComponentId::<MaterialRecord>::spec_new(
                spec_add_slot(old(self)@.materials, old(self)@.next_key) as u32,
            ),
    {
        let key = self.next_key;
        self.next_key = self.next_key + 1;
        let id = self.materials.add(key, material);
        proof {
            assert(self@ =~= (SceneModel {
                materials: spec_add(old(self)@.materials, old(self)@.next_key, material),
                next_key: (old(self)@.next_key + 1) as u128,
                ..old(self)@
            }));
        }
        id
    }

    /// Register a geometry under a fresh key; the returned handle names its
    /// slot.
    pub fn add_geometry(&mut self, geometry: Geometry) -> (id: ComponentId<Geometry>)
        requires
            old(self).wf(),
            store_headroom(old(self)@.geometries),
            old(self)@.next_key < u128::MAX,
        ensures
            final(self).wf(),
            final(self)@ == (SceneModel {
                geometries: spec_add(old(self)@.geometries, old(self)@.next_key, geometry),
                next_key: (old(self)@.next_key + 1) as u128,
                ..old(self)@
            }),
            id@ == spec_add_slot(old(self)@.geometries, old(self)@.next_key) as u32,
            id == ComponentId::<Geometry>::spec_new(
                spec_add_slot(old(self)@.geometries, old(self)@.next_key) as u32,
            ),
    {
        let key = self.next_key;
        self.next_key = self.next_key + 1;
        let id = self.geometries.add(key, geometry);
        proof {
            assert(self@ =~= (SceneModel {
                geometries: spec_add(old(self)@.geometries, old(self)@.next_key, geometry),
                next_key: (old(self)@.next_key + 1) as u128,
                ..old(self)@
            }));
        }
        id
    }

    /// Register a renderable under a fresh key and return that key: the
    /// asset's render identifier.
    pub fn add_renderable(&mut self, renderable: Renderable) -> (id: u128)
        requires
            old(self).wf(),
            store_headroom(old(self)@.renderables),
            old(self)@.next_key < u128::MAX,
        ensures
            final(self).wf(),
            id == old(self)@.next_key,
            final(self)@ == (SceneModel {
                renderables: spec_add(old(self)@.renderables, old(self)@.next_key, renderable),
                next_key: (old(self)@.next_key + 1) as u128,
                ..old(self)@
            }),
    {
        let key = self.next_key;
        self.next_key = self.next_key + 1;
        self.renderables.add(key, renderable);
        proof {
            assert(self@ =~= (SceneModel {
                renderables: spec_add(old(self)@.renderables, old(self)@.next_key, renderable),
                next_key: (old(self)@.next_key + 1) as u128,
                ..old(self)@
            }));
        }
        key
    }

    /// Store the environment map.
    pub fn set_environment_map(&mut self, environment_map: EnvironmentMap)
        requires
            old(self).wf(),
        ensures
            final(self).wf(),
            final(self)@ == (SceneModel {
                environment_map: Some(environment_map),
                ..old(self)@
            }),
    {
        self.environment_map = Some(environment_map);
        proof {
            assert(self@ =~= (SceneModel {
                environment_map: Some(environment_map),
                ..old(self)@
            }));
        }
    }

    /// Overwrite the transform record of an entity that has one; no change
    /// otherwise. Does not touch the normal matrix.
    pub fn update_transform(&mut self, entity: u128, transform: TransformRecord)
        requires
            old(self).wf(),
        ensures
            final(self).wf(),
            final(self)@ == (SceneModel {
                transforms: spec_set(old(self)@.transforms, entity, transform),
                ..old(self)@
            }),
    {
        self.transforms.set(entity, transform);
        proof {
            assert(self@ =~= (SceneModel {
                transforms: spec_set(old(self)@.transforms, entity, transform),
                ..old(self)@
            }));
        }
    }

    /// Overwrite the light record of an entity that has one; no change
    /// otherwise.
    pub fn update_light(&mut self, entity: u128, light: LightRecord)
        requires
            old(self).wf(),
        ensures
            final(self).wf(),
            final(self)@ == (SceneModel {
                lights: spec_set(old(self)@.lights, entity, light),
                ..old(self)@
            }),
    {
        self.lights.set(entity, light);
        proof {
            assert(self@ =~= (SceneModel {
                lights: spec_set(old(self)@.lights, entity, light),
                ..old(self)@
            }));
        }
    }

    /// Spawn a light: store its transform and its light record under the
    /// entity and link the light slot to the transform slot.
    pub fn add_light(&mut self, entity: u128, light: LightRecord, transform: TransformRecord)
        requires
            old(self).wf(),
            store_headroom(old(self)@.transforms),
            store_headroom(old(self)@.lights),
            relation_headroom(
                old(self)@.lights_transform_index,
                old(self)@.lights.records.len() as u32,
            ),
        ensures
            final(self).wf(),
            final(self)@ == (SceneModel {
                transforms: spec_add(old(self)@.transforms, entity, transform),
                lights: spec_add(old(self)@.lights, entity, light),
                lights_transform_index: spec_link(
                    old(self)@.lights_transform_index,
                    spec_add_slot(old(self)@.lights, entity) as u32,
                    spec_add_slot(old(self)@.transforms, entity) as u32,
                ),
                ..old(self)@
            }),
    {
        let transform_index = self.transforms.add(entity, transform);
        let light_index = self.lights.add(entity, light);
        self.lights_transform_index.link(light_index, transform_index);
        proof {
            assert(self@ =~= (SceneModel {
                transforms: spec_add(old(self)@.transforms, entity, transform),
                lights: spec_add(old(self)@.lights, entity, light),
                lights_transform_index: spec_link(
                    old(self)@.lights_transform_index,
                    spec_add_slot(old(self)@.lights, entity) as u32,
                    spec_add_slot(old(self)@.transforms, entity) as u32,
                ),
                ..old(self)@
            }));
        }
    }

    /// Poll and clear every store's dirty flag; when any was set, rebuild
    /// the aggregate binding set from the stores' current buffers. This is
    /// the only way the binding set changes, so a clear dirty flag always
    /// means the binding set references no freed buffer.
    pub fn sync(&mut self) -> (rebuilt: bool)
        requires
            old(self).wf(),
        ensures
            final(self).wf(),
            binding_current(final(self)@),
            rebuilt == (old(self)@.transforms.dirty || old(self)@.lights.dirty
                || old(self)@.node_transform_index.dirty
                || old(self)@.lights_transform_index.dirty || old(self)@.normals.dirty
                || old(self)@.node_normal_index.dirty),
            final(self)@.transforms == (StoreModel { dirty: false, ..old(self)@.transforms }),
            final(self)@.normals == (StoreModel { dirty: false, ..old(self)@.normals }),
            final(self)@.lights == (StoreModel { dirty: false, ..old(self)@.lights }),
            final(self)@.node_transform_index == (RelationModel {
                dirty: false,
                ..old(self)@.node_transform_index
            }),
            final(self)@.node_normal_index == (RelationModel {
                dirty: false,
                ..old(self)@.node_normal_index
            }),
            final(self)@.lights_transform_index == (RelationModel {
                dirty: false,
                ..old(self)@.lights_transform_index
            }),
            final(self)@.nodes == old(self)@.nodes,
            final(self)@.renderables == old(self)@.renderables,
            final(self)@.geometries == old(self)@.geometries,
            final(self)@.materials == old(self)@.materials,
            final(self)@.environment_map == old(self)@.environment_map,
            final(self)@.pool == old(self)@.pool,
            final(self)@.batches == old(self)@.batches,
            final(self)@.debug_id == old(self)@.debug_id,
            final(self)@.next_key == old(self)@.next_key,
    {
        let d1 = self.transforms.is_dirty();
        let d2 = self.lights.is_dirty();
        let d3 = self.node_transform_index.is_dirty();
        let d4 = self.lights_transform_index.is_dirty();
        let d5 = self.normals.is_dirty();
        let d6 = self.node_normal_index.is_dirty();
        let rebuilt = d1 || d2 || d3 || d4 || d5 || d6;
        if rebuilt {
            self.binding = BindingSet {
                transforms_generation: self.transforms.generation(),
                normals_generation: self.normals.generation(),
                lights_generation: self.lights.generation(),
                lights_transform_generation: self.lights_transform_index.generation(),
            };
        }
        rebuilt
    }

    /// The binding set last built by `sync`.
    pub fn binding_set(&self) -> (r: BindingSet)
        ensures
            r == self@.binding,
    {
        self.binding
    }

    /// The render identifier of the built-in debug cube.
    pub fn debug_id(&self) -> (r: u128)
        ensures
            r == self@.debug_id,
    {
        self.debug_id
    }

    /// The current render batches, sorted by key.
    pub fn render_batches(&self) -> (r: &Vec<RenderBatch>)
        ensures
            r@ == self@.batches,
    {
        &self.render_batches
    }

    /// Read one record of the instance pool's mirrored device array.
    pub fn pool_record(&self, index: usize) -> (r: Option<Instance>)
        ensures
            match r {
                Some(v) => index < self@.pool.data.len() && v == self@.pool.data[index as int],
                None => index >= self@.pool.data.len(),
            },
    {
        self.instance_pool.record_at(index)
    }

    /// The instance pool's write cursor.
    pub fn pool_cursor(&self) -> (r: usize)
        ensures
            r == self@.pool.cursor,
    {
        self.instance_pool.cursor()
    }

    /// The transform record of an entity.
    pub fn transform_of(&self, entity: u128) -> (r: Option<&TransformRecord>)
        requires
            self.wf(),
        ensures
            match r {
                Some(v) => self@.transforms.index.contains_key(entity)
                    && *v == self@.transforms.records[self@.transforms.index[entity] as int],
                None => !self@.transforms.index.contains_key(entity),
            },
    {
        self.transforms.get(entity)
    }

    /// The light record of an entity.
    pub fn light_of(&self, entity: u128) -> (r: Option<&LightRecord>)
        requires
            self.wf(),
        ensures
            match r {
                Some(v) => self@.lights.index.contains_key(entity)
                    && *v == self@.lights.records[self@.lights.index[entity] as int],
                None => !self@.lights.index.contains_key(entity),
            },
    {
        self.lights.get(entity)
    }

    /// The renderable registered under a render identifier.
    pub fn renderable_of(&self, render_id: u128) -> (r: Option<&Renderable>)
        requires
            self.wf(),
        ensures
            match r {
                Some(v) => self@.renderables.index.contains_key(render_id)
                    && *v == self@.renderables.records[self@.renderables.index[render_id] as int],
                None => !self@.renderables.index.contains_key(render_id),
            },
    {
        self.renderables.get(render_id)
    }

    /// Resolve a geometry handle.
    pub fn geometry_by_id(&self, id: ComponentId<Geometry>) -> (r: Option<&Geometry>)
        ensures
            match r {
                Some(v) => id@ < self@.geometries.records.len()
                    && *v == self@.geometries.records[id@ as int],
                None => id@ >= self@.geometries.records.len(),
            },
    {
        self.geometries.get_by_id(id)
    }

    /// Resolve a material handle.
    pub fn material_by_id(&self, id: ComponentId<MaterialRecord>) -> (r: Option<&MaterialRecord>)
        ensures
            match r {
                Some(v) => id@ < self@.materials.records.len()
                    && *v == self@.materials.records[id@ as int],
                None => id@ >= self@.materials.records.len(),
            },
    {
        self.materials.get_by_id(id)
    }
}


/// The batch item a node slot contributes: if the slot is live, both
/// relations reach it, and its renderable exists, one (key, instance) pair;
/// otherwise nothing (the node is skipped for this frame).
pub open spec fn node_item_at(m: SceneModel, i: int) -> Seq<(BatchKey, Instance)> {
    if m.nodes.live[i] && i < m.node_transform_index.mapping.len()
        && i < m.node_normal_index.mapping.len()
        && m.renderables.index.contains_key(m.nodes.records[i]) {
        let rid = m.nodes.records[i];
        let renderable = m.renderables.records[m.renderables.index[rid] as int];
        seq![
            (
                BatchKey { pipeline: renderable.spec_kind(), render_id: rid },
                Instance {
                    transform_index: m.node_transform_index.mapping[i],
                    normal_index: m.node_normal_index.mapping[i],
                },
            ),
        ]
    } else {
        Seq::empty()
    }
}

/// The batch items of the first `n` node slots, in slot order.
pub open spec fn node_items_upto(m: SceneModel, n: int) -> Seq<(BatchKey, Instance)>
    decreases n,
{
    if n <= 0 {
        Seq::empty()
    } else {
        node_items_upto(m, n - 1) + node_item_at(m, n - 1)
    }
}

/// The batch item a light slot contributes: point lights whose transform
/// relation reaches them are debug-visualized with the built-in cube.
pub open spec fn light_item_at(m: SceneModel, i: int) -> Seq<(BatchKey, Instance)> {
    if m.lights.live[i] && m.lights.records[i].kind == LIGHT_POINT
        && i < m.lights_transform_index.mapping.len()
        && m.renderables.index.contains_key(m.debug_id) {
        seq![
            (
                BatchKey { pipeline: PipelineKind::Light, render_id: m.debug_id },
                Instance {
                    transform_index: m.lights_transform_index.mapping[i],
                    normal_index: 0,
                },
            ),
        ]
    } else {
        Seq::empty()
    }
}

/// The batch items of the first `n` light slots, in slot order.
pub open spec fn light_items_upto(m: SceneModel, n: int) -> Seq<(BatchKey, Instance)>
    decreases n,
{
    if n <= 0 {
        Seq::empty()
    } else {
        light_items_upto(m, n - 1) + light_item_at(m, n - 1)
    }
}

/// Everything one batch rebuild draws: the items of all node slots followed
/// by the debug items of all light slots, in slot order.
pub open spec fn spec_batch_items(m: SceneModel) -> Seq<(BatchKey, Instance)> {
    node_items_upto(m, m.nodes.records.len() as int)
        + light_items_upto(m, m.lights.records.len() as int)
}

/// Whether some item carries the given key.
pub open spec fn items_have_key(items: Seq<(BatchKey, Instance)>, k: BatchKey) -> bool {
    exists|i: int| 0 <= i < items.len() && #[trigger] items[i].0 == k
}

/// The predicate selecting items with the given key.
pub open spec fn has_key(k: BatchKey) -> spec_fn((BatchKey, Instance)) -> bool {
    |it: (BatchKey, Instance)| it.0 == k
}

/// The instances of all items with the given key, in item order.
pub open spec fn group_instances(items: Seq<(BatchKey, Instance)>, k: BatchKey) -> Seq<Instance> {
    items.filter(has_key(k)).map_values(|it: (BatchKey, Instance)| it.1)
}

/// The instance groups of a key sequence.
pub open spec fn spec_groups(
    items: Seq<(BatchKey, Instance)>,
    keys: Seq<BatchKey>,
) -> Seq<Seq<Instance>> {
    keys.map_values(|k: BatchKey| group_instances(items, k))
}

/// The pool after uploading each group in turn.
pub open spec fn spec_pool_after(p: PoolModel, groups: Seq<Seq<Instance>>) -> PoolModel
    decreases groups.len(),
{
    if groups.len() == 0 {
        p
    } else {
        spec_pool_after(spec_upload(p, groups[0]), groups.drop_first())
    }
}

/// The offset each group lands at when the groups are uploaded in turn.
pub open spec fn spec_offsets(p: PoolModel, groups: Seq<Seq<Instance>>) -> Seq<nat>
    decreases groups.len(),
{
    if groups.len() == 0 {
        Seq::empty()
    } else {
        seq![spec_upload_offset(p, groups[0].len())]
            + spec_offsets(spec_upload(p, groups[0]), groups.drop_first())
    }
}

/// Total number of instances over all groups.
pub open spec fn total_len(groups: Seq<Seq<Instance>>) -> nat
    decreases groups.len(),
{
    if groups.len() == 0 {
        0
    } else {
        groups[0].len() + total_len(groups.drop_first())
    }
}

/// Uploading one more group at the end.
pub proof fn lemma_pool_after_push(p: PoolModel, groups: Seq<Seq<Instance>>, g: Seq<Instance>)
    ensures
        spec_pool_after(p, groups.push(g)) == spec_upload(spec_pool_after(p, groups), g),
        spec_offsets(p, groups.push(g)) =~= spec_offsets(p, groups).push(
            spec_upload_offset(spec_pool_after(p, groups), g.len()),
        ),
    decreases groups.len(),
{
    if groups.len() == 0 {
        assert(groups.push(g).drop_first() =~= groups);
        assert(groups.push(g)[0] == g);
        assert(spec_pool_after(spec_upload(p, g), groups) == spec_upload(p, g));
        assert(spec_offsets(spec_upload(p, g), groups) =~= Seq::<nat>::empty());
        assert(spec_pool_after(p, groups) == p);
        assert(spec_offsets(p, groups) =~= Seq::<nat>::empty());
    } else {
        assert(groups.push(g)[0] == groups[0]);
        assert(groups.push(g).drop_first() =~= groups.drop_first().push(g));
        lemma_pool_after_push(spec_upload(p, groups[0]), groups.drop_first(), g);
        assert(spec_pool_after(p, groups)
            == spec_pool_after(spec_upload(p, groups[0]), groups.drop_first()));
        assert(spec_offsets(p, groups) =~= seq![spec_upload_offset(p, groups[0].len())]
            + spec_offsets(spec_upload(p, groups[0]), groups.drop_first()));
    }
}

/// Each group gets exactly one offset.
pub proof fn lemma_spec_offsets_len(p: PoolModel, groups: Seq<Seq<Instance>>)
    ensures
        spec_offsets(p, groups).len() == groups.len(),
    decreases groups.len(),
{
    if groups.len() > 0 {
        lemma_spec_offsets_len(spec_upload(p, groups[0]), groups.drop_first());
    }
}

/// The batches of `m` are exactly the per-key instance groups of the items
/// its stores currently yield, keyed in strictly increasing order, uploaded
/// group by group into the pool (which held `old_data` with its cursor
/// reset before the first upload).
pub open spec fn batches_built(m: SceneModel, old_data: Seq<Instance>) -> bool {
    let items = spec_batch_items(m);
    let keys = m.batches.map_values(|b: RenderBatch| b.key);
    let groups = spec_groups(items, keys);
    let start = PoolModel { data: old_data, cursor: 0 };
    &&& strictly_sorted_keys(keys)
    &&& forall|k: BatchKey| #[trigger] keys.contains(k) ==> items_have_key(items, k)
    &&& forall|i: int| 0 <= i < items.len() ==> keys.contains(#[trigger] items[i].0)
    &&& m.pool == spec_pool_after(start, groups)
    &&& forall|j: int| 0 <= j < m.batches.len()
        ==> #[trigger] m.batches[j].instance_offset == spec_offsets(start, groups)[j]
            && m.batches[j].instance_count == groups[j].len()
}

/// Node items number at most one per slot.
pub proof fn lemma_node_items_len(m: SceneModel, n: int)
    requires
        n >= 0,
    ensures
        node_items_upto(m, n).len() <= n,
    decreases n,
{
    if n > 0 {
        lemma_node_items_len(m, n - 1);
    }
}

/// Light items number at most one per slot.
pub proof fn lemma_light_items_len(m: SceneModel, n: int)
    requires
        n >= 0,
    ensures
        light_items_upto(m, n).len() <= n,
    decreases n,
{
    if n > 0 {
        lemma_light_items_len(m, n - 1);
    }
}

/// A rebuild draws at most one instance per node slot plus one per light
/// slot.
pub proof fn lemma_batch_items_len(m: SceneModel)
    ensures
        spec_batch_items(m).len() <= m.nodes.records.len() + m.lights.records.len(),
{
    lemma_node_items_len(m, m.nodes.records.len() as int);
    lemma_light_items_len(m, m.lights.records.len() as int);
}

/// Whether two batch keys are equal, decided by rank and identifier.
fn key_eq(a: &BatchKey, b: &BatchKey) -> (r: bool)
    ensures
        r == (*a == *b),
{
    let r = a.pipeline.rank() == b.pipeline.rank() && a.render_id == b.render_id;
    proof {
        lemma_key_lt_trichotomy(*a, *b);
    }
    r
}

/// Whether `a` sorts strictly before `b`.
fn key_before(a: &BatchKey, b: &BatchKey) -> (r: bool)
    ensures
        r == key_lt(*a, *b),
{
    a.pipeline.rank() < b.pipeline.rank()
        || (a.pipeline.rank() == b.pipeline.rank() && a.render_id < b.render_id)
}

/// Insert a key into a strictly sorted key list, keeping it sorted and
/// duplicate-free.
fn insert_key(keys: &mut Vec<BatchKey>, k: BatchKey)
    requires
        strictly_sorted_keys(old(keys)@),
        old(keys)@.len() < usize::MAX,
    ensures
        strictly_sorted_keys(final(keys)@),
        final(keys)@.len() <= old(keys)@.len() + 1,
        forall|k2: BatchKey| final(keys)@.contains(k2) <==> (old(keys)@.contains(k2) || k2 == k),
{
    let mut pos: usize = 0;
    while pos < keys.len() && key_before(&keys[pos], &k)
        invariant
            pos <= keys@.len(),
            forall|i: int| 0 <= i < pos ==> key_lt(#[trigger] keys@[i], k),
            keys@ == old(keys)@,
        decreases keys@.len() - pos,
    {
        pos = pos + 1;
    }
    if pos < keys.len() && key_eq(&keys[pos], &k) {
        proof {
            assert(keys@.contains(k)) by {
                assert(keys@[pos as int] == k);
            }
            assert forall|k2: BatchKey| keys@.contains(k2) <==> (old(keys)@.contains(k2) || k2 == k)
                by {}
        }
    } else {
        proof {
            if pos < keys@.len() {
                lemma_key_lt_trichotomy(keys@[pos as int], k);
            }
        }
        keys.insert(pos, k);
        proof {
            let s = keys@;
            assert forall|i: int, j: int| 0 <= i < j < s.len() implies key_lt(s[i], s[j]) by {
                let o = old(keys)@;
                if j < pos {
                    assert(s[i] == o[i] && s[j] == o[j]);
                } else if j == pos {
                    assert(s[j] == k);
                    assert(s[i] == o[i]);
                } else {
                    assert(s[j] == o[j - 1]);
                    if i < pos {
                        assert(s[i] == o[i]);
                        if pos < o.len() {
                            assert(key_lt(k, o[pos as int]));
                        }
                        if i < pos && pos <= j - 1 && i < j - 1 {
                            assert(key_lt(o[i], o[j - 1]));
                        }
                        if i == j - 1 {
                            assert(o[i] == o[j - 1]);
                        }
                        assert(key_lt(s[i], s[j]));
                    } else if i == pos {
                        assert(s[i] == k);
                        assert(key_lt(k, o[pos as int]));
                        if pos as int <= j - 2 {
                            assert(key_lt(o[pos as int], o[j - 1]));
                            lemma_key_lt_transitive(k, o[pos as int], o[j - 1]);
                        }
                        assert(key_lt(s[i], s[j]));
                    } else {
                        assert(s[i] == o[i - 1]);
                        assert(key_lt(o[i - 1], o[j - 1]));
                    }
                }
            }
            assert forall|k2: BatchKey| keys@.contains(k2) implies (old(keys)@.contains(k2)
                || k2 == k) by {
                let t = choose|t: int| 0 <= t < keys@.len() && keys@[t] == k2;
                if t < pos {
                    assert(old(keys)@[t] == k2);
                } else if t > pos {
                    assert(old(keys)@[t - 1] == k2);
                }
            }
            assert forall|k2: BatchKey| (old(keys)@.contains(k2) || k2 == k) implies
                keys@.contains(k2) by {
                if k2 == k {
                    assert(keys@[pos as int] == k2);
                } else {
                    let t = choose|t: int| 0 <= t < old(keys)@.len() && old(keys)@[t] == k2;
                    if t < pos {
                        assert(keys@[t] == k2);
                    } else {
                        assert(keys@[t + 1] == k2);
                    }
                }
            }
        }
    }
}

/// `key_lt` is transitive.
pub proof fn lemma_key_lt_transitive(a: BatchKey, b: BatchKey, c: BatchKey)
    requires
        key_lt(a, b),
        key_lt(b, c),
    ensures
        key_lt(a, c),
{
}


impl SceneGraph {
    /// Rebuild the render batches from scratch. One instance is collected
    /// per live node whose transform and normal relations both resolve (a
    /// node with a missing relation is skipped for this frame; it will be
    /// included once a later rebuild finds a valid mapping), plus one
    /// debug-cube instance per live point light. The instances are grouped
    /// by (pipeline, renderable) key, each group is uploaded contiguously
    /// into the instance pool — whose cursor is reset first, so it reflects
    /// only currently-live records — and the batches are recorded sorted by
    /// key for deterministic draw order.
    pub fn build_render_batches(&mut self)
        requires
            old(self).wf(),
            old(self)@.nodes.records.len() + old(self)@.lights.records.len() <= u32::MAX,
            old(self)@.pool.data.len() <= u32::MAX,
            old(self)@.nodes.records.len() + old(self)@.lights.records.len()
                <= old(self)@.pool.data.len(),
        ensures
            final(self).wf(),
            final(self)@ == (SceneModel {
                pool: final(self)@.pool,
                batches: final(self)@.batches,
                ..old(self)@
            }),
            batches_built(final(self)@, old(self)@.pool.data),
    {
        let ghost m0 = old(self)@;
        proof {
            lemma_batch_items_len(m0);
        }

        let mut items: Vec<(BatchKey, Instance)> = Vec::new();
        let n_nodes = self.nodes.len();
        let mut i: usize = 0;
        while i < n_nodes
            invariant
                i <= n_nodes,
                n_nodes == m0.nodes.records.len(),
                self@ == m0,
                scene_wf(m0),
                items@ == node_items_upto(m0, i as int),
            decreases n_nodes - i,
        {
            match self.nodes.get_live(i) {
                Some(rid_ref) => {
                    let rid = *rid_ref;
                    let ti = self.node_transform_index.get_mapping(i);
                    let ni = self.node_normal_index.get_mapping(i);
                    match (ti, ni) {
                        (Some(t), Some(nm)) => {
                            match self.renderables.get(rid) {
                                Some(renderable) => {
                                    let kind = renderable.kind();
                                    items.push(
                                        (
                                            BatchKey { pipeline: kind, render_id: rid },
                                            Instance { transform_index: t, normal_index: nm },
                                        ),
                                    );
                                }
                                None => {}
                            }
                        }
                        _ => {}
                    }
                }
                None => {}
            }
            proof {
                assert(items@ =~= node_items_upto(m0, i + 1));
            }
            i = i + 1;
        }
        proof {
            lemma_node_items_len(m0, n_nodes as int);
        }

        let n_lights = self.lights.len();
        let debug_id = self.debug_id;
        let mut li: usize = 0;
        while li < n_lights
            invariant
                li <= n_lights,
                n_lights == m0.lights.records.len(),
                n_nodes == m0.nodes.records.len(),
                debug_id == m0.debug_id,
                self@ == m0,
                scene_wf(m0),
                items@ == node_items_upto(m0, n_nodes as int) + light_items_upto(m0, li as int),
            decreases n_lights - li,
        {
            match self.lights.get_live(li) {
                Some(light) => {
                    let light_kind = light.kind;
                    if light_kind == LIGHT_POINT {
                        match self.lights_transform_index.get_mapping(li) {
                            Some(t) => {
                                match self.renderables.get(debug_id) {
                                    Some(_) => {
                                        items.push(
                                            (
                                                BatchKey {
                                                    pipeline: PipelineKind::Light,
                                                    render_id: debug_id,
                                                },
                                                Instance { transform_index: t, normal_index: 0 },
                                            ),
                                        );
                                    }
                                    None => {}
                                }
                            }
                            None => {}
                        }
                    }
                }
                None => {}
            }
            proof {
                assert(items@ =~= node_items_upto(m0, n_nodes as int)
                    + light_items_upto(m0, li + 1));
            }
            li = li + 1;
        }
        let ghost items_s = items@;
        proof {
            assert(items_s == spec_batch_items(m0));
            lemma_light_items_len(m0, n_lights as int);
        }

        let mut keys: Vec<BatchKey> = Vec::new();
        let mut j: usize = 0;
        while j < items.len()
            invariant
                j <= items_s.len(),
                items@ == items_s,
                items_s.len() <= u32::MAX,
                strictly_sorted_keys(keys@),
                keys@.len() <= j,
                forall|k2: BatchKey| keys@.contains(k2) <==> items_have_key(
                    items_s.take(j as int),
                    k2,
                ),
            decreases items_s.len() - j,
        {
            let pair = items[j];
            let k = pair.0;
            proof {
                assert(keys@.len() < usize::MAX);
            }
            insert_key(&mut keys, k);
            proof {
                let pre = items_s.take(j as int);
                let post = items_s.take(j + 1);
                assert(post =~= pre.push(items_s[j as int]));
                assert forall|k2: BatchKey| keys@.contains(k2) implies items_have_key(post, k2) by {
                    if k2 == k {
                        assert(post[j as int].0 == k2);
                    } else {
                        let w = choose|w: int| 0 <= w < pre.len() && #[trigger] pre[w].0 == k2;
                        assert(post[w].0 == k2);
                    }
                }
                assert forall|k2: BatchKey| items_have_key(post, k2) implies keys@.contains(k2) by {
                    let w = choose|w: int| 0 <= w < post.len() && #[trigger] post[w].0 == k2;
                    if w < j {
                        assert(pre[w].0 == k2);
                        assert(items_have_key(pre, k2));
                    } else {
                        assert(k2 == k);
                    }
                }
            }
            j = j + 1;
        }
        proof {
            assert(items_s.take(items_s.len() as int) =~= items_s);
        }

        self.instance_pool.reset();
        let ghost start = PoolModel { data: m0.pool.data, cursor: 0 };
        proof {
            assert(self.instance_pool@ == start);
            assert(spec_pool_after(start, spec_groups(items_s, keys@.take(0))) == start) by {
                assert(spec_groups(items_s, keys@.take(0)) =~= Seq::<Seq<Instance>>::empty());
            }
        }
        let ghost keys_s = keys@;
        let mut batches: Vec<RenderBatch> = Vec::new();
        let n_keys = keys.len();
        let mut bj: usize = 0;
        while bj < n_keys
            invariant
                bj <= n_keys,
                n_keys == keys_s.len(),
                keys@ == keys_s,
                items@ == items_s,
                items_s.len() <= u32::MAX,
                items_s.len() <= m0.pool.data.len(),
                m0.pool.data.len() <= u32::MAX,
                strictly_sorted_keys(keys_s),
                self@ == (SceneModel { pool: self@.pool, ..m0 }),
                pool_wf(self.instance_pool@),
                self.instance_pool@.data.len() == m0.pool.data.len(),
                batches@.len() == bj,
                forall|t: int| 0 <= t < bj ==> #[trigger] batches@[t].key == keys_s[t],
                self.instance_pool@ == spec_pool_after(
                    start,
                    spec_groups(items_s, keys_s.take(bj as int)),
                ),
                forall|t: int| 0 <= t < bj ==> #[trigger] batches@[t].instance_offset
                    == spec_offsets(start, spec_groups(items_s, keys_s.take(bj as int)))[t]
                    && batches@[t].instance_count
                        == group_instances(items_s, keys_s[t]).len(),
            decreases n_keys - bj,
        {
            let k = keys[bj];
            let mut group: Vec<Instance> = Vec::new();
            proof {
                reveal(Seq::filter);
                assert(items_s.take(0).filter(has_key(k))
                    =~= Seq::<(BatchKey, Instance)>::empty());
                assert(group@ =~= group_instances(items_s.take(0), k));
            }
            let mut t: usize = 0;
            while t < items.len()
                invariant
                    t <= items_s.len(),
                    items@ == items_s,
                    group@ == group_instances(items_s.take(t as int), k),
                    group@.len() <= t,
                decreases items_s.len() - t,
            {
                let pair = items[t];
                let matches_key = key_eq(&pair.0, &k);
                if matches_key {
                    group.push(pair.1);
                }
                proof {
                    reveal(Seq::filter);
                    let pred = has_key(k);
                    let pre = items_s.take(t as int);
                    let x = items_s[t as int];
                    assert(items_s.take(t + 1) =~= pre.push(x));
                    assert(pre.push(x).drop_last() =~= pre);
                    assert(pre.push(x).last() == x);
                    assert(pre.push(x).filter(pred) == if pred(x) {
                        pre.filter(pred).push(x)
                    } else {
                        pre.filter(pred)
                    });
                    assert(group@ =~= group_instances(items_s.take(t + 1), k));
                }
                t = t + 1;
            }
            proof {
                assert(items_s.take(items_s.len() as int) =~= items_s);
                assert(group@ == group_instances(items_s, k));
                items_s.lemma_filter_len(has_key(k));
            }
            let offset = self.instance_pool.upload(&group);
            let count = group.len();
            batches.push(
                RenderBatch { key: k, instance_offset: offset as u32, instance_count: count as u32 },
            );
            proof {
                let gpre = spec_groups(items_s, keys_s.take(bj as int));
                let g = group_instances(items_s, k);
                lemma_pool_after_push(start, gpre, g);
                lemma_spec_offsets_len(start, gpre);
                lemma_spec_offsets_len(start, gpre.push(g));
                assert(spec_groups(items_s, keys_s.take(bj + 1)) =~= gpre.push(g)) by {
                    assert(keys_s.take(bj + 1) =~= keys_s.take(bj as int).push(k));
                }
                assert(spec_offsets(start, spec_groups(items_s, keys_s.take(bj + 1)))
                    =~= spec_offsets(start, gpre).push(
                        spec_upload_offset(spec_pool_after(start, gpre), g.len()),
                    ));
                assert(self@ =~= (SceneModel { pool: self@.pool, ..m0 }));
            }
            bj = bj + 1;
        }
        self.render_batches = batches;
        proof {
            assert(keys_s.take(keys_s.len() as int) =~= keys_s);
            let mf = self@;
            assert(mf.batches.map_values(|b: RenderBatch| b.key) =~= keys_s);
            assert(spec_batch_items(mf) == items_s) by {
                assert(mf.nodes == m0.nodes && mf.lights == m0.lights
                    && mf.renderables == m0.renderables
                    && mf.node_transform_index == m0.node_transform_index
                    && mf.node_normal_index == m0.node_normal_index
                    && mf.lights_transform_index == m0.lights_transform_index
                    && mf.debug_id == m0.debug_id);
                lemma_items_congruence(m0, mf);
            }
            assert(mf =~= (SceneModel { pool: mf.pool, batches: mf.batches, ..m0 }));
            let ks = mf.batches.map_values(|b: RenderBatch| b.key);
            let gs = spec_groups(items_s, ks);
            let st = PoolModel { data: m0.pool.data, cursor: 0 };
            assert(strictly_sorted_keys(ks));
            assert(forall|k: BatchKey| #[trigger] ks.contains(k) ==> items_have_key(items_s, k));
            assert(forall|i2: int| 0 <= i2 < items_s.len() ==> ks.contains(#[trigger] items_s[i2].0));
            assert(ks == keys_s);
            assert(gs == spec_groups(items_s, keys_s));
            assert(st == start);
            assert(gs == spec_groups(items_s, keys_s.take(keys_s.len() as int)));
            assert(mf.pool == spec_pool_after(st, gs));
            lemma_spec_offsets_len(st, gs);
            assert forall|j2: int| 0 <= j2 < mf.batches.len() implies
                #[trigger] mf.batches[j2].instance_offset == spec_offsets(st, gs)[j2]
                && mf.batches[j2].instance_count == gs[j2].len() by {
                assert(mf.batches[j2].instance_offset == spec_offsets(
                    start,
                    spec_groups(items_s, keys_s.take(keys_s.len() as int)),
                )[j2]);
                assert(mf.batches[j2].instance_count == group_instances(
                    items_s,
                    keys_s[j2],
                ).len());
                assert(gs[j2] == group_instances(items_s, ks[j2]));
            }
            assert(batches_built(mf, m0.pool.data));
        }
    }
}

/// The batch items depend only on the stores, the relations and the debug
/// identifier — not on the pool, the batches or the binding set.
pub proof fn lemma_items_congruence(a: SceneModel, b: SceneModel)
    requires
        b.nodes == a.nodes,
        b.lights == a.lights,
        b.renderables == a.renderables,
        b.node_transform_index == a.node_transform_index,
        b.node_normal_index == a.node_normal_index,
        b.lights_transform_index == a.lights_transform_index,
        b.debug_id == a.debug_id,
    ensures
        spec_batch_items(b) == spec_batch_items(a),
{
    lemma_node_items_congruence(a, b, a.nodes.records.len() as int);
    lemma_light_items_congruence(a, b, a.lights.records.len() as int);
}

proof fn lemma_node_items_congruence(a: SceneModel, b: SceneModel, n: int)
    requires
        b.nodes == a.nodes,
        b.renderables == a.renderables,
        b.node_transform_index == a.node_transform_index,
        b.node_normal_index == a.node_normal_index,
    ensures
        node_items_upto(b, n) == node_items_upto(a, n),
    decreases n,
{
    if n > 0 {
        lemma_node_items_congruence(a, b, n - 1);
        assert(node_item_at(b, n - 1) =~= node_item_at(a, n - 1));
    }
}

proof fn lemma_light_items_congruence(a: SceneModel, b: SceneModel, n: int)
    requires
        b.lights == a.lights,
        b.renderables == a.renderables,
        b.lights_transform_index == a.lights_transform_index,
        b.debug_id == a.debug_id,
    ensures
        light_items_upto(b, n) == light_items_upto(a, n),
    decreases n,
{
    if n > 0 {
        lemma_light_items_congruence(a, b, n - 1);
        assert(light_item_at(b, n - 1) =~= light_item_at(a, n - 1));
    }
}


impl SceneGraph {
    /// Spawn a node: store the transform record and its recomputed
    /// normal-matrix record under the entity, link the node's slot to both,
    /// and rebuild the render batches (topology changed).
    pub fn add_node(
        &mut self,
        entity: u128,
        handle: u128,
        transform: TransformRecord,
        normal: NormalRecord,
    )
        requires
            old(self).wf(),
            store_headroom(old(self)@.nodes),
            store_headroom(old(self)@.transforms),
            store_headroom(old(self)@.normals),
            2 * (old(self)@.nodes.records.len() + 1) <= usize::MAX,
            2 * old(self)@.node_transform_index.mapping.len() <= usize::MAX,
            2 * old(self)@.node_normal_index.mapping.len() <= usize::MAX,
            old(self)@.nodes.records.len() + 1 + old(self)@.lights.records.len() <= u32::MAX,
            old(self)@.nodes.records.len() + 1 + old(self)@.lights.records.len()
                <= old(self)@.pool.data.len(),
            old(self)@.pool.data.len() <= u32::MAX,
        ensures
            final(self).wf(),
            final(self)@ == (SceneModel {
                nodes: spec_add(old(self)@.nodes, entity, handle),
                transforms: spec_add(old(self)@.transforms, entity, transform),
                normals: spec_add(old(self)@.normals, entity, normal),
                node_transform_index: spec_link(
                    old(self)@.node_transform_index,
                    spec_add_slot(old(self)@.nodes, entity) as u32,
                    spec_add_slot(old(self)@.transforms, entity) as u32,
                ),
                node_normal_index: spec_link(
                    old(self)@.node_normal_index,
                    spec_add_slot(old(self)@.nodes, entity) as u32,
                    spec_add_slot(old(self)@.normals, entity) as u32,
                ),
                pool: final(self)@.pool,
                batches: final(self)@.batches,
                ..old(self)@
            }),
            batches_built(final(self)@, old(self)@.pool.data),
    {
        let transform_index = self.transforms.add(entity, transform);
        let node_index = self.nodes.add(entity, handle);
        self.node_transform_index.link(node_index, transform_index);
        let normal_index = self.normals.add(entity, normal);
        self.node_normal_index.link(node_index, normal_index);
        proof {
            assert(self@ =~= (SceneModel {
                nodes: spec_add(old(self)@.nodes, entity, handle),
                transforms: spec_add(old(self)@.transforms, entity, transform),
                normals: spec_add(old(self)@.normals, entity, normal),
                node_transform_index: spec_link(
                    old(self)@.node_transform_index,
                    spec_add_slot(old(self)@.nodes, entity) as u32,
                    spec_add_slot(old(self)@.transforms, entity) as u32,
                ),
                node_normal_index: spec_link(
                    old(self)@.node_normal_index,
                    spec_add_slot(old(self)@.nodes, entity) as u32,
                    spec_add_slot(old(self)@.normals, entity) as u32,
                ),
                pool: self@.pool,
                batches: self@.batches,
                ..old(self)@
            }));
        }
        self.build_render_batches();
    }

    /// Despawn a node: the node, transform and normal slots of the entity
    /// go on their free-lists, and the render batches are rebuilt without
    /// it.
    pub fn remove_node(&mut self, entity: u128)
        requires
            old(self).wf(),
            old(self)@.nodes.records.len() + old(self)@.lights.records.len() <= u32::MAX,
            old(self)@.nodes.records.len() + old(self)@.lights.records.len()
                <= old(self)@.pool.data.len(),
            old(self)@.pool.data.len() <= u32::MAX,
        ensures
            final(self).wf(),
            final(self)@ == (SceneModel {
                nodes: spec_remove(old(self)@.nodes, entity),
                transforms: spec_remove(old(self)@.transforms, entity),
                normals: spec_remove(old(self)@.normals, entity),
                pool: final(self)@.pool,
                batches: final(self)@.batches,
                ..old(self)@
            }),
            batches_built(final(self)@, old(self)@.pool.data),
    {
        self.nodes.remove(entity);
        self.transforms.remove(entity);
        self.normals.remove(entity);
        proof {
            assert(self@ =~= (SceneModel {
                nodes: spec_remove(old(self)@.nodes, entity),
                transforms: spec_remove(old(self)@.transforms, entity),
                normals: spec_remove(old(self)@.normals, entity),
                pool: self@.pool,
                batches: self@.batches,
                ..old(self)@
            }));
        }
        self.build_render_batches();
    }

    /// Register a point cloud: one geometry record and one renderable that
    /// draws it, both under fresh keys. Returns the render identifier.
    pub fn add_pointcloud(&mut self, pointcloud: PointcloudRecord) -> (render_id: u128)
        requires
            old(self).wf(),
            store_headroom(old(self)@.geometries),
            store_headroom(old(self)@.renderables),
            old(self)@.next_key + 2 <= u128::MAX,
        ensures
            final(self).wf(),
            render_id == old(self)@.next_key + 1,
            final(self)@ == (SceneModel {
                geometries: spec_add(
                    old(self)@.geometries,
                    old(self)@.next_key,
                    Geometry::Pointcloud(pointcloud),
                ),
                renderables: spec_add(
                    old(self)@.renderables,
                    (old(self)@.next_key + 1) as u128,
                    Renderable::Pointcloud(
                        PointcloudHandle {
                            geometry_index: ComponentId::<Geometry>::spec_new(
                                spec_add_slot(old(self)@.geometries, old(self)@.next_key) as u32,
                            ),
                        },
                    ),
                ),
                next_key: (old(self)@.next_key + 2) as u128,
                ..old(self)@
            }),
    {
        let geometry_index = self.add_geometry(Geometry::Pointcloud(pointcloud));
        let render_id = self.add_renderable(
            Renderable::Pointcloud(PointcloudHandle { geometry_index }),
        );
        proof {
            assert(self@ =~= (SceneModel {
                geometries: spec_add(
                    old(self)@.geometries,
                    old(self)@.next_key,
                    Geometry::Pointcloud(pointcloud),
                ),
                renderables: spec_add(
                    old(self)@.renderables,
                    (old(self)@.next_key + 1) as u128,
                    Renderable::Pointcloud(
                        PointcloudHandle {
                            geometry_index: ComponentId::<Geometry>::spec_new(
                                spec_add_slot(old(self)@.geometries, old(self)@.next_key) as u32,
                            ),
                        },
                    ),
                ),
                next_key: (old(self)@.next_key + 2) as u128,
                ..old(self)@
            }));
        }
        render_id
    }
}


impl SceneGraph {
    /// Register a mesh: one geometry record per primitive, each paired with
    /// the material handle its material index selects, and one renderable
    /// that draws them. Returns the render identifier.
    pub fn add_mesh(
        &mut self,
        primitives: &Vec<PrimitiveRecord>,
        material_components: &Vec<ComponentId<MaterialRecord>>,
    ) -> (render_id: u128)
        requires
            old(self).wf(),
            forall|j: int| 0 <= j < primitives@.len()
                ==> (#[trigger] primitives@[j]).material_index < material_components@.len(),
            crate::store::store_headroom_n(old(self)@.geometries, primitives@.len() as nat),
            store_headroom(old(self)@.renderables),
            old(self)@.next_key + primitives@.len() + 1 <= u128::MAX,
        ensures
            final(self).wf(),
            render_id == old(self)@.next_key + primitives@.len(),
            final(self)@.next_key == old(self)@.next_key + primitives@.len() + 1,
            final(self)@ == (SceneModel {
                geometries: final(self)@.geometries,
                renderables: final(self)@.renderables,
                next_key: final(self)@.next_key,
                ..old(self)@
            }),
            final(self)@.renderables == spec_add(
                old(self)@.renderables,
                render_id,
                final(self)@.renderables.records[final(self)@.renderables.index[render_id] as int],
            ),
            final(self)@.renderables.index.contains_key(render_id),
            final(self)@.renderables.records[final(self)@.renderables.index[render_id] as int]
                matches Renderable::Mesh(handles) && handles@.len() == primitives@.len()
                && (forall|j: int| 0 <= j < primitives@.len()
                    ==> (#[trigger] handles@[j]).material_index
                        == material_components@[primitives@[j].material_index as int]
                        && handles@[j].geometry_index@ < final(self)@.geometries.records.len()
                        && final(self)@.geometries.live[handles@[j].geometry_index@ as int]
                        && final(self)@.geometries.records[handles@[j].geometry_index@ as int]
                            == Geometry::Primitive(primitives@[j])),
            forall|k: u128| #[trigger] old(self)@.geometries.index.contains_key(k)
                ==> final(self)@.geometries.index.contains_key(k)
                    && final(self)@.geometries.index[k] == old(self)@.geometries.index[k]
                    && final(self)@.geometries.records[old(self)@.geometries.index[k] as int]
                        == old(self)@.geometries.records[old(self)@.geometries.index[k] as int],
            forall|i: int| 0 <= i < old(self)@.geometries.records.len()
                && old(self)@.geometries.live[i]
                ==> #[trigger] final(self)@.geometries.live[i],
            forall|i: int| 0 <= i < old(self)@.geometries.records.len()
                && old(self)@.geometries.live[i]
                ==> #[trigger] final(self)@.geometries.records[i]
                    == old(self)@.geometries.records[i],
            old(self)@.geometries.records.len() <= final(self)@.geometries.records.len()
                <= old(self)@.geometries.records.len() + primitives@.len(),
            crate::store::store_headroom_n(final(self)@.geometries, 0),
    {
        let ghost m0 = old(self)@;
        let mut handles: Vec<PrimitiveHandle> = Vec::new();
        let n = primitives.len();
        let mut i: usize = 0;
        while i < n
            invariant
                i <= n,
                n == primitives@.len(),
                forall|j: int| 0 <= j < primitives@.len()
                    ==> (#[trigger] primitives@[j]).material_index < material_components@.len(),
                self.wf(),
                self@ == (SceneModel {
                    geometries: self@.geometries,
                    next_key: self@.next_key,
                    ..m0
                }),
                self@.next_key == m0.next_key + i,
                m0.next_key + n + 1 <= u128::MAX,
                crate::store::store_headroom_n(self@.geometries, (n - i) as nat),
                m0.geometries.records.len() <= self@.geometries.records.len()
                    <= m0.geometries.records.len() + i,
                handles@.len() == i,
                forall|j: int| 0 <= j < i ==> (#[trigger] handles@[j]).material_index
                    == material_components@[primitives@[j].material_index as int]
                    && handles@[j].geometry_index@ < self@.geometries.records.len()
                    && self@.geometries.live[handles@[j].geometry_index@ as int]
                    && self@.geometries.records[handles@[j].geometry_index@ as int]
                        == Geometry::Primitive(primitives@[j]),
                forall|k: u128| #[trigger] m0.geometries.index.contains_key(k)
                    ==> self@.geometries.index.contains_key(k)
                        && self@.geometries.index[k] == m0.geometries.index[k]
                        && self@.geometries.records[m0.geometries.index[k] as int]
                            == m0.geometries.records[m0.geometries.index[k] as int],
                forall|t: int| 0 <= t < m0.geometries.records.len() && m0.geometries.live[t]
                    ==> #[trigger] self@.geometries.live[t],
                forall|t: int| 0 <= t < m0.geometries.records.len() && m0.geometries.live[t]
                    ==> #[trigger] self@.geometries.records[t] == m0.geometries.records[t],
            decreases n - i,
        {
            let p = primitives[i];
            let ghost gpre = self@.geometries;
            let ghost gkey = self@.next_key;
            proof {
                crate::store::lemma_headroom_step(
                    self@.geometries,
                    (n - i) as nat,
                    self@.next_key,
                    Geometry::Primitive(p),
                );
                assert(!self@.geometries.index.contains_key(self@.next_key));
                crate::store::lemma_add_fresh_preserves_live(
                    self@.geometries,
                    self@.next_key,
                    Geometry::Primitive(p),
                );
            }
            let geometry_index = self.add_geometry(Geometry::Primitive(p));
            let material_index = material_components[p.material_index];
            handles.push(PrimitiveHandle { geometry_index, material_index });
            proof {
                assert(self@.geometries.live[geometry_index@ as int]
                    && self@.geometries.records[geometry_index@ as int]
                        == Geometry::Primitive(primitives@[i as int]));
                assert forall|t: int| 0 <= t < m0.geometries.records.len()
                    && m0.geometries.live[t] implies #[trigger] self@.geometries.live[t]
                    && self@.geometries.records[t] == m0.geometries.records[t] by {
                    assert(0 <= t < gpre.records.len());
                    assert(gpre.live[t]);
                    assert(gpre.records[t] == m0.geometries.records[t]);
                    assert(spec_add(gpre, gkey, Geometry::Primitive(p)).live[t]);
                    assert(spec_add(gpre, gkey, Geometry::Primitive(p)).records[t]
                        == gpre.records[t]);
                }
            }
            i = i + 1;
        }
        let render_id = self.add_renderable(Renderable::Mesh(handles));
        proof {
            let mf = self@;
            let slot = mf.renderables.index[render_id];
            assert(mf.renderables.records[slot as int] matches Renderable::Mesh(h)
                && h@.len() == primitives@.len());
        }
        render_id
    }
}


/// A filter and its complement split a sequence.
proof fn lemma_filter_partition<A>(s: Seq<A>, pred: spec_fn(A) -> bool, neg: spec_fn(A) -> bool)
    requires
        forall|x: A| #[trigger] neg(x) == !pred(x),
    ensures
        s.filter(pred).len() + s.filter(neg).len() == s.len(),
    decreases s.len(),
{
    reveal(Seq::filter);
    if s.len() > 0 {
        lemma_filter_partition(s.drop_last(), pred, neg);
    }
}

/// Filtering by a stronger predicate can be done after a weaker one.
proof fn lemma_filter_subsume<A>(s: Seq<A>, strong: spec_fn(A) -> bool, weak: spec_fn(A) -> bool)
    requires
        forall|x: A| #[trigger] strong(x) ==> weak(x),
    ensures
        s.filter(weak).filter(strong) =~= s.filter(strong),
    decreases s.len(),
{
    reveal(Seq::filter);
    if s.len() > 0 {
        lemma_filter_subsume(s.drop_last(), strong, weak);
        assert(s.drop_last().filter(weak).push(s.last()).drop_last() =~= s.drop_last().filter(
            weak,
        ));
    }
}

/// With pairwise distinct keys, the groups partition the items: their total
/// size never exceeds the number of items.
pub proof fn lemma_groups_total_len(items: Seq<(BatchKey, Instance)>, keys: Seq<BatchKey>)
    requires
        forall|i: int, j: int| 0 <= i < j < keys.len() ==> keys[i] != keys[j],
    ensures
        total_len(spec_groups(items, keys)) <= items.len(),
    decreases keys.len(),
{
    if keys.len() > 0 {
        let k0 = keys[0];
        let is_k0 = has_key(k0);
        let not_k0 = |it: (BatchKey, Instance)| !(has_key(k0)(it));
        let rest_items = items.filter(not_k0);
        let rest_keys = keys.drop_first();
        assert forall|i: int, j: int| 0 <= i < j < rest_keys.len() implies rest_keys[i]
            != rest_keys[j] by {
            assert(keys[i + 1] != keys[j + 1]);
        }
        lemma_groups_total_len(rest_items, rest_keys);
        assert forall|j: int| 0 <= j < rest_keys.len() implies group_instances(items, rest_keys[j])
            =~= group_instances(rest_items, rest_keys[j]) by {
            let kj = rest_keys[j];
            assert(keys[j + 1] == kj);
            assert(kj != k0);
            let is_kj = has_key(kj);
            assert forall|x: (BatchKey, Instance)| #[trigger] is_kj(x) implies not_k0(x) by {}
            lemma_filter_subsume(items, is_kj, not_k0);
            assert(items.filter(is_kj) =~= rest_items.filter(is_kj));
        }
        assert(spec_groups(rest_items, rest_keys) =~= spec_groups(items, keys).drop_first()) by {
            assert(spec_groups(items, keys).drop_first() =~= spec_groups(items, rest_keys));
        }
        lemma_total_len_congruence(
            spec_groups(rest_items, rest_keys),
            spec_groups(items, keys).drop_first(),
        );
        assert forall|x: (BatchKey, Instance)| not_k0(x) == !(#[trigger] is_k0(x)) by {}
        lemma_filter_partition(items, is_k0, not_k0);
        assert(spec_groups(items, keys)[0] == group_instances(items, k0));
        assert(group_instances(items, k0).len() == items.filter(is_k0).len());
    }
}

/// Equal group sequences have equal totals.
proof fn lemma_total_len_congruence(a: Seq<Seq<Instance>>, b: Seq<Seq<Instance>>)
    requires
        a == b,
    ensures
        total_len(a) == total_len(b),
{
}

/// Sequential uploads that fit between the cursor and the end of the pool
/// land one after another without wrapping: each group reads back exactly
/// from its offset, everything below the starting cursor is untouched, and
/// the final cursor sits one past the last record written.
pub proof fn lemma_upload_groups_readback(p: PoolModel, groups: Seq<Seq<Instance>>)
    requires
        p.cursor + total_len(groups) <= p.data.len(),
    ensures
        spec_pool_after(p, groups).cursor <= spec_pool_after(p, groups).data.len(),
        spec_pool_after(p, groups).data.len() == p.data.len(),
        spec_pool_after(p, groups).cursor == p.cursor + total_len(groups),
        forall|idx: int| 0 <= idx < p.cursor
            ==> spec_pool_after(p, groups).data[idx] == p.data[idx],
        forall|j: int| 0 <= j < groups.len()
            ==> #[trigger] spec_offsets(p, groups)[j] + groups[j].len() <= p.data.len()
                && spec_pool_after(p, groups).data.subrange(
                    spec_offsets(p, groups)[j] as int,
                    spec_offsets(p, groups)[j] + groups[j].len() as int,
                ) =~= groups[j],
    decreases groups.len(),
{
    lemma_spec_offsets_len(p, groups);
    if groups.len() > 0 {
        let g0 = groups[0];
        let p1 = spec_upload(p, g0);
        let rest = groups.drop_first();
        assert(spec_upload_offset(p, g0.len()) == p.cursor);
        assert(p1.cursor == p.cursor + g0.len());
        assert(p1.data.len() == p.data.len());
        lemma_upload_groups_readback(p1, rest);
        let pf = spec_pool_after(p, groups);
        assert(pf == spec_pool_after(p1, rest));
        assert forall|idx: int| 0 <= idx < p.cursor implies pf.data[idx] == p.data[idx] by {
            assert(pf.data[idx] == p1.data[idx]);
        }
        assert(spec_offsets(p, groups)[0] == p.cursor);
        assert(pf.data.subrange(p.cursor as int, p.cursor + g0.len() as int) =~= g0) by {
            assert forall|t: int| 0 <= t < g0.len() implies pf.data[p.cursor + t] == g0[t] by {
                assert(p1.data[p.cursor + t] == g0[t]);
                assert(p.cursor + t < p1.cursor);
            }
        }
        assert forall|j: int| 1 <= j < groups.len() implies #[trigger] spec_offsets(p, groups)[j]
            + groups[j].len() <= p.data.len() && pf.data.subrange(
                spec_offsets(p, groups)[j] as int,
                spec_offsets(p, groups)[j] + groups[j].len() as int,
            ) =~= groups[j] by {
            assert(spec_offsets(p, groups)[j] == spec_offsets(p1, rest)[j - 1]);
            assert(rest[j - 1] == groups[j]);
        }
    }
}

/// Batch determinism: for a fixed scene state — the same stores, relations
/// and debug renderable — any two batch rebuilds produce identical sorted
/// batch-key sequences, identical offsets and counts, and (when the items
/// fit in the pool, as its sizing guarantees) identical instance-range
/// contents.
pub proof fn lemma_batch_determinism(
    m1: SceneModel,
    m2: SceneModel,
    d1: Seq<Instance>,
    d2: Seq<Instance>,
)
    requires
        m2.nodes == m1.nodes,
        m2.lights == m1.lights,
        m2.renderables == m1.renderables,
        m2.node_transform_index == m1.node_transform_index,
        m2.node_normal_index == m1.node_normal_index,
        m2.lights_transform_index == m1.lights_transform_index,
        m2.debug_id == m1.debug_id,
        d1.len() == d2.len(),
        batches_built(m1, d1),
        batches_built(m2, d2),
    ensures
        m1.batches.map_values(|b: RenderBatch| b.key) == m2.batches.map_values(
            |b: RenderBatch| b.key,
        ),
        m1.batches.len() == m2.batches.len(),
        forall|j: int| 0 <= j < m1.batches.len()
            ==> #[trigger] m1.batches[j].instance_count == m2.batches[j].instance_count
                && m1.batches[j].instance_offset == m2.batches[j].instance_offset,
        spec_batch_items(m1).len() <= d1.len() ==> forall|j: int| 0 <= j < m1.batches.len()
            ==> m1.pool.data.subrange(
                #[trigger] m1.batches[j].instance_offset as int,
                m1.batches[j].instance_offset + m1.batches[j].instance_count,
            ) =~= m2.pool.data.subrange(
                m2.batches[j].instance_offset as int,
                m2.batches[j].instance_offset + m2.batches[j].instance_count,
            ),
{
    lemma_items_congruence(m1, m2);
    let items = spec_batch_items(m1);
    let keys1 = m1.batches.map_values(|b: RenderBatch| b.key);
    let keys2 = m2.batches.map_values(|b: RenderBatch| b.key);
    assert forall|k: BatchKey| keys1.contains(k) <==> keys2.contains(k) by {
        if keys1.contains(k) {
            assert(items_have_key(items, k));
            let w = choose|w: int| 0 <= w < items.len() && #[trigger] items[w].0 == k;
            assert(keys2.contains(items[w].0));
        }
        if keys2.contains(k) {
            assert(items_have_key(items, k));
            let w = choose|w: int| 0 <= w < items.len() && #[trigger] items[w].0 == k;
            assert(keys1.contains(items[w].0));
        }
    }
    lemma_sorted_keys_unique(keys1, keys2);
    assert(m1.batches.len() == m2.batches.len());
    let groups = spec_groups(items, keys1);
    let start1 = PoolModel { data: d1, cursor: 0 };
    let start2 = PoolModel { data: d2, cursor: 0 };
    lemma_offsets_congruence(start1, start2, groups);
    lemma_spec_offsets_len(start1, groups);
    assert forall|j: int| 0 <= j < m1.batches.len() implies #[trigger] m1.batches[j].instance_count
        == m2.batches[j].instance_count && m1.batches[j].instance_offset
        == m2.batches[j].instance_offset by {
        assert(keys1[j] == keys2[j]);
        assert(m1.batches[j].instance_offset == spec_offsets(start1, groups)[j]);
        assert(m2.batches[j].instance_offset == spec_offsets(start2, spec_groups(items, keys2))[j]);
    }
    if spec_batch_items(m1).len() <= d1.len() {
        assert forall|i: int, j: int| 0 <= i < j < keys1.len() implies keys1[i] != keys1[j] by {
            lemma_key_lt_trichotomy(keys1[i], keys1[j]);
        }
        lemma_groups_total_len(items, keys1);
        lemma_upload_groups_readback(start1, groups);
        lemma_upload_groups_readback(start2, groups);
        assert forall|j: int| 0 <= j < m1.batches.len() implies m1.pool.data.subrange(
            #[trigger] m1.batches[j].instance_offset as int,
            m1.batches[j].instance_offset + m1.batches[j].instance_count,
        ) =~= m2.pool.data.subrange(
            m2.batches[j].instance_offset as int,
            m2.batches[j].instance_offset + m2.batches[j].instance_count,
        ) by {
            assert(m1.pool.data.subrange(
                m1.batches[j].instance_offset as int,
                m1.batches[j].instance_offset + m1.batches[j].instance_count,
            ) =~= groups[j]);
            assert(m2.pool.data.subrange(
                m2.batches[j].instance_offset as int,
                m2.batches[j].instance_offset + m2.batches[j].instance_count,
            ) =~= groups[j]);
        }
    }
}

/// Upload offsets and cursors depend only on the cursor and the pool size,
/// never on the stored records.
proof fn lemma_offsets_congruence(p1: PoolModel, p2: PoolModel, groups: Seq<Seq<Instance>>)
    requires
        p1.cursor == p2.cursor,
        p1.data.len() == p2.data.len(),
    ensures
        spec_offsets(p1, groups) == spec_offsets(p2, groups),
        spec_pool_after(p1, groups).cursor == spec_pool_after(p2, groups).cursor,
        spec_pool_after(p1, groups).data.len() == spec_pool_after(p2, groups).data.len(),
    decreases groups.len(),
{
    if groups.len() > 0 {
        let q1 = spec_upload(p1, groups[0]);
        let q2 = spec_upload(p2, groups[0]);
        assert(q1.cursor == q2.cursor && q1.data.len() == q2.data.len());
        lemma_offsets_congruence(q1, q2, groups.drop_first());
        assert(spec_offsets(p1, groups) =~= spec_offsets(p2, groups));
    }
}


/// Machine-limit headroom to spawn one node: the three stores can take one
/// more record, both relations can link one more slot, and the batch
/// rebuild that follows fits the pool and the 32-bit counts.
pub open spec fn spec_can_spawn_node(m: SceneModel) -> bool {
    &&& store_headroom(m.nodes)
    &&& store_headroom(m.transforms)
    &&& store_headroom(m.normals)
    &&& 2 * (m.nodes.records.len() + 1) <= usize::MAX
    &&& 2 * m.node_transform_index.mapping.len() <= usize::MAX
    &&& 2 * m.node_normal_index.mapping.len() <= usize::MAX
    &&& m.nodes.records.len() + 1 + m.lights.records.len() <= u32::MAX
    &&& m.nodes.records.len() + 1 + m.lights.records.len() <= m.pool.data.len()
    &&& m.pool.data.len() <= u32::MAX
}

/// Machine-limit headroom to spawn one light.
pub open spec fn spec_can_spawn_light(m: SceneModel) -> bool {
    &&& store_headroom(m.transforms)
    &&& store_headroom(m.lights)
    &&& relation_headroom(m.lights_transform_index, m.lights.records.len() as u32)
}

/// Machine-limit headroom to register one point cloud.
pub open spec fn spec_can_add_pointcloud(m: SceneModel) -> bool {
    &&& store_headroom(m.geometries)
    &&& store_headroom(m.renderables)
    &&& m.next_key + 2 <= u128::MAX
}

impl SceneGraph {
    /// Whether one more node fits within the machine limits the contracts
    /// assume.
    pub fn can_spawn_node(&self) -> (r: bool)
        requires
            self.wf(),
        ensures
            r == spec_can_spawn_node(self@),
    {
        let nodes_len = self.nodes.len();
        let lights_len = self.lights.len();
        let pool_len = self.instance_pool.capacity();
        let r = nodes_len < u32::MAX as usize && self.nodes.capacity() <= usize::MAX / 2
            && self.transforms.len() < u32::MAX as usize && self.transforms.capacity()
            <= usize::MAX / 2 && self.normals.len() < u32::MAX as usize
            && self.normals.capacity() <= usize::MAX / 2 && nodes_len <= usize::MAX / 2 - 1
            && self.node_transform_index.len() <= usize::MAX / 2
            && self.node_normal_index.len() <= usize::MAX / 2 && nodes_len + 1 <= u32::MAX
            as usize && (u32::MAX as usize - (nodes_len + 1) >= lights_len) && pool_len
            <= u32::MAX as usize && nodes_len + 1 <= pool_len && pool_len - (nodes_len + 1)
            >= lights_len;
        r
    }

    /// Whether one more light fits within the machine limits the contracts
    /// assume.
    pub fn can_spawn_light(&self) -> (r: bool)
        requires
            self.wf(),
        ensures
            r == spec_can_spawn_light(self@),
    {
        let lights_len = self.lights.len();
        self.transforms.len() < u32::MAX as usize && self.transforms.capacity() <= usize::MAX / 2
            && lights_len < u32::MAX as usize && self.lights.capacity() <= usize::MAX / 2
            && lights_len <= usize::MAX / 2 - 1 && self.lights_transform_index.len()
            <= usize::MAX / 2
    }

    /// Whether one more point cloud fits within the machine limits the
    /// contracts assume.
    pub fn can_add_pointcloud(&self) -> (r: bool)
        requires
            self.wf(),
        ensures
            r == spec_can_add_pointcloud(self@),
    {
        self.geometries.len() < u32::MAX as usize && self.geometries.capacity() <= usize::MAX / 2
            && self.renderables.len() < u32::MAX as usize && self.renderables.capacity()
            <= usize::MAX / 2 && self.next_key <= u128::MAX - 2
    }
}


/// Machine-limit headroom for a whole asset load: `mats` material adds,
/// `prims` geometry adds, `nds` renderable adds, and as many fresh keys.
pub open spec fn spec_can_load(m: SceneModel, mats: nat, prims: nat, nds: nat) -> bool {
    &&& crate::store::store_headroom_n(m.materials, mats)
    &&& crate::store::store_headroom_n(m.geometries, prims)
    &&& crate::store::store_headroom_n(m.renderables, nds)
    &&& m.next_key + mats + prims + nds <= u128::MAX
}

impl SceneGraph {
    /// Whether a whole asset load fits within the machine limits the
    /// contracts assume.
    pub fn can_load_asset(&self, mats: usize, prims: usize, nds: usize) -> (r: bool)
        requires
            self.wf(),
        ensures
            r == spec_can_load(self@, mats as nat, prims as nat, nds as nat),
    {
        let ml = self.materials.len();
        let gl = self.geometries.len();
        let rl = self.renderables.len();
        mats <= u32::MAX as usize && ml <= u32::MAX as usize - mats && ml + mats <= usize::MAX / 4
            && self.materials.capacity() <= usize::MAX / 2 && prims <= u32::MAX as usize && gl
            <= u32::MAX as usize - prims && gl + prims <= usize::MAX / 4
            && self.geometries.capacity() <= usize::MAX / 2 && nds <= u32::MAX as usize && rl
            <= u32::MAX as usize - nds && rl + nds <= usize::MAX / 4
            && self.renderables.capacity() <= usize::MAX / 2 && self.next_key <= u128::MAX - (mats
            as u128 + prims as u128 + nds as u128)
    }
}


/// Filtering keeps a sequence whole when every element satisfies the
/// predicate.
proof fn lemma_filter_all<A>(s: Seq<A>, pred: spec_fn(A) -> bool)
    requires
        forall|i: int| 0 <= i < s.len() ==> pred(#[trigger] s[i]),
    ensures
        s.filter(pred) =~= s,
    decreases s.len(),
{
    reveal(Seq::filter);
    if s.len() > 0 {
        assert(forall|i: int| 0 <= i < s.drop_last().len() ==> pred(#[trigger] s.drop_last()[i]));
        lemma_filter_all(s.drop_last(), pred);
        assert(s.filter(pred) =~= s.drop_last().push(s.last()));
        assert(s.drop_last().push(s.last()) =~= s);
    }
}

/// When every item of a rebuild shares one key — as when every live node
/// references the same renderable and no point light is live — the rebuild
/// yields exactly one batch: that key, all the instances, starting at the
/// reset cursor, which afterwards counts exactly the live records.
pub proof fn lemma_single_key_batch(m: SceneModel, d: Seq<Instance>, k: BatchKey)
    requires
        batches_built(m, d),
        spec_batch_items(m).len() > 0,
        forall|i: int| 0 <= i < spec_batch_items(m).len()
            ==> (#[trigger] spec_batch_items(m)[i]).0 == k,
        spec_batch_items(m).len() <= d.len(),
    ensures
        m.batches.len() == 1,
        m.batches[0].key == k,
        m.batches[0].instance_offset == 0,
        m.batches[0].instance_count == spec_batch_items(m).len(),
        m.pool.cursor == spec_batch_items(m).len(),
{
    let items = spec_batch_items(m);
    let keys = m.batches.map_values(|b: RenderBatch| b.key);
    assert(items_have_key(items, k)) by {
        assert(items[0].0 == k);
    }
    assert(keys.contains(items[0].0));
    assert forall|k2: BatchKey| keys.contains(k2) <==> seq![k].contains(k2) by {
        if keys.contains(k2) {
            let w = choose|w: int| 0 <= w < items.len() && #[trigger] items[w].0 == k2;
            assert(k2 == k);
            assert(seq![k][0] == k2);
        }
        if seq![k].contains(k2) {
            assert(k2 == k);
            assert(keys.contains(items[0].0));
        }
    }
    assert(strictly_sorted_keys(seq![k]));
    lemma_sorted_keys_unique(keys, seq![k]);
    assert(m.batches.len() == 1);
    assert(keys[0] == k);
    assert(m.batches[0].key == k);
    let g = group_instances(items, k);
    assert(g.len() == items.len()) by {
        lemma_filter_all(items, has_key(k));
    }
    let gs = spec_groups(items, keys);
    assert(gs =~= seq![g]);
    let start = PoolModel { data: d, cursor: 0 };
    assert(spec_upload_offset(start, g.len()) == 0);
    assert(spec_offsets(start, gs) =~= seq![0nat] + spec_offsets(
        spec_upload(start, g),
        gs.drop_first(),
    ));
    assert(gs.drop_first() =~= Seq::<Seq<Instance>>::empty());
    assert(spec_offsets(spec_upload(start, g), gs.drop_first()) =~= Seq::<nat>::empty());
    assert(spec_offsets(start, gs)[0] == 0);
    assert(m.batches[0].instance_offset == 0);
    assert(m.batches[0].instance_count == g.len());
    assert(spec_pool_after(start, gs) == spec_pool_after(spec_upload(start, g), gs.drop_first()));
    assert(spec_pool_after(spec_upload(start, g), gs.drop_first()) == spec_upload(start, g));
    assert(m.pool.cursor == g.len());
}

} // verus!








