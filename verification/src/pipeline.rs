//! The command pipeline between the control thread and the render thread.
//!
//! Commands arrive over an unbounded channel. Within one drain cycle,
//! `UpdateCamera`, `Resize` and `RenderFrame` are latest-wins: only the most
//! recent of each kind is applied, and at most one frame is rendered per
//! cycle, resize before camera before frame — so a frame is never rendered
//! against a stale surface size. Every other command is strictly ordered and
//! every one is applied. This keeps a fast producer from building an
//! unbounded backlog while guaranteeing that state-mutating commands are
//! never dropped.

use vstd::prelude::*;
use crate::records::{
    CameraRecord, HdrBuffer, LightRecord, MaterialRecord, NormalRecord, SurfaceConfig,
    TransformRecord,
};
use crate::records::{EnvironmentMap, LIGHT_POINT};
use crate::scene::{
    batches_built, scene_wf, spec_can_add_pointcloud, spec_can_load, spec_can_spawn_light,
    spec_can_spawn_node, Geometry, PointcloudHandle, PointcloudRecord, Renderable, SceneGraph,
    SceneModel, binding_current,
};
use crate::store::{spec_add, spec_add_slot, spec_set, store_headroom_n, StoreModel};
use crate::relation::{spec_link, RelationModel};
use crate::store::ComponentId;

verus! {

/// One mesh node of a decoded scene asset: its transform and the primitives
/// it draws.
pub struct MeshNode {
    pub transform: TransformRecord,
    pub primitives: Vec<crate::scene::PrimitiveRecord>,
}

/// A decoded scene asset: its materials and its mesh nodes.
pub struct SceneAsset {
    pub materials: Vec<MaterialRecord>,
    pub nodes: Vec<MeshNode>,
}

/// A decoded asset posted by the loading collaborator.
pub enum AssetPayload {
    EnvironmentMap { buffer: HdrBuffer, label: Option<String> },
    Scene { asset: SceneAsset, label: Option<String> },
    Pointcloud { pointcloud: PointcloudRecord, label: Option<String> },
}

/// A command from the control thread to the render thread.
pub enum Command {
    RenderFrame,
    UpdateCamera { camera: CameraRecord },
    Resize { config: SurfaceConfig },
    LoadAsset { asset: AssetPayload },
    SpawnAsset { entity_id: u128, render_id: u128, transform: TransformRecord, normal: NormalRecord },
    SpawnLight { entity_id: u128, light: LightRecord, transform: TransformRecord },
    UpdateTransform { entity_id: u128, transform: TransformRecord },
    UpdateLight { entity_id: u128, color: [u32; 3], intensity: u32, cutoff: u32 },
    Stop,
}

/// A completion event from the render thread back to the control thread.
pub enum Event {
    FrameComplete,
    LoadComplete { render_id: u128, transform: Option<TransformRecord>, label: Option<String> },
    ResizeComplete { config: SurfaceConfig },
    Stopped,
}

/// Whether a command is strictly ordered: applied exactly once, in arrival
/// order. The complement — camera updates, resizes, frame requests — is
/// coalesced latest-wins.
pub open spec fn is_ordered(c: Command) -> bool {
    !(c is RenderFrame) && !(c is UpdateCamera) && !(c is Resize)
}

/// `is_ordered`, as a predicate value for filtering.
pub open spec fn ordered_pred() -> spec_fn(Command) -> bool {
    |c: Command| is_ordered(c)
}

/// The predicate selecting camera updates.
pub open spec fn camera_pred() -> spec_fn(Command) -> bool {
    |c: Command| c is UpdateCamera
}

/// The predicate selecting spawns (of assets or lights).
pub open spec fn spawn_pred() -> spec_fn(Command) -> bool {
    |c: Command| c is SpawnAsset || c is SpawnLight
}

/// The most recent camera update of a burst, if any.
pub open spec fn last_camera(cmds: Seq<Command>) -> Option<Command>
    decreases cmds.len(),
{
    if cmds.len() == 0 {
        None
    } else if cmds.last() is UpdateCamera {
        Some(cmds.last())
    } else {
        last_camera(cmds.drop_last())
    }
}

/// The most recent resize of a burst, if any.
pub open spec fn last_resize(cmds: Seq<Command>) -> Option<Command>
    decreases cmds.len(),
{
    if cmds.len() == 0 {
        None
    } else if cmds.last() is Resize {
        Some(cmds.last())
    } else {
        last_resize(cmds.drop_last())
    }
}

/// The most recent frame request of a burst, if any.
pub open spec fn last_frame(cmds: Seq<Command>) -> Option<Command>
    decreases cmds.len(),
{
    if cmds.len() == 0 {
        None
    } else if cmds.last() is RenderFrame {
        Some(cmds.last())
    } else {
        last_frame(cmds.drop_last())
    }
}

/// An optional command as a sequence of zero or one commands.
pub open spec fn opt_seq(o: Option<Command>) -> Seq<Command> {
    match o {
        Some(c) => seq![c],
        None => Seq::empty(),
    }
}

/// What one drain cycle applies, in order: every ordered command in arrival
/// order, then at most one coalesced resize, one coalesced camera update
/// and one coalesced frame — each the most recent of its kind.
pub open spec fn spec_drain(cmds: Seq<Command>) -> Seq<Command> {
    cmds.filter(ordered_pred()) + opt_seq(last_resize(cmds)) + opt_seq(last_camera(cmds))
        + opt_seq(last_frame(cmds))
}

/// The three latest-wins slots a drain cycle fills before applying them in
/// resize-camera-frame order.
pub struct Inbox {
    camera: Option<Command>,
    resize: Option<Command>,
    frame: Option<Command>,
}

/// Mathematical model of the inbox: its three slots.
#[verifier::ext_equal]
pub struct InboxModel {
    pub camera: Option<Command>,
    pub resize: Option<Command>,
    pub frame: Option<Command>,
}

impl View for Inbox {
    type V = InboxModel;

    closed spec fn view(&self) -> InboxModel {
        InboxModel { camera: self.camera, resize: self.resize, frame: self.frame }
    }
}

impl Inbox {
    /// An empty inbox.
    pub fn new() -> (r: Self)
        ensures
            r@.camera is None,
            r@.resize is None,
            r@.frame is None,
    {
        Inbox { camera: None, resize: None, frame: None }
    }

    /// Offer one command: a coalesced kind replaces its slot (latest wins)
    /// and nothing is returned; an ordered command passes straight through
    /// for immediate, in-order application.
    pub fn receive(&mut self, command: Command) -> (r: Option<Command>)
        ensures
            command is UpdateCamera ==> final(self)@ == (InboxModel {
                camera: Some(command),
                ..old(self)@
            }) && r is None,
            command is Resize ==> final(self)@ == (InboxModel {
                resize: Some(command),
                ..old(self)@
            }) && r is None,
            command is RenderFrame ==> final(self)@ == (InboxModel {
                frame: Some(command),
                ..old(self)@
            }) && r is None,
            is_ordered(command) ==> final(self)@ == old(self)@ && r == Some(command),
    {
        match command {
            Command::UpdateCamera { .. } => {
                self.camera = Some(command);
                None
            }
            Command::Resize { .. } => {
                self.resize = Some(command);
                None
            }
            Command::RenderFrame => {
                self.frame = Some(command);
                None
            }
            _ => Some(command),
        }
    }

    /// Empty the slots, in the fixed application order: resize before
    /// camera before frame.
    pub fn take_ready(&mut self) -> (r: Vec<Command>)
        ensures
            final(self)@.camera is None,
            final(self)@.resize is None,
            final(self)@.frame is None,
            r@ == opt_seq(old(self)@.resize) + opt_seq(old(self)@.camera) + opt_seq(
                old(self)@.frame,
            ),
    {
        let mut r: Vec<Command> = Vec::new();
        match self.resize.take() {
            Some(c) => r.push(c),
            None => {}
        }
        match self.camera.take() {
            Some(c) => r.push(c),
            None => {}
        }
        match self.frame.take() {
            Some(c) => r.push(c),
            None => {}
        }
        proof {
            assert(r@ =~= opt_seq(old(self)@.resize) + opt_seq(old(self)@.camera) + opt_seq(
                old(self)@.frame,
            ));
        }
        r
    }
}

/// Partition one received burst into its application order: the ordered
/// commands in arrival order, then the surviving coalesced resize, camera
/// update and frame request.
pub fn drain_burst(burst: Vec<Command>) -> (r: Vec<Command>)
    ensures
        r@ == spec_drain(burst@),
{
    let ghost b = burst@;
    let mut inbox = Inbox::new();
    let mut ordered: Vec<Command> = Vec::new();
    let mut burst = burst;
    proof {
        reveal(Seq::filter);
        assert(b.take(0).filter(ordered_pred()) =~= Seq::<Command>::empty());
        assert(last_camera(b.take(0)) is None);
        assert(last_resize(b.take(0)) is None);
        assert(last_frame(b.take(0)) is None);
    }
    let n = burst.len();
    let mut i: usize = 0;
    while i < n
        invariant
            i <= n,
            n == b.len(),
            burst@.len() == n - i,
            forall|j: int| 0 <= j < burst@.len() ==> burst@[j] == b[i + j],
            ordered@ == b.take(i as int).filter(ordered_pred()),
            inbox@.camera == last_camera(b.take(i as int)),
            inbox@.resize == last_resize(b.take(i as int)),
            inbox@.frame == last_frame(b.take(i as int)),
        decreases n - i,
    {
        let command = burst.remove(0);
        match inbox.receive(command) {
            Some(c) => ordered.push(c),
            None => {}
        }
        proof {
            reveal(Seq::filter);
            let pre = b.take(i as int);
            let post = b.take(i + 1);
            assert(post =~= pre.push(b[i as int]));
            assert(post.drop_last() =~= pre);
            assert(post.last() == b[i as int]);
            assert(ordered@ =~= post.filter(ordered_pred()));
        }
        i = i + 1;
    }
    proof {
        assert(b.take(b.len() as int) =~= b);
    }
    let mut tail = inbox.take_ready();
    let mut r = ordered;
    let tn = tail.len();
    let mut t: usize = 0;
    while t < tn
        invariant
            t <= tn,
            tn == tail@.len() + t,
            tn == (opt_seq(last_resize(b)) + opt_seq(last_camera(b))
                + opt_seq(last_frame(b))).len(),
            r@ == b.filter(ordered_pred()) + (opt_seq(last_resize(b)) + opt_seq(last_camera(b))
                + opt_seq(last_frame(b))).take(t as int),
            forall|j: int| 0 <= j < tail@.len() ==> tail@[j] == (opt_seq(last_resize(b))
                + opt_seq(last_camera(b)) + opt_seq(last_frame(b)))[t + j],
        decreases tn - t,
    {
        let c = tail.remove(0);
        r.push(c);
        proof {
            let full = opt_seq(last_resize(b)) + opt_seq(last_camera(b)) + opt_seq(last_frame(b));
            assert(full.take(t + 1) =~= full.take(t as int).push(full[t as int]));
            assert(r@ =~= b.filter(ordered_pred()) + full.take(t + 1));
        }
        t = t + 1;
    }
    proof {
        let full = opt_seq(last_resize(b)) + opt_seq(last_camera(b)) + opt_seq(last_frame(b));
        assert(full.take(full.len() as int) =~= full);
        assert(r@ =~= spec_drain(b));
    }
    r
}

/// Filtering by a predicate that nothing in the complement satisfies keeps
/// a filtered sequence unchanged, and a second filter by a disjoint
/// predicate empties it.
proof fn lemma_filter_disjoint<A>(s: Seq<A>, p: spec_fn(A) -> bool, q: spec_fn(A) -> bool)
    requires
        forall|x: A| #[trigger] p(x) ==> !q(x),
    ensures
        s.filter(p).filter(q) =~= Seq::<A>::empty(),
    decreases s.len(),
{
    reveal(Seq::filter);
    if s.len() > 0 {
        lemma_filter_disjoint(s.drop_last(), p, q);
        if p(s.last()) {
            assert(s.drop_last().filter(p).push(s.last()).drop_last() =~= s.drop_last().filter(p));
        }
    }
}

/// Filtering by a stronger predicate can be done after a weaker one.
proof fn lemma_filter_chain<A>(s: Seq<A>, strong: spec_fn(A) -> bool, weak: spec_fn(A) -> bool)
    requires
        forall|x: A| #[trigger] strong(x) ==> weak(x),
    ensures
        s.filter(weak).filter(strong) =~= s.filter(strong),
    decreases s.len(),
{
    reveal(Seq::filter);
    if s.len() > 0 {
        lemma_filter_chain(s.drop_last(), strong, weak);
        if weak(s.last()) {
            assert(s.drop_last().filter(weak).push(s.last()).drop_last() =~= s.drop_last().filter(
                weak,
            ));
        }
    }
}

/// Filtering an optional command keeps it exactly when it satisfies the
/// predicate.
proof fn lemma_opt_filter(o: Option<Command>, pred: spec_fn(Command) -> bool)
    ensures
        opt_seq(o).filter(pred) =~= (match o {
            Some(c) => if pred(c) {
                seq![c]
            } else {
                Seq::<Command>::empty()
            },
            None => Seq::<Command>::empty(),
        }),
{
    reveal(Seq::filter);
    match o {
        Some(c) => {
            assert(seq![c].drop_last() =~= Seq::<Command>::empty());
            assert(Seq::<Command>::empty().filter(pred) =~= Seq::<Command>::empty());
        }
        None => {}
    }
}

/// What filtering the coalesced tail of a drain leaves over.
proof fn lemma_tail_filter(cmds: Seq<Command>, pred: spec_fn(Command) -> bool)
    ensures
        (opt_seq(last_resize(cmds)) + opt_seq(last_camera(cmds)) + opt_seq(last_frame(cmds)))
            .filter(pred) =~= opt_seq(last_resize(cmds)).filter(pred) + opt_seq(
            last_camera(cmds),
        ).filter(pred) + opt_seq(last_frame(cmds)).filter(pred),
{
    Seq::filter_distributes_over_add(
        opt_seq(last_resize(cmds)) + opt_seq(last_camera(cmds)),
        opt_seq(last_frame(cmds)),
        pred,
    );
    Seq::filter_distributes_over_add(
        opt_seq(last_resize(cmds)),
        opt_seq(last_camera(cmds)),
        pred,
    );
}

/// How a drain splits under a filter: the filtered ordered part plus the
/// filtered tail.
proof fn lemma_drain_filter_split(cmds: Seq<Command>, pred: spec_fn(Command) -> bool)
    ensures
        spec_drain(cmds).filter(pred) =~= cmds.filter(ordered_pred()).filter(pred) + (opt_seq(
            last_resize(cmds),
        ) + opt_seq(last_camera(cmds)) + opt_seq(last_frame(cmds))).filter(pred),
{
    let tail = opt_seq(last_resize(cmds)) + opt_seq(last_camera(cmds)) + opt_seq(
        last_frame(cmds),
    );
    assert(spec_drain(cmds) =~= cmds.filter(ordered_pred()) + tail);
    Seq::filter_distributes_over_add(cmds.filter(ordered_pred()), tail, pred);
}

/// Coalescing: over any burst, the drain cycle applies exactly one camera
/// update — the most recent one enqueued — or none at all if the burst
/// holds none.
pub proof fn lemma_camera_coalescing(cmds: Seq<Command>)
    ensures
        spec_drain(cmds).filter(camera_pred()) =~= opt_seq(last_camera(cmds)),
        last_camera(cmds) is Some <==> exists|i: int| 0 <= i < cmds.len()
            && #[trigger] cmds[i] is UpdateCamera,
        last_camera(cmds) matches Some(c) ==> c is UpdateCamera,
{
    lemma_last_camera_props(cmds);
    lemma_last_resize_props(cmds);
    lemma_last_frame_props(cmds);
    assert forall|x: Command| #[trigger] ordered_pred()(x) implies !camera_pred()(x) by {}
    lemma_filter_disjoint(cmds, ordered_pred(), camera_pred());
    lemma_drain_filter_split(cmds, camera_pred());
    lemma_tail_filter(cmds, camera_pred());
    lemma_opt_filter(last_resize(cmds), camera_pred());
    lemma_opt_filter(last_camera(cmds), camera_pred());
    lemma_opt_filter(last_frame(cmds), camera_pred());
}

/// The most recent camera update really is a camera update, really is in
/// the burst, and the drain holds one exactly when the burst held one.
pub proof fn lemma_last_camera_props(cmds: Seq<Command>)
    ensures
        last_camera(cmds) matches Some(c) ==> c is UpdateCamera && cmds.contains(c),
        last_camera(cmds) is Some <==> exists|i: int| 0 <= i < cmds.len()
            && #[trigger] cmds[i] is UpdateCamera,
    decreases cmds.len(),
{
    if cmds.len() > 0 {
        lemma_last_camera_props(cmds.drop_last());
        if !(cmds.last() is UpdateCamera) {
            match last_camera(cmds.drop_last()) {
                Some(c) => {
                    let i = choose|i: int|
                        0 <= i < cmds.drop_last().len() && cmds.drop_last()[i] == c;
                    assert(cmds[i] == c);
                }
                None => {
                    assert forall|i: int| 0 <= i < cmds.len() implies !(#[trigger] cmds[i]
                        is UpdateCamera) by {
                        if i < cmds.len() - 1 {
                            assert(cmds.drop_last()[i] == cmds[i]);
                        }
                    }
                }
            }
        } else {
            assert(cmds.contains(cmds.last())) by {
                assert(cmds[cmds.len() - 1] == cmds.last());
            }
        }
    }
}

/// The most recent resize really is a resize.
pub proof fn lemma_last_resize_props(cmds: Seq<Command>)
    ensures
        last_resize(cmds) matches Some(c) ==> c is Resize,
    decreases cmds.len(),
{
    if cmds.len() > 0 && !(cmds.last() is Resize) {
        lemma_last_resize_props(cmds.drop_last());
    }
}

/// The most recent frame request really is a frame request.
pub proof fn lemma_last_frame_props(cmds: Seq<Command>)
    ensures
        last_frame(cmds) matches Some(c) ==> c is RenderFrame,
    decreases cmds.len(),
{
    if cmds.len() > 0 && !(cmds.last() is RenderFrame) {
        lemma_last_frame_props(cmds.drop_last());
    }
}

/// Ordering: the drain cycle applies every ordered command of the burst —
/// in particular every spawn — exactly once, in arrival order, as a prefix
/// of the applied sequence, however many camera updates, resizes and frames
/// coalesce around them.
pub proof fn lemma_ordered_preserved(cmds: Seq<Command>)
    ensures
        spec_drain(cmds).take(cmds.filter(ordered_pred()).len() as int) =~= cmds.filter(
            ordered_pred(),
        ),
        spec_drain(cmds).filter(ordered_pred()) =~= cmds.filter(ordered_pred()),
        spec_drain(cmds).filter(spawn_pred()) =~= cmds.filter(spawn_pred()),
{
    let ord = cmds.filter(ordered_pred());
    let tail = opt_seq(last_resize(cmds)) + opt_seq(last_camera(cmds)) + opt_seq(
        last_frame(cmds),
    );
    assert(spec_drain(cmds) =~= ord + tail);
    assert(spec_drain(cmds).take(ord.len() as int) =~= ord);
    lemma_last_resize_props(cmds);
    lemma_last_camera_props(cmds);
    lemma_last_frame_props(cmds);
    lemma_drain_filter_split(cmds, ordered_pred());
    lemma_tail_filter(cmds, ordered_pred());
    lemma_opt_filter(last_resize(cmds), ordered_pred());
    lemma_opt_filter(last_camera(cmds), ordered_pred());
    lemma_opt_filter(last_frame(cmds), ordered_pred());
    lemma_filter_chain(cmds, ordered_pred(), ordered_pred());
    lemma_drain_filter_split(cmds, spawn_pred());
    lemma_tail_filter(cmds, spawn_pred());
    lemma_opt_filter(last_resize(cmds), spawn_pred());
    lemma_opt_filter(last_camera(cmds), spawn_pred());
    lemma_opt_filter(last_frame(cmds), spawn_pred());
    assert forall|x: Command| #[trigger] spawn_pred()(x) implies ordered_pred()(x) by {}
    lemma_filter_chain(cmds, spawn_pred(), ordered_pred());
}


/// Side length of the cube faces of an environment map built from an HDR
/// image.
pub const ENVIRONMENT_MAP_SIZE: u32 = 1080;

/// Mathematical model of the render side's whole state.
#[verifier::ext_equal]
pub struct RenderModel {
    pub scene: SceneModel,
    pub camera: CameraRecord,
    pub pending_resize: Option<SurfaceConfig>,
    pub config: SurfaceConfig,
    pub running: bool,
}

/// The render side of the pipeline: the scene graph, the camera state, the
/// surface configuration, and whether the loop is still running. It applies
/// one command at a time, fully synchronously.
pub struct RenderState {
    scene: SceneGraph,
    camera: CameraRecord,
    pending_resize: Option<SurfaceConfig>,
    config: SurfaceConfig,
    running: bool,
}

impl View for RenderState {
    type V = RenderModel;

    closed spec fn view(&self) -> RenderModel {
        RenderModel {
            scene: self.scene@,
            camera: self.camera,
            pending_resize: self.pending_resize,
            config: self.config,
            running: self.running,
        }
    }
}

impl RenderState {
    pub open spec fn wf(&self) -> bool {
        scene_wf(self@.scene)
    }

    /// A fresh render state: a new scene graph, identity-free camera, no
    /// pending resize, running.
    pub fn new(config: SurfaceConfig) -> (s: Self)
        ensures
            s.wf(),
            s@.camera == camera_zero(),
            s@.pending_resize is None,
            s@.config == config,
            s@.running,
            s@.scene.nodes.records.len() == 0,
            s@.scene.lights.records.len() == 0,
            s@.scene.batches.len() == 0,
            s@.scene.pool.data.len() == 2048,
    {
        let camera = CameraRecord {
            position: [0, 0, 0],
            view: [0, 0, 0, 0, 0, 0, 0, 0, 0, 0, 0, 0, 0, 0, 0, 0],
            projection: [0, 0, 0, 0, 0, 0, 0, 0, 0, 0, 0, 0, 0, 0, 0, 0],
        };
        proof {
            assert(camera.position@ =~= camera_zero().position@);
            assert(camera.view@ =~= camera_zero().view@);
            assert(camera.projection@ =~= camera_zero().projection@);
            assert(camera.position == camera_zero().position);
            assert(camera.view == camera_zero().view);
            assert(camera.projection == camera_zero().projection);
        }
        RenderState { scene: SceneGraph::new(), camera, pending_resize: None, config, running: true }
    }

    /// The scene graph, for inspection.
    pub fn scene(&self) -> (r: &SceneGraph)
        ensures
            r@ == self@.scene,
    {
        &self.scene
    }

    /// Whether the render loop keeps running; `Stop` clears this.
    pub fn is_running(&self) -> (r: bool)
        ensures
            r == self@.running,
    {
        self.running
    }

    /// The camera state last applied.
    pub fn camera(&self) -> (r: CameraRecord)
        ensures
            r == self@.camera,
    {
        self.camera
    }

    /// The surface configuration frames are rendered against.
    pub fn current_config(&self) -> (r: SurfaceConfig)
        ensures
            r == self@.config,
    {
        self.config
    }

    /// Apply one command. State-mutating commands take effect immediately;
    /// a spawn whose machine-limit headroom has run out leaves the state
    /// unchanged. The returned events go back to the control thread.
    pub fn apply_command(&mut self, command: Command) -> (events: Vec<Event>)
        requires
            old(self).wf(),
        ensures
            final(self).wf(),
            command is Stop ==> final(self)@ == (RenderModel { running: false, ..old(self)@ })
                && events@ =~= Seq::<Event>::empty(),
            command matches Command::UpdateCamera { camera } ==> final(self)@ == (RenderModel {
                camera: camera,
                ..old(self)@
            }) && events@ =~= Seq::<Event>::empty(),
            command matches Command::Resize { config } ==> final(self)@ == (RenderModel {
                pending_resize: Some(config),
                ..old(self)@
            }) && events@ =~= seq![Event::ResizeComplete { config: config }],
            command matches Command::UpdateTransform { entity_id, transform } ==> final(self)@
                == (RenderModel {
                scene: SceneModel {
                    transforms: spec_set(old(self)@.scene.transforms, entity_id, transform),
                    ..old(self)@.scene
                },
                ..old(self)@
            }) && events@ =~= Seq::<Event>::empty(),
            command matches Command::UpdateLight { entity_id, color, intensity, cutoff }
                ==> final(self)@ == (RenderModel {
                scene: SceneModel {
                    lights: spec_set(
                        old(self)@.scene.lights,
                        entity_id,
                        LightRecord { color, cutoff, intensity, kind: LIGHT_POINT },
                    ),
                    ..old(self)@.scene
                },
                ..old(self)@
            }) && events@ =~= Seq::<Event>::empty(),
            command is RenderFrame ==> {
                &&& binding_current(final(self)@.scene)
                &&& final(self)@ == (RenderModel {
                    scene: final(self)@.scene,
                    pending_resize: None,
                    config: match old(self)@.pending_resize {
                        Some(c) => c,
                        None => old(self)@.config,
                    },
                    ..old(self)@
                })
                &&& final(self)@.scene == (SceneModel {
                    transforms: StoreModel { dirty: false, ..old(self)@.scene.transforms },
                    normals: StoreModel { dirty: false, ..old(self)@.scene.normals },
                    lights: StoreModel { dirty: false, ..old(self)@.scene.lights },
                    node_transform_index: RelationModel {
                        dirty: false,
                        ..old(self)@.scene.node_transform_index
                    },
                    node_normal_index: RelationModel {
                        dirty: false,
                        ..old(self)@.scene.node_normal_index
                    },
                    lights_transform_index: RelationModel {
                        dirty: false,
                        ..old(self)@.scene.lights_transform_index
                    },
                    binding: final(self)@.scene.binding,
                    ..old(self)@.scene
                })
                &&& events@ =~= seq![Event::FrameComplete]
            },
            command matches Command::SpawnAsset { entity_id, render_id, transform, normal }
                ==> events@ =~= Seq::<Event>::empty() && (if spec_can_spawn_node(
                old(self)@.scene,
            ) {
                &&& final(self)@ == (RenderModel { scene: final(self)@.scene, ..old(self)@ })
                &&& final(self)@.scene == (SceneModel {
                    nodes: spec_add(old(self)@.scene.nodes, entity_id, render_id),
                    transforms: spec_add(old(self)@.scene.transforms, entity_id, transform),
                    normals: spec_add(old(self)@.scene.normals, entity_id, normal),
                    node_transform_index: spec_link(
                        old(self)@.scene.node_transform_index,
                        spec_add_slot(old(self)@.scene.nodes, entity_id) as u32,
                        spec_add_slot(old(self)@.scene.transforms, entity_id) as u32,
                    ),
                    node_normal_index: spec_link(
                        old(self)@.scene.node_normal_index,
                        spec_add_slot(old(self)@.scene.nodes, entity_id) as u32,
                        spec_add_slot(old(self)@.scene.normals, entity_id) as u32,
                    ),
                    pool: final(self)@.scene.pool,
                    batches: final(self)@.scene.batches,
                    ..old(self)@.scene
                })
                &&& batches_built(final(self)@.scene, old(self)@.scene.pool.data)
            } else {
                final(self)@ == old(self)@
            }),
            command matches Command::SpawnLight { entity_id, light, transform } ==> events@
                =~= Seq::<Event>::empty() && (if spec_can_spawn_light(old(self)@.scene) {
                final(self)@ == (RenderModel {
                    scene: SceneModel {
                        transforms: spec_add(old(self)@.scene.transforms, entity_id, transform),
                        lights: spec_add(old(self)@.scene.lights, entity_id, light),
                        lights_transform_index: spec_link(
                            old(self)@.scene.lights_transform_index,
                            spec_add_slot(old(self)@.scene.lights, entity_id) as u32,
                            spec_add_slot(old(self)@.scene.transforms, entity_id) as u32,
                        ),
                        ..old(self)@.scene
                    },
                    ..old(self)@
                })
            } else {
                final(self)@ == old(self)@
            }),
            command matches Command::LoadAsset { asset } ==> (match asset {
                AssetPayload::EnvironmentMap { buffer, label } => final(self)@ == (RenderModel {
                    scene: SceneModel {
                        environment_map: Some(EnvironmentMap { size: ENVIRONMENT_MAP_SIZE }),
                        ..old(self)@.scene
                    },
                    ..old(self)@
                }) && events@ =~= Seq::<Event>::empty(),
                AssetPayload::Pointcloud { pointcloud, label } => (if spec_can_add_pointcloud(
                    old(self)@.scene,
                ) {
                    &&& final(self)@ == (RenderModel {
                        scene: SceneModel {
                            geometries: spec_add(
                                old(self)@.scene.geometries,
                                old(self)@.scene.next_key,
                                Geometry::Pointcloud(pointcloud),
                            ),
                            renderables: spec_add(
                                old(self)@.scene.renderables,
                                (old(self)@.scene.next_key + 1) as u128,
                                Renderable::Pointcloud(
                                    PointcloudHandle {
                                        geometry_index: ComponentId::<Geometry>::spec_new(
                                            spec_add_slot(
                                                old(self)@.scene.geometries,
                                                old(self)@.scene.next_key,
                                            ) as u32,
                                        ),
                                    },
                                ),
                            ),
                            next_key: (old(self)@.scene.next_key + 2) as u128,
                            ..old(self)@.scene
                        },
                        ..old(self)@
                    })
                    &&& events@ =~= seq![
                        Event::LoadComplete {
                            render_id: (old(self)@.scene.next_key + 1) as u128,
                            transform: Some(swap_yz_record()),
                            label: label,
                        },
                    ]
                } else {
                    final(self)@ == old(self)@ && events@ =~= Seq::<Event>::empty()
                }),
                AssetPayload::Scene { asset, label } => spec_scene_load_post(
                    old(self)@,
                    final(self)@,
                    asset,
                    label,
                    events@,
                ),
            }),
    {
        match command {
            Command::Stop => {
                self.running = false;
                proof {
                    assert(self@ =~= (RenderModel { running: false, ..old(self)@ }));
                }
                Vec::new()
            }
            Command::UpdateCamera { camera } => {
                self.camera = camera;
                proof {
                    assert(self@ =~= (RenderModel { camera: camera, ..old(self)@ }));
                }
                Vec::new()
            }
            Command::Resize { config } => {
                self.pending_resize = Some(config);
                let mut events: Vec<Event> = Vec::new();
                events.push(Event::ResizeComplete { config });
                proof {
                    assert(self@ =~= (RenderModel { pending_resize: Some(config), ..old(self)@ }));
                    assert(events@ =~= seq![Event::ResizeComplete { config: config }]);
                }
                events
            }
            Command::UpdateTransform { entity_id, transform } => {
                self.scene.update_transform(entity_id, transform);
                proof {
                    assert(self@ =~= (RenderModel {
                        scene: SceneModel {
                            transforms: spec_set(
                                old(self)@.scene.transforms,
                                entity_id,
                                transform,
                            ),
                            ..old(self)@.scene
                        },
                        ..old(self)@
                    }));
                }
                Vec::new()
            }
            Command::UpdateLight { entity_id, color, intensity, cutoff } => {
                let light = LightRecord { color, cutoff, intensity, kind: LIGHT_POINT };
                self.scene.update_light(entity_id, light);
                proof {
                    assert(self@ =~= (RenderModel {
                        scene: SceneModel {
                            lights: spec_set(old(self)@.scene.lights, entity_id, light),
                            ..old(self)@.scene
                        },
                        ..old(self)@
                    }));
                }
                Vec::new()
            }
            Command::RenderFrame => {
                self.scene.sync();
                let mut events: Vec<Event> = Vec::new();
                events.push(Event::FrameComplete);
                match self.pending_resize.take() {
                    Some(config) => {
                        self.config = config;
                    }
                    None => {}
                }
                proof {
                    assert(events@ =~= seq![Event::FrameComplete]);
                    assert(self@ =~= (RenderModel {
                        scene: self@.scene,
                        pending_resize: None,
                        config: match old(self)@.pending_resize {
                            Some(c) => c,
                            None => old(self)@.config,
                        },
                        ..old(self)@
                    }));
                }
                events
            }
            Command::SpawnAsset { entity_id, render_id, transform, normal } => {
                if self.scene.can_spawn_node() {
                    self.scene.add_node(entity_id, render_id, transform, normal);
                    proof {
                        assert(self@ =~= (RenderModel { scene: self@.scene, ..old(self)@ }));
                    }
                } else {
                    proof {
                        assert(self@ =~= old(self)@);
                    }
                }
                Vec::new()
            }
            Command::SpawnLight { entity_id, light, transform } => {
                if self.scene.can_spawn_light() {
                    self.scene.add_light(entity_id, light, transform);
                    proof {
                        assert(self@ =~= (RenderModel {
                            scene: SceneModel {
                                transforms: spec_add(
                                    old(self)@.scene.transforms,
                                    entity_id,
                                    transform,
                                ),
                                lights: spec_add(old(self)@.scene.lights, entity_id, light),
                                lights_transform_index: spec_link(
                                    old(self)@.scene.lights_transform_index,
                                    spec_add_slot(old(self)@.scene.lights, entity_id) as u32,
                                    spec_add_slot(old(self)@.scene.transforms, entity_id) as u32,
                                ),
                                ..old(self)@.scene
                            },
                            ..old(self)@
                        }));
                    }
                } else {
                    proof {
                        assert(self@ =~= old(self)@);
                    }
                }
                Vec::new()
            }
            Command::LoadAsset { asset } => {
                match asset {
                    AssetPayload::EnvironmentMap { buffer, label } => {
                        self.scene.set_environment_map(
                            EnvironmentMap { size: ENVIRONMENT_MAP_SIZE },
                        );
                        proof {
                            assert(self@ =~= (RenderModel {
                                scene: SceneModel {
                                    environment_map: Some(
                                        EnvironmentMap { size: ENVIRONMENT_MAP_SIZE },
                                    ),
                                    ..old(self)@.scene
                                },
                                ..old(self)@
                            }));
                        }
                        Vec::new()
                    }
                    AssetPayload::Pointcloud { pointcloud, label } => {
                        if self.scene.can_add_pointcloud() {
                            let render_id = self.scene.add_pointcloud(pointcloud);
                            let mut events: Vec<Event> = Vec::new();
                            events.push(
                                Event::LoadComplete {
                                    render_id,
                                    transform: Some(swap_yz()),
                                    label,
                                },
                            );
                            proof {
                                assert(self@ =~= (RenderModel { scene: self@.scene, ..old(self)@ }));
                                assert(events@ =~= seq![
                                    Event::LoadComplete {
                                        render_id: (old(self)@.scene.next_key + 1) as u128,
                                        transform: Some(swap_yz_record()),
                                        label: label,
                                    },
                                ]);
                            }
                            events
                        } else {
                            proof {
                                assert(self@ =~= old(self)@);
                            }
                            Vec::new()
                        }
                    }
                    AssetPayload::Scene { asset, label } => self.load_scene(asset, label),
                }
            }
        }
    }
}

/// The transform that swaps the Y and Z axes (point clouds are stored
/// Z-up): column-major float bit patterns.
pub open spec fn swap_yz_record() -> TransformRecord {
    TransformRecord {
        cols: [
            crate::records::FLOAT_ONE_BITS, 0, 0, 0,
            0, 0, 0xbf80_0000u32, 0,
            0, crate::records::FLOAT_ONE_BITS, 0, 0,
            0, 0, 0, crate::records::FLOAT_ONE_BITS,
        ],
    }
}

/// The transform that swaps the Y and Z axes.
pub fn swap_yz() -> (r: TransformRecord)
    ensures
        r == swap_yz_record(),
{
    TransformRecord {
        cols: [
            crate::records::FLOAT_ONE_BITS, 0, 0, 0,
            0, 0, 0xbf80_0000u32, 0,
            0, crate::records::FLOAT_ONE_BITS, 0, 0,
            0, 0, 0, crate::records::FLOAT_ONE_BITS,
        ],
    }
}


/// The all-zero camera state a fresh render side starts with.
pub open spec fn camera_zero() -> CameraRecord {
    CameraRecord {
        position: [0, 0, 0],
        view: [0, 0, 0, 0, 0, 0, 0, 0, 0, 0, 0, 0, 0, 0, 0, 0],
        projection: [0, 0, 0, 0, 0, 0, 0, 0, 0, 0, 0, 0, 0, 0, 0, 0],
    }
}

/// Whether every primitive of a node names one of the asset's materials.
pub open spec fn spec_node_valid(node: MeshNode, mat_len: nat) -> bool {
    forall|j: int| 0 <= j < node.primitives@.len()
        ==> (#[trigger] node.primitives@[j]).material_index < mat_len
}

/// Total number of primitives over a run of nodes.
pub open spec fn spec_total_prims(nodes: Seq<MeshNode>) -> nat
    decreases nodes.len(),
{
    if nodes.len() == 0 {
        0
    } else {
        nodes[0].primitives@.len() + spec_total_prims(nodes.drop_first())
    }
}

/// How many fresh keys loading a run of nodes mints: one per valid node
/// plus one per primitive of a valid node.
pub open spec fn spec_keys_used(nodes: Seq<MeshNode>, mat_len: nat) -> nat
    decreases nodes.len(),
{
    if nodes.len() == 0 {
        0
    } else {
        spec_keys_used(nodes.drop_last(), mat_len) + (if spec_node_valid(nodes.last(), mat_len) {
            nodes.last().primitives@.len() + 1
        } else {
            0
        })
    }
}

/// The completion events a scene load emits: one `LoadComplete` per valid
/// node, in node order, carrying the render identifier the node's mesh was
/// registered under; invalid nodes are skipped silently.
pub open spec fn spec_scene_events(
    key0: u128,
    nodes: Seq<MeshNode>,
    label: Option<String>,
    mat_len: nat,
) -> Seq<Event>
    decreases nodes.len(),
{
    if nodes.len() == 0 {
        Seq::empty()
    } else {
        spec_scene_events(key0, nodes.drop_last(), label, mat_len) + (if spec_node_valid(
            nodes.last(),
            mat_len,
        ) {
            seq![
                Event::LoadComplete {
                    render_id: (key0 + spec_keys_used(nodes.drop_last(), mat_len)
                        + nodes.last().primitives@.len()) as u128,
                    transform: Some(nodes.last().transform),
                    label: label,
                },
            ]
        } else {
            Seq::empty()
        })
    }
}

/// The material store after registering a run of materials under
/// consecutive fresh keys.
pub open spec fn spec_add_materials(
    m: StoreModel<MaterialRecord>,
    key0: u128,
    mats: Seq<MaterialRecord>,
) -> StoreModel<MaterialRecord>
    decreases mats.len(),
{
    if mats.len() == 0 {
        m
    } else {
        spec_add_materials(spec_add(m, key0, mats[0]), (key0 + 1) as u128, mats.drop_first())
    }
}

/// Registering one more material at the end of the run.
pub proof fn lemma_add_materials_push(
    m: StoreModel<MaterialRecord>,
    key0: u128,
    mats: Seq<MaterialRecord>,
    x: MaterialRecord,
)
    requires
        key0 + mats.len() + 1 <= u128::MAX,
    ensures
        spec_add_materials(m, key0, mats.push(x)) == spec_add(
            spec_add_materials(m, key0, mats),
            (key0 + mats.len()) as u128,
            x,
        ),
    decreases mats.len(),
{
    if mats.len() == 0 {
        assert(mats.push(x).drop_first() =~= mats);
        assert(mats.push(x)[0] == x);
        assert(spec_add_materials(spec_add(m, key0, x), (key0 + 1) as u128, mats) == spec_add(
            m,
            key0,
            x,
        ));
        assert(spec_add_materials(m, key0, mats) == m);
    } else {
        assert(mats.push(x)[0] == mats[0]);
        assert(mats.push(x).drop_first() =~= mats.drop_first().push(x));
        lemma_add_materials_push(
            spec_add(m, key0, mats[0]),
            (key0 + 1) as u128,
            mats.drop_first(),
            x,
        );
        assert(spec_add_materials(m, key0, mats) == spec_add_materials(
            spec_add(m, key0, mats[0]),
            (key0 + 1) as u128,
            mats.drop_first(),
        ));
        assert(spec_add_materials(m, key0, mats.push(x)) == spec_add_materials(
            spec_add(m, key0, mats[0]),
            (key0 + 1) as u128,
            mats.drop_first().push(x),
        ));
    }
}

/// Whether every primitive of a node names one of the given materials.
fn node_valid(node: &MeshNode, mat_len: usize) -> (r: bool)
    ensures
        r == spec_node_valid(*node, mat_len as nat),
{
    let n = node.primitives.len();
    let mut j: usize = 0;
    while j < n
        invariant
            j <= n,
            n == node.primitives@.len(),
            forall|t: int| 0 <= t < j ==> (#[trigger] node.primitives@[t]).material_index
                < mat_len,
        decreases n - j,
    {
        if node.primitives[j].material_index >= mat_len {
            return false;
        }
        j = j + 1;
    }
    true
}

/// Whether a render identifier resolves, through the scene's stores, to a
/// mesh renderable with one handle per primitive of `node`, each reaching a
/// live geometry slot holding the primitive and a material slot holding the
/// material record the primitive's index named.
pub open spec fn renderable_is_mesh_of(
    m: SceneModel,
    rid: u128,
    node: MeshNode,
    mats: Seq<MaterialRecord>,
) -> bool {
    &&& m.renderables.index.contains_key(rid)
    &&& (m.renderables.records[m.renderables.index[rid] as int] matches Renderable::Mesh(handles)
        && handles@.len() == node.primitives@.len()
        && (forall|k: int| 0 <= k < handles@.len()
            ==> (#[trigger] handles@[k]).geometry_index@ < m.geometries.records.len()
                && m.geometries.live[handles@[k].geometry_index@ as int]
                && m.geometries.records[handles@[k].geometry_index@ as int]
                    == Geometry::Primitive(node.primitives@[k])
                && handles@[k].material_index@ < m.materials.records.len()
                && m.materials.records[handles@[k].material_index@ as int]
                    == mats[node.primitives@[k].material_index as int]))
}

/// Whether a completion event carries `node`'s transform and a render
/// identifier that resolves to `node`'s mesh.
pub open spec fn event_resolves(
    m: SceneModel,
    e: Event,
    node: MeshNode,
    mats: Seq<MaterialRecord>,
) -> bool {
    e matches Event::LoadComplete { render_id, transform, label } && (transform == Some(
        node.transform,
    ) && renderable_is_mesh_of(m, render_id, node, mats))
}

/// Whether every completion event resolves to some valid node of the
/// asset.
pub open spec fn events_resolve(
    m: SceneModel,
    events: Seq<Event>,
    nodes: Seq<MeshNode>,
    mats: Seq<MaterialRecord>,
) -> bool {
    forall|j: int| 0 <= j < events.len() ==> exists|t: int|
        0 <= t < nodes.len() && spec_node_valid(nodes[t], mats.len() as nat) && event_resolves(
            m,
            #[trigger] events[j],
            nodes[t],
            mats,
        )
}

/// What a scene load leaves behind: nothing but the material, geometry and
/// renderable stores and the key counter change; when the machine-limit
/// headroom holds, the materials are registered in order under consecutive
/// fresh keys, the events are exactly one `LoadComplete` per valid node in
/// node order, and every event's render identifier resolves to a valid
/// node's mesh; when it does not hold, nothing changes and no event is
/// emitted.
pub open spec fn spec_scene_load_post(
    pre: RenderModel,
    post: RenderModel,
    asset: SceneAsset,
    label: Option<String>,
    events: Seq<Event>,
) -> bool {
    &&& post == (RenderModel { scene: post.scene, ..pre })
    &&& post.scene == (SceneModel {
        materials: post.scene.materials,
        geometries: post.scene.geometries,
        renderables: post.scene.renderables,
        next_key: post.scene.next_key,
        ..pre.scene
    })
    &&& if spec_can_load(
        pre.scene,
        asset.materials@.len() as nat,
        spec_total_prims(asset.nodes@),
        asset.nodes@.len() as nat,
    ) {
        &&& post.scene.materials == spec_add_materials(
            pre.scene.materials,
            pre.scene.next_key,
            asset.materials@,
        )
        &&& events == spec_scene_events(
            (pre.scene.next_key + asset.materials@.len()) as u128,
            asset.nodes@,
            label,
            asset.materials@.len() as nat,
        )
        &&& events_resolve(post.scene, events, asset.nodes@, asset.materials@)
    } else {
        post == pre && events =~= Seq::<Event>::empty()
    }
}

impl RenderState {
    /// Register a decoded scene asset: its materials, then one mesh per
    /// node whose primitives all name a material of this asset (a node with
    /// a bad material index is skipped). Returns one `LoadComplete` per
    /// registered node. A load whose machine-limit headroom has run out
    /// leaves the state unchanged and returns no events.
    pub fn load_scene(&mut self, asset: SceneAsset, label: Option<String>) -> (events: Vec<Event>)
        requires
            old(self).wf(),
        ensures
            final(self).wf(),
            spec_scene_load_post(old(self)@, final(self)@, asset, label, events@),
    {
        let mats_n = asset.materials.len();
        let nodes_n = asset.nodes.len();
        let ghost total_prims = spec_total_prims(asset.nodes@);
        let mut prims_total: u128 = 0;
        let mut t: usize = 0;
        while t < nodes_n
            invariant
                t <= nodes_n,
                nodes_n == asset.nodes@.len(),
                prims_total == spec_total_prims(asset.nodes@.take(t as int)),
                prims_total <= t * (usize::MAX as u128),
            decreases nodes_n - t,
        {
            let p = asset.nodes[t].primitives.len();
            proof {
                lemma_total_prims_push(asset.nodes@.take(t as int), asset.nodes@[t as int]);
                assert(asset.nodes@.take(t + 1) =~= asset.nodes@.take(t as int).push(
                    asset.nodes@[t as int],
                ));
                assert(prims_total + p <= (t + 1) * (usize::MAX as u128)) by (nonlinear_arith)
                    requires
                        prims_total <= t * (usize::MAX as u128),
                        p <= usize::MAX as u128,
                    ;
                assert((t as u128 + 1) * (usize::MAX as u128) <= u128::MAX) by (nonlinear_arith)
                    requires
                        t as u128 <= 0xffff_ffff_ffff_ffffu128,
                    ;
            }
            prims_total = prims_total + p as u128;
            t = t + 1;
        }
        proof {
            assert(asset.nodes@.take(nodes_n as int) =~= asset.nodes@);
        }
        let ok = prims_total <= usize::MAX as u128 && self.scene.can_load_asset(
            mats_n,
            prims_total as usize,
            nodes_n,
        );
        if !ok {
            proof {
                assert(self@ =~= old(self)@);
            }
            return Vec::new();
        }

        let ghost m0 = old(self)@;
        let mut material_ids: Vec<ComponentId<MaterialRecord>> = Vec::new();
        let mut i: usize = 0;
        while i < mats_n
            invariant
                i <= mats_n,
                mats_n == asset.materials@.len(),
                self.wf(),
                self@ == (RenderModel {
                    scene: SceneModel {
                        materials: self@.scene.materials,
                        next_key: self@.scene.next_key,
                        ..m0.scene
                    },
                    ..m0
                }),
                self@.scene.materials == spec_add_materials(
                    m0.scene.materials,
                    m0.scene.next_key,
                    asset.materials@.take(i as int),
                ),
                self@.scene.next_key == m0.scene.next_key + i,
                m0.scene.next_key + mats_n + total_prims + nodes_n <= u128::MAX,
                store_headroom_n(self@.scene.materials, (mats_n - i) as nat),
                material_ids@.len() == i,
                forall|t2: int| 0 <= t2 < i ==> (#[trigger] material_ids@[t2])@
                    < self@.scene.materials.records.len(),
                forall|t2: int| 0 <= t2 < i
                    ==> #[trigger] self@.scene.materials.live[material_ids@[t2]@ as int],
                forall|t2: int| 0 <= t2 < i
                    ==> #[trigger] self@.scene.materials.records[material_ids@[t2]@ as int]
                        == asset.materials@[t2],
            decreases mats_n - i,
        {
            proof {
                crate::store::lemma_headroom_step(
                    self@.scene.materials,
                    (mats_n - i) as nat,
                    self@.scene.next_key,
                    asset.materials@[i as int],
                );
                lemma_add_materials_push(
                    m0.scene.materials,
                    m0.scene.next_key,
                    asset.materials@.take(i as int),
                    asset.materials@[i as int],
                );
                assert(asset.materials@.take(i + 1) =~= asset.materials@.take(i as int).push(
                    asset.materials@[i as int],
                ));
            }
            let ghost mpre = self@.scene.materials;
            let ghost mkey = self@.scene.next_key;
            proof {
                assert(!mpre.index.contains_key(mkey));
                crate::store::lemma_add_fresh_preserves_live(
                    mpre,
                    mkey,
                    asset.materials@[i as int],
                );
            }
            let id = self.scene.add_material(asset.materials[i]);
            material_ids.push(id);
            proof {
                assert forall|t2: int| 0 <= t2 < i + 1 implies (#[trigger] material_ids@[t2])@
                    < self@.scene.materials.records.len() && self@.scene.materials.live[
                    material_ids@[t2]@ as int
                ] && self@.scene.materials.records[material_ids@[t2]@ as int]
                    == asset.materials@[t2] by {
                    if t2 < i {
                        assert(0 <= material_ids@[t2]@ < mpre.records.len());
                        assert(mpre.live[material_ids@[t2]@ as int]);
                        assert(spec_add(mpre, mkey, asset.materials@[i as int]).live[
                            material_ids@[t2]@ as int
                        ]);
                        assert(spec_add(mpre, mkey, asset.materials@[i as int]).records[
                            material_ids@[t2]@ as int
                        ] == mpre.records[material_ids@[t2]@ as int]);
                    } else {
                        assert(material_ids@[t2] == id);
                        assert(id@ == spec_add_slot(mpre, mkey) as u32);
                    }
                }
            }
            i = i + 1;
        }
        proof {
            assert(asset.materials@.take(mats_n as int) =~= asset.materials@);
        }

        let ghost key_after_mats = self@.scene.next_key;
        let ghost mats_model = self@.scene.materials;
        let mut events: Vec<Event> = Vec::new();
        let mut j: usize = 0;
        while j < nodes_n
            invariant
                j <= nodes_n,
                nodes_n == asset.nodes@.len(),
                mats_n == asset.materials@.len(),
                material_ids@.len() == mats_n,
                self.wf(),
                self@ == (RenderModel {
                    scene: SceneModel {
                        materials: mats_model,
                        geometries: self@.scene.geometries,
                        renderables: self@.scene.renderables,
                        next_key: self@.scene.next_key,
                        ..m0.scene
                    },
                    ..m0
                }),
                key_after_mats + spec_total_prims(asset.nodes@) + nodes_n <= u128::MAX,
                self@.scene.next_key == key_after_mats + spec_keys_used(
                    asset.nodes@.take(j as int),
                    mats_n as nat,
                ),
                spec_keys_used(asset.nodes@.take(j as int), mats_n as nat) + spec_total_prims(
                    asset.nodes@.skip(j as int),
                ) + (nodes_n - j) <= spec_total_prims(asset.nodes@) + nodes_n,
                store_headroom_n(
                    self@.scene.geometries,
                    spec_total_prims(asset.nodes@.skip(j as int)),
                ),
                store_headroom_n(self@.scene.renderables, (nodes_n - j) as nat),
                events@ == spec_scene_events(
                    key_after_mats,
                    asset.nodes@.take(j as int),
                    label,
                    mats_n as nat,
                ),
                forall|t2: int| 0 <= t2 < mats_n ==> (#[trigger] material_ids@[t2])@
                    < self@.scene.materials.records.len(),
                forall|t2: int| 0 <= t2 < mats_n
                    ==> #[trigger] self@.scene.materials.records[material_ids@[t2]@ as int]
                        == asset.materials@[t2],
                events_resolve(self@.scene, events@, asset.nodes@, asset.materials@),
            decreases nodes_n - j,
        {
            let node = &asset.nodes[j];
            let valid = node_valid(node, material_ids.len());
            proof {
                assert(asset.nodes@.skip(j as int)[0] == asset.nodes@[j as int]);
                assert(asset.nodes@.skip(j as int).drop_first() =~= asset.nodes@.skip(j + 1));
                assert(spec_total_prims(asset.nodes@.skip(j as int))
                    == asset.nodes@[j as int].primitives@.len() + spec_total_prims(
                    asset.nodes@.skip(j + 1),
                ));
                assert(asset.nodes@.take(j + 1).drop_last() =~= asset.nodes@.take(j as int));
                assert(asset.nodes@.take(j + 1).last() == asset.nodes@[j as int]);
            }
            if valid {
                proof {
                    crate::store::lemma_headroom_step(
                        self@.scene.renderables,
                        (nodes_n - j) as nat,
                        0,
                        Renderable::Pointcloud(
                            PointcloudHandle {
                                geometry_index: ComponentId::<Geometry>::spec_new(0),
                            },
                        ),
                    );
                    assert(store_headroom_n(
                        self@.scene.geometries,
                        asset.nodes@[j as int].primitives@.len() as nat,
                    ));
                }
                let ghost spre = self@.scene;
                let ghost epre = events@;
                let render_id = self.scene.add_mesh(&node.primitives, &material_ids);
                events.push(
                    Event::LoadComplete {
                        render_id,
                        transform: Some(node.transform),
                        label: clone_label(&label),
                    },
                );
                proof {
                    assert(events@ =~= spec_scene_events(
                        key_after_mats,
                        asset.nodes@.take(j + 1),
                        label,
                        mats_n as nat,
                    ));
                    let scur = self@.scene;
                    assert(!spre.renderables.index.contains_key(render_id));
                    crate::store::lemma_add_fresh_preserves_live(
                        spre.renderables,
                        render_id,
                        scur.renderables.records[scur.renderables.index[render_id] as int],
                    );
                    assert forall|j2: int| 0 <= j2 < events@.len() implies exists|t2: int|
                        0 <= t2 < asset.nodes@.len() && spec_node_valid(
                            asset.nodes@[t2],
                            asset.materials@.len() as nat,
                        ) && event_resolves(
                            scur,
                            #[trigger] events@[j2],
                            asset.nodes@[t2],
                            asset.materials@,
                        ) by {
                        if j2 < epre.len() {
                            assert(events@[j2] == epre[j2]);
                            assert(events_resolve(spre, epre, asset.nodes@, asset.materials@));
                            assert(epre[j2] == events@[j2]);
                            let t2 = choose|t2: int|
                                0 <= t2 < asset.nodes@.len() && spec_node_valid(
                                    asset.nodes@[t2],
                                    asset.materials@.len() as nat,
                                ) && event_resolves(
                                    spre,
                                    #[trigger] epre[j2],
                                    asset.nodes@[t2],
                                    asset.materials@,
                                );
                            assert(event_resolves(
                                scur,
                                events@[j2],
                                asset.nodes@[t2],
                                asset.materials@,
                            )) by {
                                lemma_event_resolution_preserved(
                                    spre,
                                    scur,
                                    epre[j2],
                                    asset.nodes@[t2],
                                    asset.materials@,
                                    render_id,
                                    scur.renderables.records[scur.renderables.index[
                                        render_id
                                    ] as int],
                                );
                            }
                        } else {
                            assert(events@[j2] == (Event::LoadComplete {
                                render_id,
                                transform: Some(asset.nodes@[j as int].transform),
                                label: label,
                            }));
                            assert(spec_node_valid(
                                asset.nodes@[j as int],
                                asset.materials@.len() as nat,
                            ));
                            assert(renderable_is_mesh_of(
                                scur,
                                render_id,
                                asset.nodes@[j as int],
                                asset.materials@,
                            ));
                            assert(event_resolves(
                                scur,
                                events@[j2],
                                asset.nodes@[j as int],
                                asset.materials@,
                            ));
                        }
                    }
                    assert(events_resolve(scur, events@, asset.nodes@, asset.materials@));
                    assert(scur == self@.scene);
                }
            } else {
                proof {
                    assert(events@ =~= spec_scene_events(
                        key_after_mats,
                        asset.nodes@.take(j + 1),
                        label,
                        mats_n as nat,
                    ));
                }
            }
            j = j + 1;
        }
        proof {
            assert(asset.nodes@.take(nodes_n as int) =~= asset.nodes@);
        }
        events
    }
}

/// One more node at the end of a run adds its primitives to the total.
pub proof fn lemma_total_prims_push(nodes: Seq<MeshNode>, x: MeshNode)
    ensures
        spec_total_prims(nodes.push(x)) == spec_total_prims(nodes) + x.primitives@.len(),
    decreases nodes.len(),
{
    if nodes.len() == 0 {
        assert(nodes.push(x).drop_first() =~= nodes);
        assert(nodes.push(x)[0] == x);
    } else {
        assert(nodes.push(x)[0] == nodes[0]);
        assert(nodes.push(x).drop_first() =~= nodes.drop_first().push(x));
        lemma_total_prims_push(nodes.drop_first(), x);
    }
}

/// Clone an optional label.
fn clone_label(label: &Option<String>) -> (r: Option<String>)
    ensures
        r == *label,
{
    match label {
        Some(s) => Some(s.clone()),
        None => None,
    }
}


/// Registering one more renderable under a fresh key, while live geometry
/// slots keep their records and the materials stay put, preserves the
/// resolution of every earlier completion event.
proof fn lemma_event_resolution_preserved(
    spre: SceneModel,
    scur: SceneModel,
    e: Event,
    node: MeshNode,
    mats: Seq<MaterialRecord>,
    fresh_rid: u128,
    v: Renderable,
)
    requires
        event_resolves(spre, e, node, mats),
        crate::store::store_wf(spre.renderables),
        !spre.renderables.index.contains_key(fresh_rid),
        scur.renderables == spec_add(spre.renderables, fresh_rid, v),
        scur.materials == spre.materials,
        spre.geometries.records.len() <= scur.geometries.records.len(),
        forall|i: int| 0 <= i < spre.geometries.records.len() && spre.geometries.live[i]
            ==> #[trigger] scur.geometries.live[i],
        forall|i: int| 0 <= i < spre.geometries.records.len() && spre.geometries.live[i]
            ==> #[trigger] scur.geometries.records[i] == spre.geometries.records[i],
    ensures
        event_resolves(scur, e, node, mats),
{
    crate::store::lemma_add_fresh_preserves_live(spre.renderables, fresh_rid, v);
    match e {
        Event::LoadComplete { render_id, transform, label } => {
            let slot = spre.renderables.index[render_id];
            assert(spre.renderables.live[slot as int]);
            assert(scur.renderables.index.contains_key(render_id));
            assert(scur.renderables.index[render_id] == slot);
            assert(scur.renderables.records[slot as int]
                == spre.renderables.records[slot as int]);
            match spre.renderables.records[slot as int] {
                Renderable::Mesh(handles) => {
                    assert forall|k: int| 0 <= k < handles@.len() implies (
                        #[trigger] handles@[k]).geometry_index@ < scur.geometries.records.len()
                        && scur.geometries.live[handles@[k].geometry_index@ as int]
                        && scur.geometries.records[handles@[k].geometry_index@ as int]
                            == Geometry::Primitive(node.primitives@[k])
                        && handles@[k].material_index@ < scur.materials.records.len()
                        && scur.materials.records[handles@[k].material_index@ as int]
                            == mats[node.primitives@[k].material_index as int] by {
                        assert(spre.geometries.live[handles@[k].geometry_index@ as int]);
                        assert(spre.geometries.records[handles@[k].geometry_index@ as int]
                            == Geometry::Primitive(node.primitives@[k]));
                    }
                }
                _ => {}
            }
        }
        _ => {}
    }
}

} // verus!



