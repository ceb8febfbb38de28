//! The decisions of a render-graph node that drives a pair of compute
//! pipelines: an `init` pass that runs once the first pipeline has compiled,
//! then an `update` pass for every later frame.
//!
//! The node itself never touches the GPU here. Each frame the host asks which
//! pipeline the node waits for, polls the pipeline cache for it, hands the
//! answer to [`PipelineNode::update`], and then asks [`PipelineNode::dispatch`]
//! what to record into the compute pass.
use vstd::prelude::*;

verus! {

/// Side of a square workgroup of the compute shaders, in pixels.
pub const WORKGROUP_SIZE: u32 = 8;

/// Width of the lava-lamp image, in pixels.
pub const LAVA_LAMPS_WIDTH: u32 = 1280;

/// Height of the lava-lamp image, in pixels.
pub const LAVA_LAMPS_HEIGHT: u32 = 720;

/// Where a compute node stands in its life.
#[derive(Clone, Copy, Debug, PartialEq, Eq, Structural)]
pub enum NodeState {
    /// Waiting for the `init` pipeline to compile.
    Loading,
    /// The `init` pipeline is ready; waiting for the `update` pipeline.
    Init,
    /// Both pipelines are ready.
    Update,
}

/// One of the two compute pipelines of a node.
#[derive(Clone, Copy, Debug, PartialEq, Eq, Structural)]
pub enum PipelineKind {
    /// The pipeline whose entry point is `init`.
    Init,
    /// The pipeline whose entry point is `update`.
    Update,
}

impl PipelineKind {
    /// The shader entry point the pipeline is compiled from.
    pub fn entry_point(&self) -> (name: &'static str)
        ensures
            *self == PipelineKind::Init ==> name@ == "init"@,
            *self == PipelineKind::Update ==> name@ == "update"@,
    {
        match self {
            PipelineKind::Init => "init",
            PipelineKind::Update => "update",
        }
    }
}

/// What a node records into its compute pass in one frame.
#[derive(Clone, Copy, Debug, PartialEq, Eq, Structural)]
pub struct Dispatch {
    pub pipeline: PipelineKind,
    pub x: u32,
    pub y: u32,
    pub z: u32,
}

/// How far along a state is: 0, 1 or 2.
pub open spec fn stage(state: NodeState) -> nat {
    match state {
        NodeState::Loading => 0,
        NodeState::Init => 1,
        NodeState::Update => 2,
    }
}

/// The pipeline a node polls in a state, if any.
pub open spec fn awaited(state: NodeState) -> Option<PipelineKind> {
    match state {
        NodeState::Loading => Some(PipelineKind::Init),
        NodeState::Init => Some(PipelineKind::Update),
        NodeState::Update => None,
    }
}

/// The state after one poll: a node moves on exactly when the pipeline it
/// waits for is reported ready.
pub open spec fn next_state(state: NodeState, ready: bool) -> NodeState {
    match state {
        NodeState::Loading => if ready { NodeState::Init } else { NodeState::Loading },
        NodeState::Init => if ready { NodeState::Update } else { NodeState::Init },
        NodeState::Update => NodeState::Update,
    }
}

/// The pipeline a node runs in a state, if any.
pub open spec fn running(state: NodeState) -> Option<PipelineKind> {
    match state {
        NodeState::Loading => None,
        NodeState::Init => Some(PipelineKind::Init),
        NodeState::Update => Some(PipelineKind::Update),
    }
}

/// What a node in `state` dispatches over an image of `width` by `height`
/// pixels: one workgroup per whole `workgroup` by `workgroup` tile.
pub open spec fn dispatch_of(state: NodeState, width: u32, height: u32, workgroup: u32) -> Option<Dispatch> {
    match running(state) {
        None => None,
        Some(pipeline) => Some(Dispatch {
            pipeline,
            x: (width / workgroup) as u32,
            y: (height / workgroup) as u32,
            z: 1,
        }),
    }
}

/// The state reached from `state` after a run of poll answers, oldest first.
pub open spec fn after_polls(state: NodeState, answers: Seq<bool>) -> NodeState
    decreases answers.len(),
{
    if answers.len() == 0 {
        state
    } else {
        next_state(after_polls(state, answers.drop_last()), answers.last())
    }
}

/// How many answers in a run said "ready".
pub open spec fn ready_count(answers: Seq<bool>) -> nat
    decreases answers.len(),
{
    if answers.len() == 0 {
        0
    } else {
        ready_count(answers.drop_last()) + if answers.last() { 1nat } else { 0nat }
    }
}

/// A render-graph node that runs a compute shader over an image, first its
/// `init` entry point, then its `update` entry point.
pub struct PipelineNode {
    pub state: NodeState,
}

impl PipelineNode {
    /// A node that has not seen any pipeline compile yet.
    pub fn new() -> (node: Self)
        ensures
            node.state == NodeState::Loading,
    {
        PipelineNode { state: NodeState::Loading }
    }

    /// The pipeline whose readiness the node must be told about this frame;
    /// `None` once both are ready.
    pub fn awaited_pipeline(&self) -> (pipeline: Option<PipelineKind>)
        ensures
            pipeline == awaited(self.state),
    {
        match self.state {
            NodeState::Loading => Some(PipelineKind::Init),
            NodeState::Init => Some(PipelineKind::Update),
            NodeState::Update => None,
        }
    }

    /// Takes the answer of the pipeline cache about the awaited pipeline
    /// (whether it compiled) and moves the node on when it did.
    pub fn update(&mut self, awaited_ready: bool)
        ensures
            final(self).state == next_state(old(self).state, awaited_ready),
    {
        match self.state {
            NodeState::Loading => {
                if awaited_ready {
                    self.state = NodeState::Init;
                }
            },
            NodeState::Init => {
                if awaited_ready {
                    self.state = NodeState::Update;
                }
            },
            NodeState::Update => {},
        }
    }

    /// What to record into the compute pass over an image of `width` by
    /// `height` pixels with square workgroups of side `workgroup`: nothing
    /// while loading, else the running pipeline over the whole tiles.
    pub fn dispatch(&self, width: u32, height: u32, workgroup: u32) -> (d: Option<Dispatch>)
        requires
            workgroup > 0,
        ensures
            d == dispatch_of(self.state, width, height, workgroup),
    {
        match self.state {
            NodeState::Loading => None,
            NodeState::Init => Some(
                Dispatch { pipeline: PipelineKind::Init, x: width / workgroup, y: height / workgroup, z: 1 },
            ),
            NodeState::Update => Some(
                Dispatch {
                    pipeline: PipelineKind::Update,
                    x: width / workgroup,
                    y: height / workgroup,
                    z: 1,
                },
            ),
        }
    }
}

impl Default for PipelineNode {
    fn default() -> (node: Self)
        ensures
            node.state == NodeState::Loading,
    {
        PipelineNode::new()
    }
}

/// A node never goes back, never skips a stage, and moves on only when the
/// awaited pipeline is reported ready; once both pipelines run it stays put.
pub proof fn lemma_one_poll(state: NodeState, ready: bool)
    ensures
        stage(state) <= stage(next_state(state, ready)) <= stage(state) + 1,
        stage(next_state(state, ready)) == stage(state) + 1 <==> (ready && state != NodeState::Update),
        state == NodeState::Update ==> next_state(state, ready) == NodeState::Update,
{
}

/// After any run of poll answers, a node has advanced by exactly the number of
/// "ready" answers, stopping at the last stage.
pub proof fn lemma_polls_count(state: NodeState, answers: Seq<bool>)
    ensures
        stage(after_polls(state, answers)) == if stage(state) + ready_count(answers) <= 2 {
            stage(state) + ready_count(answers)
        } else {
            2
        },
    decreases answers.len(),
{
    if answers.len() > 0 {
        lemma_polls_count(state, answers.drop_last());
    }
}

/// A fresh node runs a pipeline only after one "ready" answer, and the
/// `update` pipeline only after two.
pub proof fn lemma_runs_only_when_ready(answers: Seq<bool>)
    ensures
        running(after_polls(NodeState::Loading, answers)) is Some ==> ready_count(answers) >= 1,
        running(after_polls(NodeState::Loading, answers)) == Some(PipelineKind::Update) ==> ready_count(
            answers,
        ) >= 2,
        ready_count(answers) >= 2 ==> after_polls(NodeState::Loading, answers) == NodeState::Update,
{
    lemma_polls_count(NodeState::Loading, answers);
}

/// The pipeline a node runs right after it moves on is the one it was waiting
/// for and was told is ready.
pub proof fn lemma_runs_what_it_awaited(state: NodeState, ready: bool)
    ensures
        next_state(state, ready) != state ==> running(next_state(state, ready)) == awaited(state),
{
}

/// The state of a fresh node after the first `k` poll answers of a run: the
/// state in which it records the frame whose poll was answer `k - 1`.
pub open spec fn frame_state(answers: Seq<bool>, k: int) -> NodeState {
    after_polls(NodeState::Loading, answers.take(k))
}

/// One more answer moves the frame state by one poll.
proof fn lemma_frame_step(answers: Seq<bool>, k: int)
    requires
        0 < k <= answers.len(),
    ensures
        frame_state(answers, k) == next_state(frame_state(answers, k - 1), answers[k - 1]),
{
    assert(answers.take(k).drop_last() =~= answers.take(k - 1));
}

/// Over a run of frames, a fresh node's first dispatch runs the `init`
/// pipeline, and it runs the `update` pipeline only in a frame after one that
/// ran `init`.
pub proof fn lemma_frame_order(answers: Seq<bool>, k: int)
    requires
        0 <= k <= answers.len(),
    ensures
        running(frame_state(answers, k)) == Some(PipelineKind::Update) ==> exists|j: int|
            0 <= j < k && running(#[trigger] frame_state(answers, j)) == Some(PipelineKind::Init),
        (running(frame_state(answers, k)) is Some && forall|j: int|
            0 <= j < k ==> running(#[trigger] frame_state(answers, j)) is None) ==> running(
            frame_state(answers, k),
        ) == Some(PipelineKind::Init),
    decreases k,
{
    if k == 0 {
        assert(answers.take(0).len() == 0);
    } else {
        lemma_frame_step(answers, k);
        lemma_frame_order(answers, k - 1);
        let previous = frame_state(answers, k - 1);
        if running(frame_state(answers, k)) == Some(PipelineKind::Update) {
            if previous == NodeState::Init {
                assert(running(frame_state(answers, k - 1)) == Some(PipelineKind::Init));
            }
        }
        if running(frame_state(answers, k)) is Some && forall|j: int|
            0 <= j < k ==> running(#[trigger] frame_state(answers, j)) is None {
            assert(running(frame_state(answers, k - 1)) is None);
        }
    }
}

/// The workgroups of a dispatch stay inside the image and leave less than one
/// workgroup of pixels uncovered along each side.
pub proof fn lemma_dispatch_covers(state: NodeState, width: u32, height: u32, workgroup: u32)
    requires
        workgroup > 0,
    ensures
        dispatch_of(state, width, height, workgroup) matches Some(d) ==> {
            &&& d.z == 1
            &&& d.x * workgroup <= width < (d.x + 1) * workgroup
            &&& d.y * workgroup <= height < (d.y + 1) * workgroup
        },
{
    let w = width as int;
    let h = height as int;
    let g = workgroup as int;
    assert((w / g) * g <= w < (w / g + 1) * g) by (nonlinear_arith)
        requires
            g > 0,
            w >= 0,
    {
        vstd::arithmetic::div_mod::lemma_fundamental_div_mod(w, g);
    }
    assert((h / g) * g <= h < (h / g + 1) * g) by (nonlinear_arith)
        requires
            g > 0,
            h >= 0,
    {
        vstd::arithmetic::div_mod::lemma_fundamental_div_mod(h, g);
    }
}

} // verus!
