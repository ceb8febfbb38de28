use genuary::compute_node::{Dispatch, NodeState, PipelineKind, PipelineNode, WORKGROUP_SIZE};

#[test]
fn fresh_node_is_loading() {
    assert_eq!(PipelineNode::new().state, NodeState::Loading);
    assert_eq!(PipelineNode::default().state, NodeState::Loading);
}

#[test]
fn loading_node_dispatches_nothing() {
    let node = PipelineNode::new();
    assert_eq!(node.dispatch(3840, 2160, WORKGROUP_SIZE), None);
    assert_eq!(node.awaited_pipeline(), Some(PipelineKind::Init));
}

#[test]
fn node_waits_while_pipeline_compiles() {
    let mut node = PipelineNode::new();
    node.update(false);
    node.update(false);
    assert_eq!(node.state, NodeState::Loading);
}

#[test]
fn node_runs_init_then_update() {
    let mut node = PipelineNode::new();
    node.update(true);
    assert_eq!(node.state, NodeState::Init);
    assert_eq!(node.awaited_pipeline(), Some(PipelineKind::Update));
    assert_eq!(
        node.dispatch(3840, 2160, WORKGROUP_SIZE),
        Some(Dispatch { pipeline: PipelineKind::Init, x: 480, y: 270, z: 1 })
    );
    node.update(false);
    assert_eq!(node.state, NodeState::Init);
    node.update(true);
    assert_eq!(node.state, NodeState::Update);
    assert_eq!(node.awaited_pipeline(), None);
    assert_eq!(
        node.dispatch(1280, 720, WORKGROUP_SIZE),
        Some(Dispatch { pipeline: PipelineKind::Update, x: 160, y: 90, z: 1 })
    );
}

#[test]
fn update_state_is_final() {
    let mut node = PipelineNode { state: NodeState::Update };
    node.update(true);
    assert_eq!(node.state, NodeState::Update);
    node.update(false);
    assert_eq!(node.state, NodeState::Update);
}

#[test]
fn node_advances_by_ready_answers() {
    // Three "ready" answers among five move a fresh node only two stages.
    let answers = [false, true, false, true, true];
    let mut node = PipelineNode::new();
    let mut stages = Vec::new();
    for a in answers {
        node.update(a);
        stages.push(node.state);
    }
    assert_eq!(
        stages,
        vec![
            NodeState::Loading,
            NodeState::Init,
            NodeState::Init,
            NodeState::Update,
            NodeState::Update
        ]
    );
}

#[test]
fn dispatch_leaves_partial_workgroups_out() {
    let node = PipelineNode { state: NodeState::Update };
    let d = node.dispatch(1285, 7, 8).unwrap();
    assert_eq!((d.x, d.y, d.z), (160, 0, 1));
    assert!(d.x * 8 <= 1285 && 1285 < (d.x + 1) * 8);
}

#[test]
fn pipelines_use_their_entry_points() {
    assert_eq!(PipelineKind::Init.entry_point(), "init");
    assert_eq!(PipelineKind::Update.entry_point(), "update");
}

#[test]
fn first_dispatch_is_init_and_update_follows_init() {
    let answers = [false, false, true, false, true, true, false];
    let mut node = PipelineNode::new();
    let mut ran = Vec::new();
    for a in answers {
        node.update(a);
        if let Some(d) = node.dispatch(1280, 720, WORKGROUP_SIZE) {
            ran.push(d.pipeline);
        }
    }
    assert_eq!(ran[0], PipelineKind::Init);
    let first_update = ran.iter().position(|p| *p == PipelineKind::Update).unwrap();
    assert!(ran[..first_update].contains(&PipelineKind::Init));
    assert_eq!(
        ran,
        vec![
            PipelineKind::Init,
            PipelineKind::Init,
            PipelineKind::Update,
            PipelineKind::Update,
            PipelineKind::Update
        ]
    );
}
