use delve::domain::{
    can_attach_child, is_valid_status_transition, validate_parent_child, ArtifactKind, NodeId,
    NodeKind, NodeStatus, SessionId, SessionNode, SessionState, SessionTree, ValidationError,
};
use delve::model::{Node, Session};

fn node(id: &str, kind: NodeKind, parent_id: Option<&str>, children: &[&str]) -> SessionNode {
    SessionNode {
        id: NodeId::from(id),
        label: id.to_string(),
        kind,
        artifact_kind: if kind == NodeKind::Artifact {
            Some(ArtifactKind::Implementation)
        } else {
            None
        },
        status: NodeStatus::Proposed,
        parent_id: parent_id.map(NodeId::from),
        children_ids: children.iter().map(|child| NodeId::from(*child)).collect(),
        input_node_ids: Vec::new(),
        payload_ref: None,
    }
}

fn valid_session_tree() -> SessionTree {
    SessionTree {
        schema_version: 1,
        session_id: SessionId::from("session-1"),
        intent_node_id: NodeId::from("intent-1"),
        current_node_id: NodeId::from("prompt-2"),
        state: SessionState::Active,
        nodes: vec![
            node("intent-1", NodeKind::Intent, None, &["prompt-1"]),
            node("prompt-1", NodeKind::Prompt, Some("intent-1"), &["prompt-2", "artifact-1"]),
            node("prompt-2", NodeKind::Prompt, Some("prompt-1"), &[]),
            node("artifact-1", NodeKind::Artifact, Some("prompt-1"), &[]),
        ],
    }
}

fn node_mut<'a>(session: &'a mut SessionTree, id: &str) -> Option<&'a mut SessionNode> {
    session.nodes.iter_mut().find(|node| node.id.as_str() == id)
}

#[test]
fn allows_prompt_to_prompt_children() {
    assert!(can_attach_child(NodeKind::Prompt, NodeKind::Prompt));
    assert!(validate_parent_child(NodeKind::Prompt, NodeKind::Prompt).is_ok());
}

#[test]
fn rejects_artifact_as_parent() {
    assert!(!can_attach_child(NodeKind::Artifact, NodeKind::Prompt));

    assert_eq!(
        validate_parent_child(NodeKind::Artifact, NodeKind::Prompt),
        Err(ValidationError::InvalidParentChild {
            parent_kind: NodeKind::Artifact,
            child_kind: NodeKind::Prompt,
        })
    );
}

#[test]
fn validates_tree_with_prompt_to_prompt_path() {
    let session = valid_session_tree();

    assert!(session.validate_tree_invariants().is_ok());
}

#[test]
fn rejects_tree_with_illegal_parent_child_link() {
    let mut session = valid_session_tree();

    {
        let prompt_2 = node_mut(&mut session, "prompt-2").expect("prompt-2 should exist");
        prompt_2.parent_id = Some(NodeId::from("artifact-1"));
    }

    {
        let artifact_1 = node_mut(&mut session, "artifact-1").expect("artifact-1 should exist");
        artifact_1.children_ids.push(NodeId::from("prompt-2"));
    }

    assert_eq!(
        session.validate_tree_invariants(),
        Err(ValidationError::InvalidParentChildLink {
            parent_id: NodeId::from("artifact-1"),
            parent_kind: NodeKind::Artifact,
            child_id: NodeId::from("prompt-2"),
            child_kind: NodeKind::Prompt,
        })
    );
}

#[test]
fn rejects_tree_with_missing_reciprocal_parent_reference() {
    let mut session = valid_session_tree();

    let intent = node_mut(&mut session, "intent-1").expect("intent should exist");
    intent.children_ids.clear();

    assert_eq!(
        session.validate_tree_invariants(),
        Err(ValidationError::ParentMissingChildReference {
            parent_id: NodeId::from("intent-1"),
            child_id: NodeId::from("prompt-1"),
        })
    );
}

#[test]
fn allows_expected_status_transitions() {
    assert!(is_valid_status_transition(NodeStatus::Proposed, NodeStatus::Accepted));
    assert!(is_valid_status_transition(NodeStatus::Accepted, NodeStatus::Superseded));
    assert!(NodeStatus::Rejected.validate_transition(NodeStatus::Rejected).is_ok());
}

#[test]
fn rejects_invalid_status_transition() {
    assert!(!is_valid_status_transition(NodeStatus::Rejected, NodeStatus::Accepted));

    assert_eq!(
        NodeStatus::Rejected.validate_transition(NodeStatus::Accepted),
        Err(ValidationError::InvalidStatusTransition {
            from: NodeStatus::Rejected,
            to: NodeStatus::Accepted,
        })
    );
    assert_eq!(
        NodeStatus::Proposed.validate_transition(NodeStatus::Superseded),
        Err(ValidationError::InvalidStatusTransition {
            from: NodeStatus::Proposed,
            to: NodeStatus::Superseded,
        })
    );
}

#[test]
fn updates_current_node_when_next_node_is_prompt() {
    let mut session = valid_session_tree();

    session
        .set_current_node(NodeId::from("prompt-1"))
        .expect("prompt nodes should be valid current nodes");

    assert_eq!(session.current_node_id, NodeId::from("prompt-1"));
}

#[test]
fn rejects_artifact_as_current_node() {
    let mut session = valid_session_tree();

    let err = session
        .set_current_node(NodeId::from("artifact-1"))
        .expect_err("artifacts should not be valid current nodes");

    assert_eq!(
        err,
        ValidationError::InvalidCurrentNodeKind {
            node_id: NodeId::from("artifact-1"),
            kind: NodeKind::Artifact,
        }
    );
}

#[test]
fn computes_active_lineage_from_intent_to_current() {
    let session = valid_session_tree();

    let lineage = session.active_lineage_node_ids().expect("lineage should be resolved");

    assert_eq!(
        lineage,
        vec![NodeId::from("intent-1"), NodeId::from("prompt-1"), NodeId::from("prompt-2")]
    );
}

#[test]
fn resolves_eligible_context_nodes_with_accepted_sibling_artifacts() {
    let mut session = valid_session_tree();

    let prompt_2 = node_mut(&mut session, "prompt-2").expect("prompt-2 should exist");
    prompt_2.parent_id = Some(NodeId::from("prompt-1"));
    prompt_2.input_node_ids.push(NodeId::from("artifact-sibling-accepted"));
    prompt_2.input_node_ids.push(NodeId::from("artifact-sibling-rejected"));

    let prompt_1 = node_mut(&mut session, "prompt-1").expect("prompt-1 should exist");
    prompt_1.children_ids.push(NodeId::from("artifact-sibling-accepted"));
    prompt_1.children_ids.push(NodeId::from("artifact-sibling-rejected"));

    let artifact_1 = node_mut(&mut session, "artifact-1").expect("artifact-1 should exist");
    artifact_1.status = NodeStatus::Accepted;

    session.nodes.push(SessionNode {
        id: NodeId::from("artifact-sibling-accepted"),
        label: String::from("artifact-sibling-accepted"),
        kind: NodeKind::Artifact,
        artifact_kind: Some(ArtifactKind::Context),
        status: NodeStatus::Accepted,
        parent_id: Some(NodeId::from("prompt-1")),
        children_ids: Vec::new(),
        input_node_ids: Vec::new(),
        payload_ref: None,
    });
    session.nodes.push(SessionNode {
        id: NodeId::from("artifact-sibling-rejected"),
        label: String::from("artifact-sibling-rejected"),
        kind: NodeKind::Artifact,
        artifact_kind: Some(ArtifactKind::Context),
        status: NodeStatus::Rejected,
        parent_id: Some(NodeId::from("prompt-1")),
        children_ids: Vec::new(),
        input_node_ids: Vec::new(),
        payload_ref: None,
    });

    let context_ids =
        session.resolve_eligible_context_node_ids().expect("eligible context should resolve");

    assert_eq!(
        context_ids,
        vec![NodeId::from("artifact-sibling-accepted"), NodeId::from("artifact-1")]
    );
}

#[test]
fn valid_prompt_chains_of_every_depth_satisfy_invariants() {
    for depth in 1usize..8 {
        let mut session = SessionTree::new(String::from("intent"));
        session.session_id = SessionId::from("session-property");

        let mut parent_id = session.intent_node_id.clone();
        for index in 0..depth {
            let prompt_id = NodeId::from(format!("prompt-{index}"));
            let artifact_id = NodeId::from(format!("artifact-{index}"));

            let parent = session
                .nodes
                .iter_mut()
                .find(|node| node.id == parent_id)
                .expect("parent should exist");
            parent.children_ids.push(prompt_id.clone());

            session.nodes.push(SessionNode {
                id: prompt_id.clone(),
                label: format!("prompt-{index}"),
                kind: NodeKind::Prompt,
                artifact_kind: None,
                status: NodeStatus::Accepted,
                parent_id: Some(parent_id.clone()),
                children_ids: vec![artifact_id.clone()],
                input_node_ids: Vec::new(),
                payload_ref: None,
            });
            session.nodes.push(SessionNode {
                id: artifact_id,
                label: format!("artifact-{index}"),
                kind: NodeKind::Artifact,
                artifact_kind: Some(ArtifactKind::Implementation),
                status: NodeStatus::Accepted,
                parent_id: Some(prompt_id.clone()),
                children_ids: Vec::new(),
                input_node_ids: Vec::new(),
                payload_ref: None,
            });

            parent_id = prompt_id;
        }

        session.current_node_id = parent_id;
        assert!(session.validate_tree_invariants().is_ok());
    }
}

#[test]
fn new_session_tree_is_valid_and_starts_at_the_intent() {
    let session = SessionTree::new(String::from("Ship it"));
    assert!(session.validate_tree_invariants().is_ok());
    assert_eq!(session.current_node_id, session.intent_node_id);
    assert_eq!(session.nodes.len(), 1);
    assert_eq!(session.nodes[0].label, "Ship it");
    assert_eq!(session.nodes[0].kind, NodeKind::Intent);
}

#[test]
fn duplicate_node_ids_are_rejected() {
    let mut session = valid_session_tree();
    session.nodes.push(node("prompt-2", NodeKind::Prompt, Some("prompt-1"), &[]));
    assert_eq!(
        session.validate_tree_invariants(),
        Err(ValidationError::DuplicateNodeId { node_id: NodeId::from("prompt-2") })
    );
}

#[test]
fn missing_current_node_is_rejected_and_current_is_kept() {
    let mut session = valid_session_tree();
    let err = session.set_current_node(NodeId::from("nowhere")).expect_err("unknown node");
    assert_eq!(err, ValidationError::MissingCurrentNode { current_node_id: NodeId::from("nowhere") });
    assert_eq!(session.current_node_id, NodeId::from("prompt-2"));
}

#[test]
fn prompt_nodes_can_have_prompt_children() {
    assert!(Session::can_attach_child(NodeKind::Prompt, NodeKind::Prompt));
}

#[test]
fn artifact_nodes_cannot_have_children() {
    assert!(!Session::can_attach_child(NodeKind::Artifact, NodeKind::Prompt));
    assert!(!Session::can_attach_child(NodeKind::Artifact, NodeKind::Artifact));
}

#[test]
fn only_accepted_artifacts_are_eligible_context() {
    let mut n = Node {
        id: NodeId::from("artifact-1"),
        label: String::from("a"),
        kind: NodeKind::Artifact,
        status: NodeStatus::Accepted,
        artifact_kind: Some(ArtifactKind::Context),
        parent_id: None,
        children_ids: Vec::new(),
        input_node_ids: Vec::new(),
        payload_ref: None,
    };
    assert!(n.is_eligible_context());
    n.status = NodeStatus::Rejected;
    assert!(!n.is_eligible_context());
    n.status = NodeStatus::Accepted;
    n.kind = NodeKind::Prompt;
    assert!(!n.is_eligible_context());
}

#[test]
fn lineage_check_spots_parent_cycles() {
    let tree = valid_session_tree();
    assert!(tree.lineage_is_defined());

    let mut cyclic = valid_session_tree();
    cyclic.nodes[1].parent_id = Some(NodeId::from("prompt-2"));
    assert!(!cyclic.lineage_is_defined());

    let mut dangling = valid_session_tree();
    dangling.nodes[1].parent_id = Some(NodeId::from("missing"));
    assert!(dangling.lineage_is_defined());
}

#[test]
fn validation_rejects_parent_cycles_cut_off_from_the_intent() {
    let mut tree = valid_session_tree();
    tree.nodes.push(node("prompt-x", NodeKind::Prompt, Some("prompt-y"), &["prompt-y"]));
    tree.nodes.push(node("prompt-y", NodeKind::Prompt, Some("prompt-x"), &["prompt-x"]));
    assert_eq!(
        tree.validate_tree_invariants(),
        Err(ValidationError::NodeDetachedFromIntent { node_id: NodeId::from("prompt-x") })
    );
}

#[test]
fn validation_rejects_an_intent_with_a_parent() {
    let mut tree = valid_session_tree();
    tree.nodes[0].parent_id = Some(NodeId::from("prompt-2"));
    assert_eq!(
        tree.validate_tree_invariants(),
        Err(ValidationError::IntentNodeHasParent {
            node_id: NodeId::from("intent-1"),
            parent_id: NodeId::from("prompt-2"),
        })
    );
    assert_eq!(valid_session_tree().validate_tree_invariants(), Ok(()));
}
