use delve::cli::AppError;
use delve::domain::{NodeId, NodeKind, NodeStatus, SessionId, SessionState, SessionTree};
use delve::workflow::{
    append_generated_prompt_and_artifact, apply_artifact_status_change, apply_review_outcome,
    artifact_payload_path, find_artifact_in_session, find_artifact_index,
    locate_artifact_in_sessions, prompt_payload_path, sort_summaries_by_id_desc, summarize_session,
    supersede_sibling_accepted_artifacts,
};

fn session_with_generations(n: usize) -> SessionTree {
    let mut session = SessionTree::new(String::from("Intent"));
    for i in 0..n {
        let parent = session.current_node_id.clone();
        let generated = append_generated_prompt_and_artifact(
            &mut session,
            &parent,
            NodeId::from(format!("prompt-{i}")),
            NodeId::from(format!("artifact-{i}")),
            format!("prompt label {i}"),
            format!("artifact label {i}"),
        )
        .expect("parent exists");
        session.current_node_id = generated.prompt_node_id.clone();
    }
    session
}

#[test]
fn generation_appends_prompt_and_artifact_and_stays_valid() {
    let session = session_with_generations(3);
    assert!(session.validate_tree_invariants().is_ok());
    assert_eq!(session.nodes.len(), 7);
    assert_eq!(session.current_node_id, NodeId::from("prompt-2"));
    let prompt = &session.nodes[5];
    assert_eq!(prompt.kind, NodeKind::Prompt);
    assert_eq!(prompt.status, NodeStatus::Accepted);
    assert_eq!(prompt.parent_id, Some(NodeId::from("prompt-1")));
    assert_eq!(prompt.payload_ref.as_deref(), Some("prompts/prompt-2/prompt.md"));
    let artifact = &session.nodes[6];
    assert_eq!(artifact.status, NodeStatus::Proposed);
    assert_eq!(
        artifact.payload_ref.as_deref(),
        Some("prompts/prompt-2/artifacts/artifact-2.md")
    );
    assert_eq!(session.nodes[3].children_ids, vec![NodeId::from("artifact-1"), NodeId::from("prompt-2")]);
}

#[test]
fn generation_under_an_unknown_parent_changes_nothing() {
    let mut session = SessionTree::new(String::from("Intent"));
    let err = append_generated_prompt_and_artifact(
        &mut session,
        &NodeId::from("ghost"),
        NodeId::from("p"),
        NodeId::from("a"),
        String::from("p"),
        String::from("a"),
    )
    .unwrap_err();
    assert!(matches!(&err, AppError::NotFound(m) if m == "current node 'ghost' not found"));
    assert_eq!(session.nodes.len(), 1);
    assert!(session.nodes[0].children_ids.is_empty());
}

#[test]
fn payload_paths() {
    assert_eq!(prompt_payload_path(&NodeId::from("p1")), "prompts/p1/prompt.md");
    assert_eq!(
        artifact_payload_path(&NodeId::from("p1"), &NodeId::from("a1")),
        "prompts/p1/artifacts/a1.md"
    );
}

fn session_with_three_artifacts() -> SessionTree {
    let mut session = session_with_generations(1);
    let parent = NodeId::from("intent-root");
    session.current_node_id = parent.clone();
    // Two more generations under the intent, then move their artifacts under prompt-0.
    for i in 1..3 {
        append_generated_prompt_and_artifact(
            &mut session,
            &NodeId::from("prompt-0"),
            NodeId::from(format!("prompt-{i}")),
            NodeId::from(format!("artifact-{i}")),
            format!("p{i}"),
            format!("a{i}"),
        )
        .expect("prompt-0 exists");
    }
    session
}

#[test]
fn accepting_supersedes_accepted_siblings_only() {
    let mut session = session_with_generations(1);
    // A second artifact under prompt-0.
    session.nodes[1].children_ids.push(NodeId::from("artifact-x"));
    let mut extra = session.nodes[2].clone();
    extra.id = NodeId::from("artifact-x");
    extra.status = NodeStatus::Accepted;
    session.nodes.push(extra);
    assert!(session.validate_tree_invariants().is_ok());

    let change = apply_artifact_status_change(&mut session, &NodeId::from("artifact-0"), NodeStatus::Accepted)
        .expect("proposed artifacts can be accepted");
    assert_eq!(change.previous_status, NodeStatus::Proposed);
    assert_eq!(change.artifact_index, 2);
    assert_eq!(change.superseded, vec![NodeId::from("artifact-x")]);
    assert_eq!(session.nodes[2].status, NodeStatus::Accepted);
    assert_eq!(session.nodes[3].status, NodeStatus::Superseded);
    assert!(session.validate_tree_invariants().is_ok());
}

#[test]
fn refused_status_changes_leave_the_session_alone() {
    let mut session = session_with_three_artifacts();
    let err = apply_artifact_status_change(&mut session, &NodeId::from("artifact-9"), NodeStatus::Rejected)
        .unwrap_err();
    assert!(matches!(&err, AppError::NotFound(m) if m == "artifact status update: artifact 'artifact-9' not found"));

    apply_artifact_status_change(&mut session, &NodeId::from("artifact-1"), NodeStatus::Rejected)
        .expect("reject");
    let err = apply_artifact_status_change(&mut session, &NodeId::from("artifact-1"), NodeStatus::Accepted)
        .unwrap_err();
    assert!(matches!(&err, AppError::InvalidState(m)
        if m == "invalid artifact transition: InvalidStatusTransition { from: Rejected, to: Accepted }"));
    let idx = find_artifact_index(&session, &NodeId::from("artifact-1")).unwrap();
    assert_eq!(session.nodes[idx].status, NodeStatus::Rejected);
    // Prompts are not artifacts.
    assert_eq!(find_artifact_index(&session, &NodeId::from("prompt-1")), None);
}

#[test]
fn superseding_needs_a_parent() {
    let mut session = session_with_generations(1);
    session.nodes[2].parent_id = None;
    let err = supersede_sibling_accepted_artifacts(&mut session, 2).unwrap_err();
    assert!(matches!(&err, AppError::InvalidState(m) if m == "artifact 'artifact-0' is missing a parent prompt"));
}

#[test]
fn review_outcomes_set_accepted_or_rejected() {
    let mut session = session_with_generations(2);
    assert_eq!(apply_review_outcome(&mut session, &NodeId::from("artifact-1"), false), Ok(4));
    assert_eq!(session.nodes[4].status, NodeStatus::Rejected);
    assert_eq!(apply_review_outcome(&mut session, &NodeId::from("artifact-0"), true), Ok(2));
    assert_eq!(session.nodes[2].status, NodeStatus::Accepted);
    let err = apply_review_outcome(&mut session, &NodeId::from("x"), true).unwrap_err();
    assert!(matches!(&err, AppError::NotFound(m) if m == "generated artifact 'x' missing from session"));
}

#[test]
fn artifacts_are_located_in_exactly_one_session() {
    let mut a = session_with_generations(1);
    a.session_id = SessionId::from("session-a");
    let mut b = session_with_generations(2);
    b.session_id = SessionId::from("session-b");
    let sessions = vec![a, b];
    assert_eq!(
        locate_artifact_in_sessions(&sessions, &NodeId::from("artifact-1"), "artifact show"),
        Ok((1, 4))
    );
    let conflict =
        locate_artifact_in_sessions(&sessions, &NodeId::from("artifact-0"), "artifact show").unwrap_err();
    assert!(matches!(&conflict, AppError::Conflict(m) if m ==
        "artifact show: artifact 'artifact-0' exists in multiple sessions ('session-a' and 'session-b'); rerun with --session"));
    let missing =
        locate_artifact_in_sessions(&sessions, &NodeId::from("artifact-7"), "artifact show").unwrap_err();
    assert!(matches!(&missing, AppError::NotFound(m) if m == "artifact show: artifact 'artifact-7' not found"));
    let missing = find_artifact_in_session(&sessions[0], &NodeId::from("artifact-1"), "session-a", "artifact show")
        .unwrap_err();
    assert!(matches!(&missing, AppError::NotFound(m) if m ==
        "artifact show: artifact 'artifact-1' not found in session 'session-a'"));
    assert_eq!(
        find_artifact_in_session(&sessions[1], &NodeId::from("artifact-1"), "session-b", "artifact show"),
        Ok(4)
    );
}

#[test]
fn summaries_are_listed_by_id_descending() {
    let mut older = SessionTree::new(String::from("Older intent"));
    older.session_id = SessionId::from("session-100");
    older.state = SessionState::Completed;
    let mut newer = SessionTree::new(String::from("Newer intent"));
    newer.session_id = SessionId::from("session-200");
    let mut middle = SessionTree::new(String::from("Middle"));
    middle.session_id = SessionId::from("session-150");
    middle.nodes.clear();

    let summaries = vec![
        summarize_session(&older, "t1"),
        summarize_session(&newer, "t2"),
        summarize_session(&middle, "t3"),
    ];
    let sorted = sort_summaries_by_id_desc(summaries);
    let ids: Vec<&str> = sorted.iter().map(|s| s.session_id.as_str()).collect();
    assert_eq!(ids, vec!["session-200", "session-150", "session-100"]);
    assert_eq!(sorted[0].intent_label, "Newer intent");
    assert_eq!(sorted[1].intent_label, "<missing intent node>");
    assert_eq!(sorted[2].state, SessionState::Completed);
    assert_eq!(sorted[2].thread_id, "t1");
    assert_eq!(sorted[2].node_count, 1);
}

#[test]
fn summaries_with_equal_ids_keep_their_order() {
    let mut a = SessionTree::new(String::from("A"));
    a.session_id = SessionId::from("session-1");
    let mut b = SessionTree::new(String::from("B"));
    b.session_id = SessionId::from("session-2");
    let summaries = vec![
        summarize_session(&a, "first"),
        summarize_session(&b, "middle"),
        summarize_session(&a, "second"),
        summarize_session(&a, "third"),
    ];
    let sorted = sort_summaries_by_id_desc(summaries);
    let threads: Vec<&str> = sorted.iter().map(|s| s.thread_id.as_str()).collect();
    assert_eq!(threads, vec!["middle", "first", "second", "third"]);
}
