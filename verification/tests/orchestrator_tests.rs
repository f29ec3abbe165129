use delve::domain::{ArtifactKind, NodeId, NodeKind, NodeStatus, SessionId, SessionNode, SessionTree};
use delve::orchestrator::{
    build_prompt_package, generate_artifact, generate_artifact_streaming,
    generate_artifact_streaming_with_thread, generate_artifact_with_thread, pack_context,
    render_prompt_with_context, resolve_context_node_ids, review_keywords, OrchestrationError,
};
use delve::providers::{
    CompletionProvider, EchoProvider, ProviderError, ProviderKind, ProviderRequest, ProviderResponse,
};

fn session_fixture() -> SessionTree {
    let mut session = SessionTree::new(String::from("Intent"));
    session.session_id = SessionId::from("session-orchestrator");

    let intent = session
        .nodes
        .iter_mut()
        .find(|node| node.id.as_str() == "intent-root")
        .expect("intent should exist");
    intent.children_ids.push(NodeId::from("prompt-1"));

    session.nodes.push(SessionNode {
        id: NodeId::from("prompt-1"),
        label: String::from("prompt 1"),
        kind: NodeKind::Prompt,
        artifact_kind: None,
        status: NodeStatus::Accepted,
        parent_id: Some(NodeId::from("intent-root")),
        children_ids: vec![
            NodeId::from("prompt-2"),
            NodeId::from("artifact-accepted"),
            NodeId::from("artifact-sibling-accepted"),
            NodeId::from("artifact-sibling-rejected"),
        ],
        input_node_ids: Vec::new(),
        payload_ref: None,
    });

    session.nodes.push(SessionNode {
        id: NodeId::from("prompt-2"),
        label: String::from("prompt 2"),
        kind: NodeKind::Prompt,
        artifact_kind: None,
        status: NodeStatus::Accepted,
        parent_id: Some(NodeId::from("prompt-1")),
        children_ids: Vec::new(),
        input_node_ids: vec![NodeId::from("artifact-sibling-accepted")],
        payload_ref: None,
    });

    session.nodes.push(SessionNode {
        id: NodeId::from("artifact-accepted"),
        label: String::from("artifact accepted"),
        kind: NodeKind::Artifact,
        artifact_kind: Some(ArtifactKind::Implementation),
        status: NodeStatus::Accepted,
        parent_id: Some(NodeId::from("prompt-1")),
        children_ids: Vec::new(),
        input_node_ids: Vec::new(),
        payload_ref: None,
    });

    session.nodes.push(SessionNode {
        id: NodeId::from("artifact-sibling-accepted"),
        label: String::from("sibling accepted"),
        kind: NodeKind::Artifact,
        artifact_kind: Some(ArtifactKind::Context),
        status: NodeStatus::Accepted,
        parent_id: Some(NodeId::from("prompt-1")),
        children_ids: Vec::new(),
        input_node_ids: Vec::new(),
        payload_ref: None,
    });

    session.nodes.push(SessionNode {
        id: NodeId::from("artifact-sibling-rejected"),
        label: String::from("sibling rejected"),
        kind: NodeKind::Artifact,
        artifact_kind: Some(ArtifactKind::Context),
        status: NodeStatus::Rejected,
        parent_id: Some(NodeId::from("prompt-1")),
        children_ids: Vec::new(),
        input_node_ids: Vec::new(),
        payload_ref: None,
    });

    session.current_node_id = NodeId::from("prompt-2");
    session.validate_tree_invariants().expect("fixture should be valid");
    session
}

struct FailingProvider;

impl CompletionProvider for FailingProvider {
    fn generate(&self, _request: &ProviderRequest) -> Result<ProviderResponse, ProviderError> {
        Err(ProviderError::CommandExecutionFailed {
            provider: ProviderKind::Echo,
            error_message: String::from("timeout"),
        })
    }
}

#[test]
fn context_resolution_merges_inputs_with_lineage_context() {
    let session = session_fixture();

    let resolved = resolve_context_node_ids(&session, &[NodeId::from("artifact-sibling-accepted")])
        .expect("context should resolve");

    assert_eq!(
        resolved,
        vec![NodeId::from("artifact-sibling-accepted"), NodeId::from("artifact-accepted")]
    );
}

#[test]
fn context_packer_respects_budget_and_excludes_rejected_nodes() {
    let session = session_fixture();

    let package = build_prompt_package(
        &session,
        "Continue work",
        &[NodeId::from("artifact-sibling-accepted")],
        4,
    )
    .expect("prompt package should build");

    assert_eq!(package.context.entries.len(), 1);
    assert_eq!(package.context.entries[0].node_id, NodeId::from("artifact-sibling-accepted"));
    assert!(
        !package.rendered_prompt.contains("artifact-sibling-rejected"),
        "rejected artifacts should be excluded from packed context"
    );
}

#[test]
fn provider_errors_are_propagated_for_non_streaming_and_streaming() {
    let provider = FailingProvider;

    let non_streaming = generate_artifact(&provider, "prompt");
    assert!(non_streaming.is_err());

    let mut seen_chunks = String::new();
    let streaming = generate_artifact_streaming(&provider, "prompt", &mut |chunk: &str| {
        seen_chunks.push_str(chunk);
    });
    assert!(streaming.is_err());
    assert!(seen_chunks.is_empty());
}

#[test]
fn unknown_and_ineligible_inputs_are_refused() {
    let session = session_fixture();
    assert_eq!(
        resolve_context_node_ids(&session, &[NodeId::from("missing")]),
        Err(OrchestrationError::UnknownInputNode(NodeId::from("missing")))
    );
    assert_eq!(
        resolve_context_node_ids(&session, &[NodeId::from("artifact-sibling-rejected")]),
        Err(OrchestrationError::IneligibleInputNode(NodeId::from("artifact-sibling-rejected")))
    );
    assert_eq!(
        resolve_context_node_ids(&session, &[NodeId::from("prompt-1")]),
        Err(OrchestrationError::IneligibleInputNode(NodeId::from("prompt-1")))
    );
}

#[test]
fn repeated_inputs_are_resolved_once() {
    let session = session_fixture();
    let resolved = resolve_context_node_ids(
        &session,
        &[NodeId::from("artifact-accepted"), NodeId::from("artifact-accepted")],
    )
    .expect("context should resolve");
    assert_eq!(
        resolved,
        vec![NodeId::from("artifact-accepted"), NodeId::from("artifact-sibling-accepted")]
    );
}

#[test]
fn zero_budget_is_refused_and_entries_fit_the_budget() {
    let session = session_fixture();
    assert_eq!(
        pack_context(&session, &[NodeId::from("artifact-accepted")], 0),
        Err(OrchestrationError::InvalidTokenBudget)
    );
    let pack = pack_context(
        &session,
        &[NodeId::from("artifact-accepted"), NodeId::from("artifact-sibling-accepted")],
        64,
    )
    .expect("pack should build");
    assert_eq!(pack.entries.len(), 2);
    assert_eq!(pack.entries[0].text, "[artifact-accepted] artifact accepted");
    assert_eq!(pack.entries[0].estimated_tokens, 3);
    assert_eq!(pack.used_tokens, 6);
    assert_eq!(
        pack_context(&session, &[NodeId::from("missing")], 64),
        Err(OrchestrationError::UnknownInputNode(NodeId::from("missing")))
    );
}

#[test]
fn rendered_prompt_lists_context_before_the_prompt() {
    let session = session_fixture();
    let pack = pack_context(&session, &[NodeId::from("artifact-accepted")], 64).expect("pack");
    assert_eq!(
        render_prompt_with_context("Go", &pack),
        "Context:\n- [artifact-accepted] artifact accepted\n\nPrompt:\nGo"
    );
    let empty = pack_context(&session, &[], 64).expect("pack");
    assert_eq!(render_prompt_with_context("Go", &empty), "Go");
}

#[test]
fn echo_generation_wraps_the_prompt_with_and_without_thread() {
    let plain = generate_artifact(&EchoProvider, "hi").expect("echo");
    assert_eq!(plain.output, "echo:hi");
    assert_eq!(plain.thread_id, None);
    let threaded = generate_artifact_with_thread(&EchoProvider, "hi", "thread-9").expect("echo");
    assert_eq!(threaded.thread_id.as_deref(), Some("thread-9"));
    let mut seen = String::new();
    let streamed = generate_artifact_streaming_with_thread(&EchoProvider, "hi", "t", &mut |c: &str| {
        seen.push_str(c)
    })
    .expect("echo");
    assert_eq!(streamed.output, "echo:hi");
    assert_eq!(seen, "echo:hi");
}

#[test]
fn keyword_review_lowercases_both_sides() {
    let review = review_keywords(
        &vec![String::from("CLI"), String::from("tests"), String::from("docs")],
        "This artifact adds cli behavior and Tests.",
    );
    assert_eq!(review.matched_keywords, vec![String::from("CLI"), String::from("tests")]);
    assert_eq!(review.missing_keywords, vec![String::from("docs")]);
}

struct MockProvider {
    output: String,
}

impl CompletionProvider for MockProvider {
    fn generate(&self, _request: &ProviderRequest) -> Result<ProviderResponse, ProviderError> {
        Ok(ProviderResponse { output: self.output.clone(), thread_id: None })
    }
}

#[test]
fn mock_provider_flow_builds_prompt_package_and_matches_keywords() {
    let session = session_fixture();
    let package = build_prompt_package(
        &session,
        "Create implementation artifact",
        &[NodeId::from("artifact-sibling-accepted")],
        64,
    )
    .expect("prompt package should build");
    assert!(package.rendered_prompt.ends_with("Create implementation artifact"));

    let provider = MockProvider { output: String::from("Implemented cli tests and updated docs") };
    let response = generate_artifact(&provider, &package.rendered_prompt).expect("provider should succeed");
    assert_eq!(response.output, "Implemented cli tests and updated docs");

    let review = review_keywords(&vec![String::from("cli"), String::from("tests")], &response.output);
    assert!(review.missing_keywords.is_empty());
    assert_eq!(review.matched_keywords.len(), 2);
}
