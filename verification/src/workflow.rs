//! The session operations behind the commands: recording a generated prompt
//! with its artifact, accepting or rejecting artifacts (superseding accepted
//! siblings), locating artifacts across sessions, and recording reviews.
use vstd::prelude::*;

use crate::cli::AppError;
use crate::domain::{
    first_index_of, ids_view, last_index_of, lemma_first_index_of, lemma_last_index_of,
    nodes_view, status_transition_allowed, tree_is_valid, ArtifactKind, NodeId, NodeKind,
    NodeStatus, SessionNode, SessionNodeView, SessionState, SessionTree, SessionTreeView,
};
use crate::orchestrator::find_node_index;
use crate::text::{append_str, chars_of, chars_lt, lemma_lex_trichotomy, lex_lt};
use crate::tree_laws::{
    artifact_node_view, attach_nodes, lemma_attach_keeps_tree_valid,
    lemma_tree_error_ignores_artifact_statuses, lemma_unique_lookup, prompt_node_view,
    statuses_of_artifacts_differ,
};

verus! {

// ---------------------------------------------------------------------------
// Recording a generation
// ---------------------------------------------------------------------------

/// Where a prompt's text is kept, relative to the session folder.
pub open spec fn prompt_payload_rel(prompt_id: Seq<char>) -> Seq<char> {
    "prompts/"@ + prompt_id + "/prompt.md"@
}

/// Where an artifact's text is kept, relative to the session folder.
pub open spec fn artifact_payload_rel(prompt_id: Seq<char>, artifact_id: Seq<char>) -> Seq<char> {
    "prompts/"@ + prompt_id + "/artifacts/"@ + artifact_id + ".md"@
}

/// The relative path of the prompt text of `prompt_id`.
pub fn prompt_payload_path(prompt_id: &NodeId) -> (r: String)
    ensures
        r@ == prompt_payload_rel(prompt_id@),
{
    let mut r = "prompts/".to_owned();
    append_str(&mut r, prompt_id.as_str());
    append_str(&mut r, "/prompt.md");
    r
}

/// The relative path of the text of artifact `artifact_id` under `prompt_id`.
pub fn artifact_payload_path(prompt_id: &NodeId, artifact_id: &NodeId) -> (r: String)
    ensures
        r@ == artifact_payload_rel(prompt_id@, artifact_id@),
{
    let mut r = "prompts/".to_owned();
    append_str(&mut r, prompt_id.as_str());
    append_str(&mut r, "/artifacts/");
    append_str(&mut r, artifact_id.as_str());
    append_str(&mut r, ".md");
    r
}

/// The nodes that one generation added.
#[derive(Debug)]
pub struct GeneratedNodes {
    pub prompt_node_id: NodeId,
    pub artifact_node_id: NodeId,
    pub artifact_file_rel: String,
}

/// The session after a generation under the node at position `pi`: that node
/// lists the new prompt as its last child; the accepted prompt, holding the
/// proposed implementation artifact, and the artifact are appended.
pub open spec fn generation_outcome(
    t: SessionTreeView,
    pi: int,
    pid: Seq<char>,
    aid: Seq<char>,
    plabel: Seq<char>,
    alabel: Seq<char>,
) -> SessionTreeView {
    SessionTreeView {
        nodes: attach_nodes(
            t.nodes,
            pi,
            prompt_node_view(pid, plabel, t.nodes[pi].id, aid, prompt_payload_rel(pid)),
            artifact_node_view(aid, alabel, pid, artifact_payload_rel(pid, aid)),
        ),
        ..t
    }
}

/// Records a generation under `parent_node_id` (the first node with that
/// identifier): the parent gains the prompt as a child, and the prompt and
/// its artifact are appended. Without such a node nothing changes and the
/// error is `NotFound`.
pub fn append_generated_prompt_and_artifact(
    session: &mut SessionTree,
    parent_node_id: &NodeId,
    prompt_node_id: NodeId,
    artifact_node_id: NodeId,
    prompt_label: String,
    artifact_label: String,
) -> (r: Result<GeneratedNodes, AppError>)
    ensures
        first_index_of(old(session)@.nodes, parent_node_id@) < 0 ==> (r matches Err(
            AppError::NotFound(m),
        ) && m@ == "current node '"@ + parent_node_id@ + "' not found"@ && final(session)@ == old(
            session,
        )@),
        first_index_of(old(session)@.nodes, parent_node_id@) >= 0 ==> (r matches Ok(g)
            && g.prompt_node_id@ == prompt_node_id@ && g.artifact_node_id@ == artifact_node_id@
            && g.artifact_file_rel@ == artifact_payload_rel(prompt_node_id@, artifact_node_id@)
            && final(session)@ == generation_outcome(
            old(session)@,
            first_index_of(old(session)@.nodes, parent_node_id@),
            prompt_node_id@,
            artifact_node_id@,
            prompt_label@,
            artifact_label@,
        )),
{
    let ghost t0 = session@;
    let pi = match find_node_index(session, parent_node_id) {
        Some(i) => i,
        None => {
            let mut m = "current node '".to_owned();
            append_str(&mut m, parent_node_id.as_str());
            append_str(&mut m, "' not found");
            return Err(AppError::NotFound(m));
        },
    };
    let prompt_file_rel = prompt_payload_path(&prompt_node_id);
    let artifact_file_rel = artifact_payload_path(&prompt_node_id, &artifact_node_id);
    let artifact_file_copy = artifact_payload_path(&prompt_node_id, &artifact_node_id);

    let ghost before = session.nodes@;
    let mut parent = session.nodes.remove(pi);
    let ghost old_children = parent.children_ids@;
    parent.children_ids.push(prompt_node_id.duplicate());
    proof {
        assert(ids_view(parent.children_ids@) =~= ids_view(old_children).push(prompt_node_id@));
        assert(parent@ =~= SessionNodeView {
            children_ids: t0.nodes[pi as int].children_ids.push(prompt_node_id@),
            ..t0.nodes[pi as int]
        });
    }
    session.nodes.insert(pi, parent);
    proof {
        assert(session.nodes@ =~= before.update(pi as int, session.nodes@[pi as int]));
    }

    let mut prompt_children: Vec<NodeId> = Vec::new();
    prompt_children.push(artifact_node_id.duplicate());
    let prompt_node = SessionNode {
        id: prompt_node_id.duplicate(),
        label: prompt_label,
        kind: NodeKind::Prompt,
        artifact_kind: None,
        status: NodeStatus::Accepted,
        parent_id: Some(parent_node_id.duplicate()),
        children_ids: prompt_children,
        input_node_ids: Vec::new(),
        payload_ref: Some(prompt_file_rel),
    };
    let artifact_node = SessionNode {
        id: artifact_node_id.duplicate(),
        label: artifact_label,
        kind: NodeKind::Artifact,
        artifact_kind: Some(ArtifactKind::Implementation),
        status: NodeStatus::Proposed,
        parent_id: Some(prompt_node_id.duplicate()),
        children_ids: Vec::new(),
        input_node_ids: Vec::new(),
        payload_ref: Some(artifact_file_copy),
    };
    session.nodes.push(prompt_node);
    session.nodes.push(artifact_node);
    proof {
        let pid = prompt_node_id@;
        let aid = artifact_node_id@;
        let p = prompt_node_view(pid, prompt_label@, t0.nodes[pi as int].id, aid, prompt_payload_rel(pid));
        let a = artifact_node_view(aid, artifact_label@, pid, artifact_payload_rel(pid, aid));
        let pn = session.nodes@[session.nodes@.len() - 2];
        let an = session.nodes@[session.nodes@.len() - 1];
        assert(ids_view(pn.children_ids@) =~= seq![aid]);
        assert(ids_view(pn.input_node_ids@) =~= Seq::<Seq<char>>::empty());
        assert(ids_view(an.children_ids@) =~= Seq::<Seq<char>>::empty());
        assert(ids_view(an.input_node_ids@) =~= Seq::<Seq<char>>::empty());
        assert(pn@ =~= p);
        assert(an@ =~= a);
        assert(nodes_view(session.nodes@) =~= attach_nodes(t0.nodes, pi as int, p, a));
    }
    Ok(
        GeneratedNodes {
            prompt_node_id,
            artifact_node_id,
            artifact_file_rel,
        },
    )
}

// ---------------------------------------------------------------------------
// Finding artifacts
// ---------------------------------------------------------------------------

/// Whether the node is the artifact named `id`.
pub open spec fn is_artifact_named(n: SessionNodeView, id: Seq<char>) -> bool {
    n.id == id && n.kind == NodeKind::Artifact
}

/// Whether the session holds an artifact named `id`.
pub open spec fn holds_artifact(t: SessionTreeView, id: Seq<char>) -> bool {
    exists|j: int| 0 <= j < t.nodes.len() && is_artifact_named(#[trigger] t.nodes[j], id)
}

/// The position of the first artifact named `artifact_id`, if any.
pub fn find_artifact_index(session: &SessionTree, artifact_id: &NodeId) -> (r: Option<usize>)
    ensures
        match r {
            Some(i) => i < session.nodes.len() && is_artifact_named(
                session@.nodes[i as int],
                artifact_id@,
            ) && forall|j: int|
                0 <= j < i ==> !is_artifact_named(#[trigger] session@.nodes[j], artifact_id@),
            None => !holds_artifact(session@, artifact_id@),
        },
{
    let mut i: usize = 0;
    while i < session.nodes.len()
        invariant
            i <= session.nodes.len(),
            forall|j: int| 0 <= j < i ==> !is_artifact_named(#[trigger] session@.nodes[j], artifact_id@),
        decreases session.nodes.len() - i,
    {
        assert(session@.nodes[i as int] == session.nodes@[i as int]@);
        if session.nodes[i].id == *artifact_id && session.nodes[i].kind == NodeKind::Artifact {
            return Some(i);
        }
        i = i + 1;
    }
    None
}

// ---------------------------------------------------------------------------
// Artifact status changes
// ---------------------------------------------------------------------------

/// Whether accepting artifact `target` under prompt `parent` supersedes node
/// `n`: another accepted artifact of the same prompt.
pub open spec fn supersedes(n: SessionNodeView, target: Seq<char>, parent: Seq<char>) -> bool {
    n.id != target && n.kind == NodeKind::Artifact && n.parent_id == Some(parent) && n.status
        == NodeStatus::Accepted
}

/// The node after superseding: its status is `Superseded`, the rest is kept.
pub open spec fn superseded_node(n: SessionNodeView) -> SessionNodeView {
    SessionNodeView { status: NodeStatus::Superseded, ..n }
}

/// The nodes after superseding the accepted siblings of `target` under `parent`.
pub open spec fn supersede_all(
    ns: Seq<SessionNodeView>,
    target: Seq<char>,
    parent: Seq<char>,
) -> Seq<SessionNodeView> {
    ns.map_values(
        |n: SessionNodeView|
            if supersedes(n, target, parent) {
                superseded_node(n)
            } else {
                n
            },
    )
}

/// The identifiers of the nodes that are superseded, in order.
pub open spec fn superseded_ids(ns: Seq<SessionNodeView>, target: Seq<char>, parent: Seq<char>) -> Seq<
    Seq<char>,
>
    decreases ns.len(),
{
    if ns.len() == 0 {
        seq![]
    } else {
        let rest = superseded_ids(ns.drop_last(), target, parent);
        if supersedes(ns.last(), target, parent) {
            rest.push(ns.last().id)
        } else {
            rest
        }
    }
}

/// Superseding for an accepted artifact touches only its siblings: a node
/// under another parent, and the artifact itself, stay exactly as they were;
/// a node that changes was an accepted artifact under the same prompt and
/// becomes superseded, with nothing else about it changed; and every such
/// sibling is superseded.
pub proof fn law_superseding_touches_only_siblings(
    ns: Seq<SessionNodeView>,
    target: Seq<char>,
    parent: Seq<char>,
)
    ensures
        supersede_all(ns, target, parent).len() == ns.len(),
        forall|j: int|
            0 <= j < ns.len() && (ns[j].parent_id != Some(parent) || ns[j].id == target) ==> #[trigger] supersede_all(
                ns,
                target,
                parent,
            )[j] == ns[j],
        forall|j: int|
            0 <= j < ns.len() && #[trigger] supersede_all(ns, target, parent)[j] != ns[j] ==> ns[j].kind
                == NodeKind::Artifact && ns[j].parent_id == Some(parent) && ns[j].id != target
                && ns[j].status == NodeStatus::Accepted && supersede_all(ns, target, parent)[j]
                == (SessionNodeView { status: NodeStatus::Superseded, ..ns[j] }),
        forall|j: int|
            0 <= j < ns.len() && ns[j].kind == NodeKind::Artifact && ns[j].parent_id == Some(parent)
                && ns[j].id != target && ns[j].status == NodeStatus::Accepted ==> (#[trigger] supersede_all(
                ns,
                target,
                parent,
            )[j]).status == NodeStatus::Superseded,
{
}

/// Supersedes the other accepted artifacts of the prompt that the artifact at
/// `artifact_node_index` belongs to, and returns their identifiers in order.
/// An artifact without a parent is an `InvalidState` error, and nothing changes.
pub fn supersede_sibling_accepted_artifacts(
    session: &mut SessionTree,
    artifact_node_index: usize,
) -> (r: Result<Vec<NodeId>, AppError>)
    requires
        artifact_node_index < old(session).nodes.len(),
    ensures
        match old(session)@.nodes[artifact_node_index as int].parent_id {
            None => r matches Err(AppError::InvalidState(m))
                && m@ == "artifact '"@ + old(session)@.nodes[artifact_node_index as int].id
                + "' is missing a parent prompt"@
                && final(session)@ == old(session)@,
            Some(p) => r matches Ok(ids) && ids_view(ids@) == superseded_ids(
                old(session)@.nodes,
                old(session)@.nodes[artifact_node_index as int].id,
                p,
            ) && final(session)@ == (SessionTreeView {
                nodes: supersede_all(
                    old(session)@.nodes,
                    old(session)@.nodes[artifact_node_index as int].id,
                    p,
                ),
                ..old(session)@
            }),
        },
{
    let ghost t0 = session@;
    let target_id = session.nodes[artifact_node_index].id.duplicate();
    let parent_id = match &session.nodes[artifact_node_index].parent_id {
        Some(p) => p.duplicate(),
        None => {
            let mut m = "artifact '".to_owned();
            append_str(&mut m, target_id.as_str());
            append_str(&mut m, "' is missing a parent prompt");
            return Err(AppError::InvalidState(m));
        },
    };
    let ghost tid = target_id@;
    let ghost pid = parent_id@;
    // Superseding an accepted node is always an allowed transition.
    assert(status_transition_allowed(NodeStatus::Accepted, NodeStatus::Superseded));
    let mut superseded: Vec<NodeId> = Vec::new();
    let mut i: usize = 0;
    while i < session.nodes.len()
        invariant
            i <= session.nodes.len(),
            session.nodes.len() == t0.nodes.len(),
            tid == t0.nodes[artifact_node_index as int].id,
            t0.nodes[artifact_node_index as int].parent_id == Some(pid),
            target_id@ == tid,
            parent_id@ == pid,
            session@.schema_version == t0.schema_version,
            session@.session_id == t0.session_id,
            session@.intent_node_id == t0.intent_node_id,
            session@.current_node_id == t0.current_node_id,
            session@.state == t0.state,
            forall|j: int|
                0 <= j < i ==> session@.nodes[j] == if supersedes(#[trigger] t0.nodes[j], tid, pid) {
                    superseded_node(t0.nodes[j])
                } else {
                    t0.nodes[j]
                },
            forall|j: int| i <= j < session@.nodes.len() ==> session@.nodes[j] == t0.nodes[j],
            ids_view(superseded@) == superseded_ids(t0.nodes.take(i as int), tid, pid),
        decreases session.nodes.len() - i,
    {
        proof {
            assert(t0.nodes.take(i + 1).drop_last() =~= t0.nodes.take(i as int));
            assert(session@.nodes[i as int] == session.nodes@[i as int]@);
        }
        let same = session.nodes[i].id == target_id;
        let sibling = match &session.nodes[i].parent_id {
            Some(q) => *q == parent_id,
            None => false,
        };
        if !same && session.nodes[i].kind == NodeKind::Artifact && sibling
            && session.nodes[i].status == NodeStatus::Accepted {
            assert(supersedes(t0.nodes[i as int], tid, pid));
            let ghost before = session.nodes@;
            let mut node = session.nodes.remove(i);
            node.status = NodeStatus::Superseded;
            let id_copy = node.id.duplicate();
            session.nodes.insert(i, node);
            proof {
                assert(session.nodes@ =~= before.update(i as int, session.nodes@[i as int]));
                assert(session@.nodes[i as int] =~= superseded_node(t0.nodes[i as int]));
            }
            superseded.push(id_copy);
            proof {
                assert(ids_view(superseded@) =~= superseded_ids(t0.nodes.take(i as int), tid, pid).push(
                    t0.nodes[i as int].id,
                ));
            }
        } else {
            assert(!supersedes(t0.nodes[i as int], tid, pid));
        }
        i = i + 1;
    }
    proof {
        assert(t0.nodes.take(t0.nodes.len() as int) =~= t0.nodes);
        assert(session@.nodes =~= supersede_all(t0.nodes, tid, pid));
    }
    Ok(superseded)
}

/// The position of the first artifact named `id`, or -1.
pub open spec fn artifact_position(ns: Seq<SessionNodeView>, id: Seq<char>) -> int
    decreases ns.len(),
{
    if ns.len() == 0 {
        -1
    } else if is_artifact_named(ns[0], id) {
        0
    } else {
        let r = artifact_position(ns.drop_first(), id);
        if r < 0 {
            -1
        } else {
            r + 1
        }
    }
}

pub proof fn lemma_artifact_position(ns: Seq<SessionNodeView>, id: Seq<char>, i: int)
    requires
        -1 <= i < ns.len(),
        i >= 0 ==> is_artifact_named(ns[i], id),
        forall|j: int| 0 <= j < ns.len() && (i < 0 || j < i) ==> !is_artifact_named(#[trigger] ns[j], id),
    ensures
        artifact_position(ns, id) == i,
    decreases ns.len(),
{
    if ns.len() > 0 && i != 0 {
        let k = if i < 0 { -1 } else { i - 1 };
        assert forall|j: int| 0 <= j < ns.drop_first().len() && (k < 0 || j < k) implies !is_artifact_named(
            #[trigger] ns.drop_first()[j],
            id,
        ) by {
            assert(ns.drop_first()[j] == ns[j + 1]);
        }
        if i > 0 {
            assert(ns.drop_first()[k] == ns[i]);
        }
        lemma_artifact_position(ns.drop_first(), id, k);
    }
}

/// The name of a status, as its variant is written.
pub open spec fn status_name(s: NodeStatus) -> Seq<char> {
    match s {
        NodeStatus::Proposed => "Proposed"@,
        NodeStatus::Accepted => "Accepted"@,
        NodeStatus::Rejected => "Rejected"@,
        NodeStatus::Superseded => "Superseded"@,
    }
}

/// The name of a status, as its variant is written.
pub fn status_label(s: NodeStatus) -> (r: &'static str)
    ensures
        r@ == status_name(s),
{
    match s {
        NodeStatus::Proposed => "Proposed",
        NodeStatus::Accepted => "Accepted",
        NodeStatus::Rejected => "Rejected",
        NodeStatus::Superseded => "Superseded",
    }
}

/// The session with the status of the node at position `i` replaced.
pub open spec fn with_status(t: SessionTreeView, i: int, status: NodeStatus) -> SessionTreeView {
    SessionTreeView { nodes: t.nodes.update(i, SessionNodeView { status, ..t.nodes[i] }), ..t }
}

fn set_node_status(session: &mut SessionTree, i: usize, status: NodeStatus)
    requires
        i < old(session).nodes.len(),
    ensures
        final(session)@ == with_status(old(session)@, i as int, status),
        final(session).nodes.len() == old(session).nodes.len(),
{
    let ghost before = session.nodes@;
    let mut node = session.nodes.remove(i);
    node.status = status;
    session.nodes.insert(i, node);
    proof {
        assert(session.nodes@ =~= before.update(i as int, session.nodes@[i as int]));
        assert(session@.nodes =~= with_status(old(session)@, i as int, status).nodes);
    }
}

/// No other artifact of the prompt of the node at position `i` is accepted,
/// apart from nodes that share its identifier.
pub open spec fn only_accepted_sibling(ns: Seq<SessionNodeView>, i: int) -> bool {
    forall|j: int|
        0 <= j < ns.len() && (#[trigger] ns[j]).kind == NodeKind::Artifact && ns[j].id != ns[i].id
            && ns[j].parent_id == ns[i].parent_id ==> ns[j].status != NodeStatus::Accepted
}

/// What an accepted or rejected status change did.
#[derive(Debug)]
pub struct ArtifactStatusChange {
    pub artifact_index: usize,
    pub previous_status: NodeStatus,
    pub superseded: Vec<NodeId>,
}

/// Moves the first artifact named `artifact_id` to `target_status` when its
/// lifecycle allows it; accepting an artifact supersedes the other accepted
/// artifacts of its prompt. An unknown artifact is `NotFound` and a refused
/// transition `InvalidState`, both leaving the session unchanged.
pub fn apply_artifact_status_change(
    session: &mut SessionTree,
    artifact_id: &NodeId,
    target_status: NodeStatus,
) -> (r: Result<ArtifactStatusChange, AppError>)
    ensures
        ({
            let t = old(session)@;
            let i = artifact_position(t.nodes, artifact_id@);
            let st = t.nodes[i].status;
            let t1 = with_status(t, i, target_status);
            if i < 0 {
                r matches Err(AppError::NotFound(m)) && m@ == "artifact status update: artifact '"@
                    + artifact_id@ + "' not found"@ && final(session)@ == t
            } else if !status_transition_allowed(st, target_status) {
                r matches Err(AppError::InvalidState(m)) && m@
                    == "invalid artifact transition: InvalidStatusTransition { from: "@
                    + status_name(st) + ", to: "@ + status_name(target_status) + " }"@
                    && final(session)@ == t
            } else if target_status != NodeStatus::Accepted {
                r matches Ok(c) && c.artifact_index == i && c.previous_status == st
                    && c.superseded@.len() == 0 && final(session)@ == t1
            } else {
                match t.nodes[i].parent_id {
                    None => r matches Err(AppError::InvalidState(m)) && m@ == "artifact '"@
                        + artifact_id@ + "' is missing a parent prompt"@ && final(session)@ == t1,
                    Some(p) => r matches Ok(c) && c.artifact_index == i && c.previous_status == st
                        && ids_view(c.superseded@) == superseded_ids(t1.nodes, artifact_id@, p)
                        && final(session)@ == (SessionTreeView {
                        nodes: supersede_all(t1.nodes, artifact_id@, p),
                        ..t1
                    }),
                }
            }
        }),
        r matches Ok(c) ==> final(session)@.nodes[c.artifact_index as int].status == target_status,
        target_status == NodeStatus::Accepted ==> (r matches Ok(c) ==> only_accepted_sibling(
            final(session)@.nodes,
            c.artifact_index as int,
        )),
{
    let ghost t = session@;
    let i = match find_artifact_index(session, artifact_id) {
        Some(i) => {
            proof {
                lemma_artifact_position(t.nodes, artifact_id@, i as int);
            }
            i
        },
        None => {
            proof {
                lemma_artifact_position(t.nodes, artifact_id@, -1);
            }
            let mut m = "artifact status update: artifact '".to_owned();
            append_str(&mut m, artifact_id.as_str());
            append_str(&mut m, "' not found");
            return Err(AppError::NotFound(m));
        },
    };
    let current_status = session.nodes[i].status;
    assert(current_status == t.nodes[i as int].status);
    if !current_status.can_transition_to(target_status) {
        let mut m = "invalid artifact transition: InvalidStatusTransition { from: ".to_owned();
        append_str(&mut m, status_label(current_status));
        append_str(&mut m, ", to: ");
        append_str(&mut m, status_label(target_status));
        append_str(&mut m, " }");
        return Err(AppError::InvalidState(m));
    }
    set_node_status(session, i, target_status);
    if target_status == NodeStatus::Accepted {
        let ghost t1 = session@;
        assert(t1.nodes[i as int].id == artifact_id@);
        match supersede_sibling_accepted_artifacts(session, i) {
            Ok(superseded) => {
                proof {
                    let p = t1.nodes[i as int].parent_id->Some_0;
                    let fin = session@;
                    assert(fin.nodes[i as int] == t1.nodes[i as int]);
                    assert forall|j: int|
                        0 <= j < fin.nodes.len() && (#[trigger] fin.nodes[j]).kind == NodeKind::Artifact
                            && fin.nodes[j].id != artifact_id@ && fin.nodes[j].parent_id
                            == fin.nodes[i as int].parent_id implies fin.nodes[j].status
                        != NodeStatus::Accepted by {
                        if supersedes(t1.nodes[j], artifact_id@, p) {
                        } else {
                            assert(fin.nodes[j] == t1.nodes[j]);
                        }
                    }
                }
                Ok(
                    ArtifactStatusChange {
                        artifact_index: i,
                        previous_status: current_status,
                        superseded,
                    },
                )
            },
            Err(e) => Err(e),
        }
    } else {
        Ok(
            ArtifactStatusChange {
                artifact_index: i,
                previous_status: current_status,
                superseded: Vec::new(),
            },
        )
    }
}

/// Records the review of a freshly generated artifact: accepted or rejected.
/// An unknown artifact is `NotFound` and leaves the session unchanged.
pub fn apply_review_outcome(session: &mut SessionTree, artifact_id: &NodeId, accepted: bool) -> (r:
    Result<usize, AppError>)
    ensures
        ({
            let t = old(session)@;
            let i = artifact_position(t.nodes, artifact_id@);
            if i < 0 {
                r matches Err(AppError::NotFound(m)) && m@ == "generated artifact '"@ + artifact_id@
                    + "' missing from session"@ && final(session)@ == t
            } else {
                r == Ok::<usize, AppError>(i as usize) && final(session)@ == with_status(
                    t,
                    i,
                    if accepted {
                        NodeStatus::Accepted
                    } else {
                        NodeStatus::Rejected
                    },
                )
            }
        }),
{
    let ghost t = session@;
    match find_artifact_index(session, artifact_id) {
        Some(i) => {
            proof {
                lemma_artifact_position(t.nodes, artifact_id@, i as int);
            }
            let status = if accepted {
                NodeStatus::Accepted
            } else {
                NodeStatus::Rejected
            };
            set_node_status(session, i, status);
            Ok(i)
        },
        None => {
            proof {
                lemma_artifact_position(t.nodes, artifact_id@, -1);
            }
            let mut m = "generated artifact '".to_owned();
            append_str(&mut m, artifact_id.as_str());
            append_str(&mut m, "' missing from session");
            Err(AppError::NotFound(m))
        },
    }
}

// ---------------------------------------------------------------------------
// Locating artifacts
// ---------------------------------------------------------------------------

/// The views of a sequence of sessions.
pub open spec fn sessions_view(ss: Seq<SessionTree>) -> Seq<SessionTreeView> {
    ss.map_values(|t: SessionTree| t@)
}

/// The first position, from `k` on, of a session that holds artifact `id`, or -1.
pub open spec fn session_hit_from(ss: Seq<SessionTreeView>, id: Seq<char>, k: int) -> int
    decreases ss.len() - k,
{
    if k < 0 || k >= ss.len() {
        -1
    } else if holds_artifact(ss[k], id) {
        k
    } else {
        session_hit_from(ss, id, k + 1)
    }
}

pub proof fn lemma_session_hit_from(ss: Seq<SessionTreeView>, id: Seq<char>, k: int)
    requires
        0 <= k <= ss.len(),
    ensures
        session_hit_from(ss, id, k) == -1 || (k <= session_hit_from(ss, id, k) < ss.len()
            && holds_artifact(ss[session_hit_from(ss, id, k)], id)),
        forall|j: int|
            k <= j < ss.len() && (session_hit_from(ss, id, k) < 0 || j < session_hit_from(ss, id, k))
                ==> !holds_artifact(#[trigger] ss[j], id),
    decreases ss.len() - k,
{
    if k < ss.len() && !holds_artifact(ss[k], id) {
        lemma_session_hit_from(ss, id, k + 1);
    }
}

/// Finds the artifact named `artifact_id` in the one session that holds it,
/// scanning the sessions in order: the position of that session and of the
/// artifact in it. None holding it is `NotFound`; a second session holding
/// it is a `Conflict` that names the first two.
pub fn locate_artifact_in_sessions(
    sessions: &Vec<SessionTree>,
    artifact_id: &NodeId,
    operation: &str,
) -> (r: Result<(usize, usize), AppError>)
    ensures
        ({
            let ss = sessions_view(sessions@);
            let h0 = session_hit_from(ss, artifact_id@, 0);
            let h1 = session_hit_from(ss, artifact_id@, h0 + 1);
            if h0 < 0 {
                r matches Err(AppError::NotFound(m)) && m@ == operation@ + ": artifact '"@
                    + artifact_id@ + "' not found"@
            } else if h1 >= 0 {
                r matches Err(AppError::Conflict(m)) && m@ == operation@ + ": artifact '"@
                    + artifact_id@ + "' exists in multiple sessions ('"@ + ss[h0].session_id
                    + "' and '"@ + ss[h1].session_id + "'); rerun with --session"@
            } else {
                r == Ok::<(usize, usize), AppError>(
                    (h0 as usize, artifact_position(ss[h0].nodes, artifact_id@) as usize),
                )
            }
        }),
{
    let ghost ss = sessions_view(sessions@);
    let mut found: Option<(usize, usize)> = None;
    let mut k: usize = 0;
    proof {
        lemma_session_hit_from(ss, artifact_id@, 0);
    }
    while k < sessions.len()
        invariant
            k <= sessions.len(),
            ss == sessions_view(sessions@),
            -1 <= session_hit_from(ss, artifact_id@, 0) < ss.len(),
            session_hit_from(ss, artifact_id@, 0) >= 0 ==> holds_artifact(
                ss[session_hit_from(ss, artifact_id@, 0)],
                artifact_id@,
            ),
            forall|j: int|
                0 <= j < ss.len() && (session_hit_from(ss, artifact_id@, 0) < 0 || j
                    < session_hit_from(ss, artifact_id@, 0)) ==> !holds_artifact(
                    #[trigger] ss[j],
                    artifact_id@,
                ),
            match found {
                None => session_hit_from(ss, artifact_id@, 0) < 0 || session_hit_from(
                    ss,
                    artifact_id@,
                    0,
                ) >= k,
                Some((a, b)) => a as int == session_hit_from(ss, artifact_id@, 0) && a < k
                    && b as int == artifact_position(ss[a as int].nodes, artifact_id@)
                    && session_hit_from(ss, artifact_id@, a + 1) == session_hit_from(
                    ss,
                    artifact_id@,
                    k as int,
                ),
            },
        decreases sessions.len() - k,
    {
        assert(ss[k as int] == sessions@[k as int]@);
        let hit = find_artifact_index(&sessions[k], artifact_id);
        match hit {
            None => {
                assert(!holds_artifact(ss[k as int], artifact_id@));
                k = k + 1;
            },
            Some(i) => {
                proof {
                    assert(holds_artifact(ss[k as int], artifact_id@));
                    lemma_artifact_position(ss[k as int].nodes, artifact_id@, i as int);
                }
                match found {
                    Some((a, b)) => {
                        proof {
                            lemma_session_hit_from(ss, artifact_id@, a + 1);
                            assert(session_hit_from(ss, artifact_id@, k as int) == k);
                        }
                        let mut m = operation.to_owned();
                        append_str(&mut m, ": artifact '");
                        append_str(&mut m, artifact_id.as_str());
                        append_str(&mut m, "' exists in multiple sessions ('");
                        append_str(&mut m, sessions[a].session_id.as_str());
                        append_str(&mut m, "' and '");
                        append_str(&mut m, sessions[k].session_id.as_str());
                        append_str(&mut m, "'); rerun with --session");
                        return Err(AppError::Conflict(m));
                    },
                    None => {
                        proof {
                            assert(session_hit_from(ss, artifact_id@, 0) == k);
                            assert(session_hit_from(ss, artifact_id@, k + 1) == session_hit_from(
                                ss,
                                artifact_id@,
                                k + 1,
                            ));
                        }
                        found = Some((k, i));
                        k = k + 1;
                    },
                }
            },
        }
    }
    match found {
        Some((a, b)) => {
            proof {
                assert(session_hit_from(ss, artifact_id@, k as int) == -1);
            }
            Ok((a, b))
        },
        None => {
            let mut m = operation.to_owned();
            append_str(&mut m, ": artifact '");
            append_str(&mut m, artifact_id.as_str());
            append_str(&mut m, "' not found");
            Err(AppError::NotFound(m))
        },
    }
}

/// The position of the artifact named `artifact_id` in the session chosen by
/// the user, whose name is `session_name`; `NotFound` when it holds none.
pub fn find_artifact_in_session(
    session: &SessionTree,
    artifact_id: &NodeId,
    session_name: &str,
    operation: &str,
) -> (r: Result<usize, AppError>)
    ensures
        ({
            let i = artifact_position(session@.nodes, artifact_id@);
            if i < 0 {
                r matches Err(AppError::NotFound(m)) && m@ == operation@ + ": artifact '"@
                    + artifact_id@ + "' not found in session '"@ + session_name@ + "'"@
            } else {
                r == Ok::<usize, AppError>(i as usize)
            }
        }),
{
    match find_artifact_index(session, artifact_id) {
        Some(i) => {
            proof {
                lemma_artifact_position(session@.nodes, artifact_id@, i as int);
            }
            Ok(i)
        },
        None => {
            proof {
                lemma_artifact_position(session@.nodes, artifact_id@, -1);
            }
            let mut m = operation.to_owned();
            append_str(&mut m, ": artifact '");
            append_str(&mut m, artifact_id.as_str());
            append_str(&mut m, "' not found in session '");
            append_str(&mut m, session_name);
            append_str(&mut m, "'");
            Err(AppError::NotFound(m))
        },
    }
}

// ---------------------------------------------------------------------------
// Session listings
// ---------------------------------------------------------------------------

/// One line of the session listing.
#[derive(Debug, PartialEq, Eq)]
pub struct SessionSummary {
    pub session_id: String,
    pub thread_id: String,
    pub state: SessionState,
    pub current_node_id: String,
    pub intent_label: String,
    pub node_count: usize,
}

/// The listing line of a session: its identifiers, state, node count and the
/// label of its intent node, or `<missing intent node>`.
pub fn summarize_session(session: &SessionTree, thread_id: &str) -> (r: SessionSummary)
    ensures
        r.session_id@ == session@.session_id,
        r.thread_id@ == thread_id@,
        r.state == session.state,
        r.current_node_id@ == session@.current_node_id,
        r.node_count == session.nodes.len(),
        first_index_of(session@.nodes, session@.intent_node_id) < 0 ==> r.intent_label@
            == "<missing intent node>"@,
        first_index_of(session@.nodes, session@.intent_node_id) >= 0 ==> r.intent_label@
            == session@.nodes[first_index_of(session@.nodes, session@.intent_node_id)].label,
{
    let intent_label = match find_node_index(session, &session.intent_node_id) {
        Some(i) => session.nodes[i].label.as_str().to_owned(),
        None => "<missing intent node>".to_owned(),
    };
    SessionSummary {
        session_id: session.session_id.as_str().to_owned(),
        thread_id: thread_id.to_owned(),
        state: session.state,
        current_node_id: session.current_node_id.as_str().to_owned(),
        intent_label,
        node_count: session.nodes.len(),
    }
}

fn id_sorts_before(summary: &SessionSummary, id: &Vec<char>) -> (r: bool)
    ensures
        r == lex_lt(summary.session_id@, id@),
{
    let cs = chars_of(summary.session_id.as_str());
    chars_lt(&cs, id)
}

/// Each summary's session id sorts no lower than the next ones'.
pub open spec fn ids_descending(s: Seq<SessionSummary>) -> bool {
    forall|i: int, j: int|
        0 <= i < j < s.len() ==> !lex_lt(#[trigger] s[i].session_id@, #[trigger] s[j].session_id@)
}

/// Whether a summary carries session id `k`.
pub open spec fn has_session_id(k: Seq<char>) -> spec_fn(SessionSummary) -> bool {
    |x: SessionSummary| x.session_id@ == k
}

/// The summaries that carry session id `k`, in their order.
pub open spec fn summaries_with_id(s: Seq<SessionSummary>, k: Seq<char>) -> Seq<SessionSummary> {
    s.filter(has_session_id(k))
}

proof fn lemma_none_with_id(b: Seq<SessionSummary>, k: Seq<char>)
    requires
        forall|i: int| 0 <= i < b.len() ==> (#[trigger] b[i]).session_id@ != k,
    ensures
        summaries_with_id(b, k) == Seq::<SessionSummary>::empty(),
    decreases b.len(),
{
    let f = has_session_id(k);
    if b.len() == 0 {
        b.lemma_filter_len(f);
        assert(b.filter(f) =~= Seq::<SessionSummary>::empty());
    } else {
        let c = b.drop_last();
        assert forall|i: int| 0 <= i < c.len() implies (#[trigger] c[i]).session_id@ != k by {
            assert(c[i] == b[i]);
        }
        lemma_none_with_id(c, k);
        assert(b == c.push(b.last()));
        c.lemma_filter_push(b.last(), f);
    }
}

/// Inserting `x` in front of the first summary whose id sorts below it puts
/// `x` after every summary with the same id.
proof fn lemma_insert_after_equal_ids(
    s: Seq<SessionSummary>,
    p: int,
    x: SessionSummary,
    k: Seq<char>,
)
    requires
        0 <= p <= s.len(),
        ids_descending(s),
        p < s.len() ==> lex_lt(s[p].session_id@, x.session_id@),
    ensures
        summaries_with_id(s.insert(p, x), k) == (if x.session_id@ == k {
            summaries_with_id(s, k).push(x)
        } else {
            summaries_with_id(s, k)
        }),
{
    let f = has_session_id(k);
    let a = s.take(p);
    let b = s.skip(p);
    let one = Seq::<SessionSummary>::empty().push(x);
    assert(s =~= a + b);
    assert(s.insert(p, x) =~= (a + one) + b);
    Seq::filter_distributes_over_add(a, b, f);
    Seq::filter_distributes_over_add(a + one, b, f);
    Seq::filter_distributes_over_add(a, one, f);
    Seq::<SessionSummary>::empty().lemma_filter_push(x, f);
    Seq::<SessionSummary>::empty().lemma_filter_len(f);
    assert(Seq::<SessionSummary>::empty().filter(f) =~= Seq::<SessionSummary>::empty());
    if x.session_id@ == k {
        assert forall|i: int| 0 <= i < b.len() implies (#[trigger] b[i]).session_id@ != k by {
            assert(b[i] == s[p + i]);
            if s[p + i].session_id@ == k {
                if i == 0 {
                    crate::text::lemma_lex_irreflexive(k);
                } else {
                    assert(!lex_lt(s[p].session_id@, s[p + i].session_id@));
                }
            }
        }
        lemma_none_with_id(b, k);
        assert(a.filter(f) + one =~= (a.filter(f) + one) + Seq::<SessionSummary>::empty());
        assert(s.filter(f) =~= a.filter(f) + Seq::<SessionSummary>::empty());
        assert(a.filter(f).push(x) =~= a.filter(f) + one);
    } else {
        assert(a.filter(f) + Seq::<SessionSummary>::empty() =~= a.filter(f));
    }
}

/// The summaries ordered by session id, highest first; summaries with equal
/// ids keep their order.
pub fn sort_summaries_by_id_desc(summaries: Vec<SessionSummary>) -> (r: Vec<SessionSummary>)
    ensures
        ids_descending(r@),
        r@.to_multiset() == summaries@.to_multiset(),
        forall|k: Seq<char>| #[trigger] summaries_with_id(r@, k) == summaries_with_id(summaries@, k),
{
    broadcast use vstd::seq_lib::group_to_multiset_ensures;

    let ghost orig = summaries@;
    let mut input = summaries;
    let mut out: Vec<SessionSummary> = Vec::new();
    assert(out@.to_multiset().add(input@.to_multiset()) =~= orig.to_multiset());
    assert forall|k: Seq<char>|
        #[trigger] summaries_with_id(orig, k) == summaries_with_id(out@, k) + summaries_with_id(
            input@,
            k,
        ) by {
        out@.lemma_filter_len(has_session_id(k));
        assert(summaries_with_id(out@, k) =~= Seq::<SessionSummary>::empty());
        assert(summaries_with_id(out@, k) + summaries_with_id(input@, k) =~= summaries_with_id(
            input@,
            k,
        ));
    }
    while input.len() > 0
        invariant
            ids_descending(out@),
            out@.to_multiset().add(input@.to_multiset()) == orig.to_multiset(),
            forall|k: Seq<char>|
                #[trigger] summaries_with_id(orig, k) == summaries_with_id(out@, k)
                    + summaries_with_id(input@, k),
        decreases input.len(),
    {
        let ghost before_in = input@;
        let x = input.remove(0);
        let xc = chars_of(x.session_id.as_str());
        let mut p: usize = 0;
        while p < out.len() && !id_sorts_before(&out[p], &xc)
            invariant
                p <= out.len(),
                xc@ == x.session_id@,
                forall|j: int| 0 <= j < p ==> !lex_lt(#[trigger] out@[j].session_id@, x.session_id@),
            decreases out.len() - p,
        {
            p = p + 1;
        }
        let ghost s = out@;
        out.insert(p, x);
        proof {
            let t = out@;
            assert forall|i: int, j: int| 0 <= i < j < t.len() implies !lex_lt(
                #[trigger] t[i].session_id@,
                #[trigger] t[j].session_id@,
            ) by {
                if j < p {
                    assert(t[i] == s[i] && t[j] == s[j]);
                } else if j == p {
                    assert(t[i] == s[i]);
                } else if i < p {
                    assert(t[i] == s[i] && t[j] == s[j - 1]);
                } else if i == p {
                    assert(t[j] == s[j - 1]);
                    lemma_lex_trichotomy(s[p as int].session_id@, s[j - 1].session_id@);
                    lemma_lex_trichotomy(s[j - 1].session_id@, x.session_id@);
                    if lex_lt(s[j - 1].session_id@, s[p as int].session_id@) {
                        crate::text::lemma_lex_transitive(
                            s[j - 1].session_id@,
                            s[p as int].session_id@,
                            x.session_id@,
                        );
                    }
                    lemma_lex_trichotomy(x.session_id@, s[j - 1].session_id@);
                } else {
                    assert(t[i] == s[i - 1] && t[j] == s[j - 1]);
                }
            }
            broadcast use vstd::multiset::group_multiset_axioms;

            assert(input@ == before_in.remove(0));
            vstd::seq_lib::to_multiset_insert(s, p as int, x);
            vstd::seq_lib::to_multiset_remove(before_in, 0);
            assert(out@ == s.insert(p as int, x));
            assert(out@.to_multiset() == s.to_multiset().insert(x));
            assert(input@.to_multiset() == before_in.to_multiset().remove(x));
            assert(before_in[0] == x);
            assert(before_in.contains(x));
            vstd::seq_lib::to_multiset_contains(before_in, x);
            assert(before_in.to_multiset().count(x) > 0);
            assert(out@.to_multiset().add(input@.to_multiset()) =~= s.to_multiset().add(
                before_in.to_multiset(),
            ));
            assert forall|k: Seq<char>|
                #[trigger] summaries_with_id(orig, k) == summaries_with_id(out@, k)
                    + summaries_with_id(input@, k) by {
                let f = has_session_id(k);
                lemma_insert_after_equal_ids(s, p as int, x, k);
                assert(before_in =~= seq![x] + input@);
                input@.lemma_filter_prepend(x, f);
                assert(summaries_with_id(orig, k) == summaries_with_id(s, k) + summaries_with_id(
                    before_in,
                    k,
                ));
                if x.session_id@ == k {
                    assert(summaries_with_id(s, k).push(x) + summaries_with_id(input@, k)
                        =~= summaries_with_id(s, k) + (seq![x] + summaries_with_id(input@, k)));
                } else {
                    assert(Seq::<SessionSummary>::empty() + summaries_with_id(input@, k)
                        =~= summaries_with_id(input@, k));
                }
            }
        }
    }
    assert(input@.to_multiset() =~= vstd::multiset::Multiset::empty());
    assert forall|k: Seq<char>|
        #[trigger] summaries_with_id(out@, k) == summaries_with_id(summaries@, k) by {
        input@.lemma_filter_len(has_session_id(k));
        assert(summaries_with_id(input@, k) =~= Seq::<SessionSummary>::empty());
        assert(summaries_with_id(out@, k) + summaries_with_id(input@, k) =~= summaries_with_id(
            out@,
            k,
        ));
    }
    out
}

// ---------------------------------------------------------------------------
// Laws
// ---------------------------------------------------------------------------

/// Continuing a valid session from its current node with a new prompt and a
/// new artifact, and making that prompt current, keeps the session valid.
pub proof fn law_generation_keeps_tree_valid(
    t: SessionTreeView,
    pid: Seq<char>,
    aid: Seq<char>,
    plabel: Seq<char>,
    alabel: Seq<char>,
)
    requires
        tree_is_valid(t),
        last_index_of(t.nodes, pid) < 0,
        last_index_of(t.nodes, aid) < 0,
        pid != aid,
    ensures
        first_index_of(t.nodes, t.current_node_id) >= 0,
        tree_is_valid(
            SessionTreeView {
                current_node_id: pid,
                ..generation_outcome(
                    t,
                    first_index_of(t.nodes, t.current_node_id),
                    pid,
                    aid,
                    plabel,
                    alabel,
                )
            },
        ),
{
    let ns = t.nodes;
    let ci = last_index_of(ns, t.current_node_id);
    lemma_last_index_of(ns, t.current_node_id);
    lemma_first_index_of(ns, t.current_node_id);
    let fi = first_index_of(ns, t.current_node_id);
    lemma_unique_lookup(ns, fi);
    assert(fi == ci);
    lemma_attach_keeps_tree_valid(
        t,
        ci,
        pid,
        aid,
        plabel,
        alabel,
        prompt_payload_rel(pid),
        artifact_payload_rel(pid, aid),
    );
    assert(generation_outcome(t, ci, pid, aid, plabel, alabel).nodes == attach_nodes(
        ns,
        ci,
        prompt_node_view(pid, plabel, ns[ci].id, aid, prompt_payload_rel(pid)),
        artifact_node_view(aid, alabel, pid, artifact_payload_rel(pid, aid)),
    ));
}

/// Accepting or rejecting an artifact of a valid session, with or without
/// superseding the accepted artifacts of a prompt, keeps the session valid:
/// validity never depends on the status of an artifact.
pub proof fn law_artifact_status_change_keeps_tree_valid(
    t: SessionTreeView,
    artifact_id: Seq<char>,
    target_status: NodeStatus,
    parent: Seq<char>,
)
    requires
        tree_is_valid(t),
        artifact_position(t.nodes, artifact_id) >= 0,
    ensures
        tree_is_valid(with_status(t, artifact_position(t.nodes, artifact_id), target_status)),
        tree_is_valid(
            SessionTreeView {
                nodes: supersede_all(
                    with_status(t, artifact_position(t.nodes, artifact_id), target_status).nodes,
                    artifact_id,
                    parent,
                ),
                ..t
            },
        ),
{
    let i = artifact_position(t.nodes, artifact_id);
    lemma_artifact_position_found(t.nodes, artifact_id);
    let t1 = with_status(t, i, target_status);
    assert(statuses_of_artifacts_differ(t.nodes, t1.nodes));
    lemma_tree_error_ignores_artifact_statuses(t, t1);
    let ns2 = supersede_all(t1.nodes, artifact_id, parent);
    let t2 = SessionTreeView { nodes: ns2, ..t };
    assert forall|j: int| 0 <= j < t.nodes.len() implies (#[trigger] ns2[j]) == (SessionNodeView {
        status: ns2[j].status,
        ..t.nodes[j]
    }) by {
        assert(t1.nodes[j] == (SessionNodeView { status: t1.nodes[j].status, ..t.nodes[j] }));
    }
    assert forall|j: int| 0 <= j < t.nodes.len() && (#[trigger] t.nodes[j]).kind
        != NodeKind::Artifact implies t.nodes[j].status == ns2[j].status by {
        assert(t1.nodes[j] == t.nodes[j]);
    }
    assert(statuses_of_artifacts_differ(t.nodes, ns2));
    lemma_tree_error_ignores_artifact_statuses(t, t2);
}

proof fn lemma_artifact_position_found(ns: Seq<SessionNodeView>, id: Seq<char>)
    ensures
        -1 <= artifact_position(ns, id) < ns.len(),
        artifact_position(ns, id) >= 0 ==> is_artifact_named(ns[artifact_position(ns, id)], id),
    decreases ns.len(),
{
    if ns.len() > 0 && !is_artifact_named(ns[0], id) {
        lemma_artifact_position_found(ns.drop_first(), id);
    }
}

} // verus!
