//! Laws of session trees: what validity means, and that attaching a prompt
//! with its artifact to a valid tree keeps it valid.
use vstd::prelude::*;

use crate::domain::{
    child_allowed, child_errors_from, child_link_error, current_candidate_error, duplicate_from,
    last_index_of, lemma_last_index_of, node_errors_from, node_link_error, parent_errors_from,
    tree_error, tree_is_valid, ArtifactKind, NodeKind, NodeStatus, SessionNodeView,
    SessionTreeView, lineage_walk, lineage_defined, lineage_fuel, active_lineage, reaches,
    detached_from, rooted_error,
};

verus! {

/// The prompt node attached under `parent_id`, holding its single artifact.
pub open spec fn prompt_node_view(
    pid: Seq<char>,
    label: Seq<char>,
    parent_id: Seq<char>,
    aid: Seq<char>,
    payload: Seq<char>,
) -> SessionNodeView {
    SessionNodeView {
        id: pid,
        label,
        kind: NodeKind::Prompt,
        artifact_kind: None,
        status: NodeStatus::Accepted,
        parent_id: Some(parent_id),
        children_ids: seq![aid],
        input_node_ids: seq![],
        payload_ref: Some(payload),
    }
}

/// The proposed implementation artifact attached under prompt `pid`.
pub open spec fn artifact_node_view(
    aid: Seq<char>,
    label: Seq<char>,
    pid: Seq<char>,
    payload: Seq<char>,
) -> SessionNodeView {
    SessionNodeView {
        id: aid,
        label,
        kind: NodeKind::Artifact,
        artifact_kind: Some(ArtifactKind::Implementation),
        status: NodeStatus::Proposed,
        parent_id: Some(pid),
        children_ids: seq![],
        input_node_ids: seq![],
        payload_ref: Some(payload),
    }
}

/// The nodes after attaching prompt `p` (and its artifact `a`) under the node
/// at position `pi`: that node lists `p` as its last child, and `p`, then `a`,
/// are appended.
pub open spec fn attach_nodes(
    ns: Seq<SessionNodeView>,
    pi: int,
    p: SessionNodeView,
    a: SessionNodeView,
) -> Seq<SessionNodeView> {
    ns.update(pi, SessionNodeView { children_ids: ns[pi].children_ids.push(p.id), ..ns[pi] }).push(
        p,
    ).push(a)
}

pub proof fn lemma_last_index_push(ns: Seq<SessionNodeView>, y: SessionNodeView, id: Seq<char>)
    ensures
        last_index_of(ns.push(y), id) == (if y.id == id {
            ns.len() as int
        } else {
            last_index_of(ns, id)
        }),
{
    assert(ns.push(y).drop_last() =~= ns);
}

pub proof fn lemma_last_index_update(
    ns: Seq<SessionNodeView>,
    i: int,
    x: SessionNodeView,
    id: Seq<char>,
)
    requires
        0 <= i < ns.len(),
        x.id == ns[i].id,
    ensures
        last_index_of(ns.update(i, x), id) == last_index_of(ns, id),
    decreases ns.len(),
{
    let us = ns.update(i, x);
    if i == ns.len() - 1 {
        assert(us.drop_last() =~= ns.drop_last());
    } else {
        assert(us.drop_last() =~= ns.drop_last().update(i, x));
        lemma_last_index_update(ns.drop_last(), i, x, id);
    }
}

pub proof fn lemma_duplicate_from_none(ns: Seq<SessionNodeView>, i: int)
    requires
        0 <= i <= ns.len(),
    ensures
        duplicate_from(ns, i) is None <==> forall|j: int, k: int|
            i <= j < ns.len() && 0 <= k < j ==> ns[k].id != ns[j].id,
    decreases ns.len() - i,
{
    if i < ns.len() {
        lemma_duplicate_from_none(ns, i + 1);
    }
}

pub proof fn lemma_node_errors_none(t: SessionTreeView, i: int)
    requires
        0 <= i <= t.nodes.len(),
    ensures
        node_errors_from(t, i) is None <==> forall|j: int|
            i <= j < t.nodes.len() ==> node_link_error(t, #[trigger] t.nodes[j]) is None,
    decreases t.nodes.len() - i,
{
    if i < t.nodes.len() {
        lemma_node_errors_none(t, i + 1);
    }
}

pub proof fn lemma_child_errors_none(ns: Seq<SessionNodeView>, parent: SessionNodeView, j: int)
    requires
        0 <= j <= parent.children_ids.len(),
    ensures
        child_errors_from(ns, parent, j) is None <==> forall|k: int|
            j <= k < parent.children_ids.len() ==> child_link_error(
                ns,
                parent,
                #[trigger] parent.children_ids[k],
            ) is None,
    decreases parent.children_ids.len() - j,
{
    if j < parent.children_ids.len() {
        lemma_child_errors_none(ns, parent, j + 1);
    }
}

pub proof fn lemma_parent_errors_none(ns: Seq<SessionNodeView>, i: int)
    requires
        0 <= i <= ns.len(),
    ensures
        parent_errors_from(ns, i) is None <==> forall|j: int|
            i <= j < ns.len() ==> child_errors_from(ns, #[trigger] ns[j], 0) is None,
    decreases ns.len() - i,
{
    if i < ns.len() {
        lemma_parent_errors_none(ns, i + 1);
    }
}

pub proof fn lemma_attach_lookup(
    ns: Seq<SessionNodeView>,
    pi: int,
    p: SessionNodeView,
    a: SessionNodeView,
    id: Seq<char>,
)
    requires
        0 <= pi < ns.len(),
    ensures
        last_index_of(attach_nodes(ns, pi, p, a), id) == (if id == a.id {
            ns.len() as int + 1
        } else if id == p.id {
            ns.len() as int
        } else {
            last_index_of(ns, id)
        }),
{
    let upd = SessionNodeView { children_ids: ns[pi].children_ids.push(p.id), ..ns[pi] };
    let us = ns.update(pi, upd);
    lemma_last_index_push(us.push(p), a, id);
    lemma_last_index_push(us, p, id);
    lemma_last_index_update(ns, pi, upd, id);
}

/// Nodes with unique identifiers: a node's identifier finds that node.
pub proof fn lemma_unique_lookup(ns: Seq<SessionNodeView>, j: int)
    requires
        duplicate_from(ns, 0) is None,
        0 <= j < ns.len(),
    ensures
        last_index_of(ns, ns[j].id) == j,
{
    lemma_duplicate_from_none(ns, 0);
    lemma_last_index_of(ns, ns[j].id);
    let li = last_index_of(ns, ns[j].id);
    if li != j {
        assert(ns[li].id == ns[j].id);
    }
}

proof fn lemma_attach_unique(
    ns: Seq<SessionNodeView>,
    pi: int,
    p: SessionNodeView,
    a: SessionNodeView,
)
    requires
        duplicate_from(ns, 0) is None,
        0 <= pi < ns.len(),
        last_index_of(ns, p.id) < 0,
        last_index_of(ns, a.id) < 0,
        p.id != a.id,
    ensures
        duplicate_from(attach_nodes(ns, pi, p, a), 0) is None,
{
    let ns2 = attach_nodes(ns, pi, p, a);
    let n = ns.len() as int;
    lemma_duplicate_from_none(ns, 0);
    lemma_last_index_of(ns, p.id);
    lemma_last_index_of(ns, a.id);
    assert forall|j: int, k: int| 0 <= j < ns2.len() && 0 <= k < j implies ns2[k].id
        != ns2[j].id by {
        if j < n {
            assert(ns2[j].id == ns[j].id);
            assert(ns2[k].id == ns[k].id);
        } else if k < n {
            assert(ns2[k].id == ns[k].id);
        }
    }
    lemma_duplicate_from_none(ns2, 0);
}

proof fn lemma_attach_node_links(
    t: SessionTreeView,
    t2: SessionTreeView,
    pi: int,
    p: SessionNodeView,
    a: SessionNodeView,
)
    requires
        tree_is_valid(t),
        0 <= pi < t.nodes.len(),
        t.nodes[pi].kind == NodeKind::Intent || t.nodes[pi].kind == NodeKind::Prompt,
        last_index_of(t.nodes, p.id) < 0,
        last_index_of(t.nodes, a.id) < 0,
        p.id != a.id,
        p.kind == NodeKind::Prompt,
        p.parent_id == Some(t.nodes[pi].id),
        p.children_ids == seq![a.id],
        a.kind == NodeKind::Artifact,
        a.parent_id == Some(p.id),
        t2.nodes == attach_nodes(t.nodes, pi, p, a),
        t2.intent_node_id == t.intent_node_id,
    ensures
        node_errors_from(t2, 0) is None,
{
    let ns = t.nodes;
    let ns2 = t2.nodes;
    let n = ns.len() as int;
    let par = ns[pi];
    lemma_node_errors_none(t, 0);
    assert(duplicate_from(ns, 0) is None);
    assert forall|j: int| 0 <= j < ns2.len() implies node_link_error(t2, #[trigger] ns2[j])
        is None by {
        if j < n {
            let nj = ns[j];
            assert(node_link_error(t, ns[j]) is None);
            assert(ns2[j].id == nj.id && ns2[j].kind == nj.kind && ns2[j].parent_id
                == nj.parent_id);
            match nj.parent_id {
                Some(q) => {
                    if nj.kind != NodeKind::Intent {
                        let qi = last_index_of(ns, q);
                        lemma_last_index_of(ns, q);
                        lemma_attach_lookup(ns, pi, p, a, q);
                        assert(last_index_of(ns2, q) == qi);
                        assert(ns2[qi].kind == ns[qi].kind);
                        assert(ns[qi].children_ids.contains(nj.id));
                        if qi == pi {
                            let w = choose|w: int|
                                0 <= w < ns[qi].children_ids.len() && ns[qi].children_ids[w]
                                    == nj.id;
                            assert(ns2[qi].children_ids[w] == nj.id);
                        } else {
                            assert(ns2[qi] == ns[qi]);
                        }
                    }
                },
                None => {},
            }
        } else if j == n {
            lemma_unique_lookup(ns, pi);
            lemma_attach_lookup(ns, pi, p, a, par.id);
            assert(ns2[pi].children_ids[par.children_ids.len() as int] == p.id);
        } else {
            lemma_attach_lookup(ns, pi, p, a, p.id);
            assert(ns2[n].children_ids[0] == a.id);
        }
    }
    lemma_node_errors_none(t2, 0);
}

proof fn lemma_attach_child_links(
    ns: Seq<SessionNodeView>,
    pi: int,
    p: SessionNodeView,
    a: SessionNodeView,
)
    requires
        duplicate_from(ns, 0) is None,
        parent_errors_from(ns, 0) is None,
        0 <= pi < ns.len(),
        ns[pi].kind == NodeKind::Intent || ns[pi].kind == NodeKind::Prompt,
        last_index_of(ns, p.id) < 0,
        last_index_of(ns, a.id) < 0,
        p.id != a.id,
        p.kind == NodeKind::Prompt,
        p.parent_id == Some(ns[pi].id),
        p.children_ids == seq![a.id],
        a.kind == NodeKind::Artifact,
        a.parent_id == Some(p.id),
        a.children_ids == Seq::<Seq<char>>::empty(),
    ensures
        parent_errors_from(attach_nodes(ns, pi, p, a), 0) is None,
{
    let ns2 = attach_nodes(ns, pi, p, a);
    let n = ns.len() as int;
    let par = ns[pi];
    lemma_parent_errors_none(ns, 0);
    assert forall|j: int| 0 <= j < ns2.len() implies child_errors_from(ns2, #[trigger] ns2[j], 0)
        is None by {
        let pj = ns2[j];
        assert forall|k: int| 0 <= k < pj.children_ids.len() implies child_link_error(
            ns2,
            pj,
            #[trigger] pj.children_ids[k],
        ) is None by {
            if j < n {
                assert(child_errors_from(ns, ns[j], 0) is None);
                lemma_child_errors_none(ns, ns[j], 0);
                assert(pj.id == ns[j].id && pj.kind == ns[j].kind);
                if j == pi && k == par.children_ids.len() {
                    assert(pj.children_ids[k] == p.id);
                    lemma_attach_lookup(ns, pi, p, a, p.id);
                } else {
                    let c = ns[j].children_ids[k];
                    assert(pj.children_ids[k] == c);
                    assert(child_link_error(ns, ns[j], c) is None);
                    let ci = last_index_of(ns, c);
                    lemma_last_index_of(ns, c);
                    assert(0 <= ci < n);
                    lemma_attach_lookup(ns, pi, p, a, c);
                    lemma_last_index_of(ns, p.id);
                    lemma_last_index_of(ns, a.id);
                    assert(c != p.id && c != a.id);
                    assert(last_index_of(ns2, c) == ci);
                    assert(ns2[ci].parent_id == ns[ci].parent_id);
                    assert(ns2[ci].kind == ns[ci].kind);
                }
            } else if j == n {
                assert(pj.children_ids[k] == a.id);
                lemma_attach_lookup(ns, pi, p, a, a.id);
            }
        }
        lemma_child_errors_none(ns2, pj, 0);
    }
    lemma_parent_errors_none(ns2, 0);
}

/// Attaching a new prompt, with a new artifact under it, below an intent or
/// prompt node of a valid tree, and making the prompt current, yields a valid
/// tree.
/// A walk that meets `target` still meets it, with at least as many links,
/// in nodes where every identifier found before is found with the same parent.
proof fn lemma_reaches_transfer(
    a: Seq<SessionNodeView>,
    b: Seq<SessionNodeView>,
    x: Seq<char>,
    target: Seq<char>,
    f1: nat,
    f2: nat,
)
    requires
        reaches(a, x, target, f1),
        f1 <= f2,
        forall|y: Seq<char>|
            #[trigger] last_index_of(a, y) >= 0 ==> last_index_of(b, y) >= 0 && b[last_index_of(
                b,
                y,
            )].parent_id == a[last_index_of(a, y)].parent_id,
    ensures
        reaches(b, x, target, f2),
    decreases f1,
{
    if x != target {
        let i = last_index_of(a, x);
        assert(last_index_of(a, x) >= 0);
        let p = a[i].parent_id->Some_0;
        lemma_reaches_transfer(a, b, p, target, (f1 - 1) as nat, (f2 - 1) as nat);
    }
}

/// No node from position `i` on is detached exactly when each of them
/// reaches the intent node.
pub proof fn lemma_detached_none(ns: Seq<SessionNodeView>, intent: Seq<char>, i: int)
    requires
        0 <= i <= ns.len(),
    ensures
        detached_from(ns, intent, i) is None <==> forall|j: int|
            i <= j < ns.len() ==> reaches(ns, (#[trigger] ns[j]).id, intent, ns.len() as nat),
        detached_from(ns, intent, i) matches Some(k) ==> i <= k < ns.len(),
    decreases ns.len() - i,
{
    if i < ns.len() {
        lemma_detached_none(ns, intent, i + 1);
    }
}

/// Nodes that differ only in what is not identifier or parent agree on
/// whether, and where, they fail to form one tree.
proof fn lemma_rooted_error_same(a: Seq<SessionNodeView>, b: Seq<SessionNodeView>, intent: Seq<char>)
    requires
        a.len() == b.len(),
        forall|j: int| 0 <= j < a.len() ==> (#[trigger] a[j]).id == b[j].id && a[j].parent_id
            == b[j].parent_id,
    ensures
        rooted_error(a, intent) == rooted_error(b, intent),
{
    assert forall|y: Seq<char>| last_index_of(a, y) == #[trigger] last_index_of(b, y) by {
        lemma_last_index_same_ids(a, b, y);
    }
    assert forall|x: Seq<char>|
        reaches(a, x, intent, a.len() as nat) == #[trigger] reaches(b, x, intent, a.len() as nat) by {
        assert forall|y: Seq<char>| #[trigger] last_index_of(a, y) >= 0 implies last_index_of(b, y) >= 0
            && b[last_index_of(b, y)].parent_id == a[last_index_of(a, y)].parent_id by {
            lemma_last_index_of(a, y);
        }
        assert forall|y: Seq<char>| #[trigger] last_index_of(b, y) >= 0 implies last_index_of(a, y) >= 0
            && a[last_index_of(a, y)].parent_id == b[last_index_of(b, y)].parent_id by {
            lemma_last_index_of(b, y);
        }
        if reaches(a, x, intent, a.len() as nat) {
            lemma_reaches_transfer(a, b, x, intent, a.len() as nat, a.len() as nat);
        }
        if reaches(b, x, intent, a.len() as nat) {
            lemma_reaches_transfer(b, a, x, intent, a.len() as nat, a.len() as nat);
        }
    }
    lemma_detached_same(a, b, intent, 0);
    let ii = last_index_of(a, intent);
    lemma_last_index_of(a, intent);
    assert(last_index_of(b, intent) == ii);
    if ii >= 0 {
        assert(a[ii].parent_id == b[ii].parent_id);
    }
    lemma_detached_none(a, intent, 0);
    match detached_from(a, intent, 0) {
        Some(k) => {
            assert(a[k].id == b[k].id);
        },
        None => {},
    }
}

proof fn lemma_detached_same(a: Seq<SessionNodeView>, b: Seq<SessionNodeView>, intent: Seq<char>, i: int)
    requires
        a.len() == b.len(),
        forall|j: int| 0 <= j < a.len() ==> (#[trigger] a[j]).id == b[j].id,
        forall|x: Seq<char>|
            reaches(a, x, intent, a.len() as nat) == #[trigger] reaches(b, x, intent, a.len() as nat),
    ensures
        detached_from(a, intent, i) == detached_from(b, intent, i),
    decreases a.len() - i,
{
    if 0 <= i < a.len() {
        assert(a[i].id == b[i].id);
        assert(reaches(a, a[i].id, intent, a.len() as nat) == reaches(b, b[i].id, intent, a.len() as nat));
        lemma_detached_same(a, b, intent, i + 1);
    }
}

/// Attaching a prompt under an existing node, and an artifact under that
/// prompt, keeps every node leading up to the intent node.
proof fn lemma_attach_rooted(
    ns: Seq<SessionNodeView>,
    intent: Seq<char>,
    pi: int,
    p: SessionNodeView,
    a: SessionNodeView,
)
    requires
        rooted_error(ns, intent) is None,
        last_index_of(ns, intent) >= 0,
        0 <= pi < ns.len(),
        p.id != a.id,
        last_index_of(ns, p.id) < 0,
        last_index_of(ns, a.id) < 0,
        p.parent_id == Some(ns[pi].id),
        a.parent_id == Some(p.id),
    ensures
        rooted_error(attach_nodes(ns, pi, p, a), intent) is None,
{
    let n = ns.len();
    let ns2 = attach_nodes(ns, pi, p, a);
    let ii = last_index_of(ns, intent);
    lemma_last_index_of(ns, intent);
    lemma_last_index_of(ns, p.id);
    lemma_last_index_of(ns, a.id);
    assert(intent != p.id && intent != a.id);
    lemma_attach_lookup(ns, pi, p, a, intent);
    assert(ns2[ii].parent_id == ns[ii].parent_id);
    assert forall|y: Seq<char>| #[trigger] last_index_of(ns, y) >= 0 implies last_index_of(ns2, y) >= 0
        && ns2[last_index_of(ns2, y)].parent_id == ns[last_index_of(ns, y)].parent_id by {
        lemma_last_index_of(ns, y);
        lemma_attach_lookup(ns, pi, p, a, y);
        assert(y != p.id && y != a.id);
    }
    lemma_detached_none(ns, intent, 0);
    lemma_attach_lookup(ns, pi, p, a, p.id);
    lemma_attach_lookup(ns, pi, p, a, a.id);
    let up = ns[pi].id;
    assert(reaches(ns, ns[pi].id, intent, n as nat));
    lemma_reaches_transfer(ns, ns2, up, intent, n as nat, n as nat);
    lemma_reaches_transfer(ns, ns2, up, intent, n as nat, (n + 1) as nat);
    assert(ns2[n as int] == p);
    assert(ns2[(n + 1) as int] == a);
    assert(reaches(ns2, p.id, intent, (n + 2) as nat));
    assert(reaches(ns2, p.id, intent, (n + 1) as nat));
    assert(reaches(ns2, a.id, intent, (n + 2) as nat));
    assert forall|j: int| 0 <= j < ns2.len() implies reaches(
        ns2,
        (#[trigger] ns2[j]).id,
        intent,
        ns2.len() as nat,
    ) by {
        if j < n {
            assert(ns2[j].id == ns[j].id);
            assert(reaches(ns, ns[j].id, intent, n as nat));
            lemma_reaches_transfer(ns, ns2, ns[j].id, intent, n as nat, (n + 2) as nat);
        }
    }
    lemma_detached_none(ns2, intent, 0);
}

pub proof fn lemma_attach_keeps_tree_valid(
    t: SessionTreeView,
    pi: int,
    pid: Seq<char>,
    aid: Seq<char>,
    plabel: Seq<char>,
    alabel: Seq<char>,
    prel: Seq<char>,
    arel: Seq<char>,
)
    requires
        tree_is_valid(t),
        0 <= pi < t.nodes.len(),
        t.nodes[pi].kind == NodeKind::Intent || t.nodes[pi].kind == NodeKind::Prompt,
        last_index_of(t.nodes, pid) < 0,
        last_index_of(t.nodes, aid) < 0,
        pid != aid,
    ensures
        tree_is_valid(
            SessionTreeView {
                current_node_id: pid,
                nodes: attach_nodes(
                    t.nodes,
                    pi,
                    prompt_node_view(pid, plabel, t.nodes[pi].id, aid, prel),
                    artifact_node_view(aid, alabel, pid, arel),
                ),
                ..t
            },
        ),
{
    let ns = t.nodes;
    let n = ns.len() as int;
    let p = prompt_node_view(pid, plabel, ns[pi].id, aid, prel);
    let a = artifact_node_view(aid, alabel, pid, arel);
    let ns2 = attach_nodes(ns, pi, p, a);
    let t2 = SessionTreeView { current_node_id: pid, nodes: ns2, ..t };
    assert(duplicate_from(ns, 0) is None);
    lemma_attach_unique(ns, pi, p, a);
    let ii = last_index_of(ns, t.intent_node_id);
    lemma_last_index_of(ns, t.intent_node_id);
    lemma_last_index_of(ns, pid);
    lemma_last_index_of(ns, aid);
    lemma_attach_lookup(ns, pi, p, a, t.intent_node_id);
    lemma_attach_lookup(ns, pi, p, a, pid);
    assert(last_index_of(ns2, t.intent_node_id) == ii);
    assert(ns2[ii].kind == ns[ii].kind);
    assert(ns2[n] == p);
    assert(current_candidate_error(ns2[n]) is None);
    lemma_attach_node_links(t, t2, pi, p, a);
    assert(parent_errors_from(ns, 0) is None) by {
        assert(node_errors_from(t, 0) is None);
    }
    lemma_attach_child_links(ns, pi, p, a);
    assert(rooted_error(ns, t.intent_node_id) is None);
    lemma_attach_rooted(ns, t.intent_node_id, pi, p, a);
}

/// The two node sequences differ at most in statuses, and only artifacts may
/// have changed status.
pub open spec fn statuses_of_artifacts_differ(a: Seq<SessionNodeView>, b: Seq<SessionNodeView>) -> bool {
    &&& a.len() == b.len()
    &&& forall|j: int|
        0 <= j < a.len() ==> (#[trigger] b[j]) == (SessionNodeView { status: b[j].status, ..a[j] })
    &&& forall|j: int|
        0 <= j < a.len() && (#[trigger] a[j]).kind != NodeKind::Artifact ==> a[j].status
            == b[j].status
}

proof fn lemma_last_index_same_ids(a: Seq<SessionNodeView>, b: Seq<SessionNodeView>, id: Seq<char>)
    requires
        a.len() == b.len(),
        forall|j: int| 0 <= j < a.len() ==> (#[trigger] a[j]).id == b[j].id,
    ensures
        last_index_of(a, id) == last_index_of(b, id),
    decreases a.len(),
{
    if a.len() > 0 {
        assert forall|j: int| 0 <= j < a.drop_last().len() implies (#[trigger] a.drop_last()[j]).id
            == b.drop_last()[j].id by {
            assert(a.drop_last()[j] == a[j]);
            assert(b.drop_last()[j] == b[j]);
        }
        lemma_last_index_same_ids(a.drop_last(), b.drop_last(), id);
    }
}

proof fn lemma_duplicate_from_same_ids(a: Seq<SessionNodeView>, b: Seq<SessionNodeView>, i: int)
    requires
        a.len() == b.len(),
        forall|j: int| 0 <= j < a.len() ==> (#[trigger] a[j]).id == b[j].id,
    ensures
        duplicate_from(a, i) == duplicate_from(b, i),
    decreases a.len() - i,
{
    if 0 <= i < a.len() {
        if exists|j: int| 0 <= j < i && a[j].id == a[i].id {
            let j = choose|j: int| 0 <= j < i && a[j].id == a[i].id;
            assert(b[j].id == b[i].id);
        }
        if exists|j: int| 0 <= j < i && b[j].id == b[i].id {
            let j = choose|j: int| 0 <= j < i && b[j].id == b[i].id;
            assert(a[j].id == a[i].id);
        }
        lemma_duplicate_from_same_ids(a, b, i + 1);
    }
}

proof fn lemma_duplicate_from_some(ns: Seq<SessionNodeView>, i: int)
    requires
        0 <= i,
    ensures
        duplicate_from(ns, i) matches Some(k) ==> i <= k < ns.len(),
    decreases ns.len() - i,
{
    if i < ns.len() {
        lemma_duplicate_from_some(ns, i + 1);
    }
}

pub proof fn lemma_node_errors_from_same(t1: SessionTreeView, t2: SessionTreeView, i: int)
    requires
        t2.intent_node_id == t1.intent_node_id,
        statuses_of_artifacts_differ(t1.nodes, t2.nodes),
    ensures
        node_errors_from(t1, i) == node_errors_from(t2, i),
    decreases t1.nodes.len() - i,
{
    let a = t1.nodes;
    let b = t2.nodes;
    if 0 <= i < a.len() {
        assert(b[i] == SessionNodeView { status: b[i].status, ..a[i] });
        assert forall|j: int| 0 <= j < a.len() implies (#[trigger] a[j]).id == b[j].id by {
            assert(b[j] == SessionNodeView { status: b[j].status, ..a[j] });
        }
        match a[i].parent_id {
            Some(p) => {
                lemma_last_index_same_ids(a, b, p);
                lemma_last_index_of(a, p);
                let pi = last_index_of(a, p);
                if pi >= 0 {
                    assert(b[pi] == SessionNodeView { status: b[pi].status, ..a[pi] });
                }
            },
            None => {},
        }
        assert(node_link_error(t1, a[i]) == node_link_error(t2, b[i]));
        lemma_node_errors_from_same(t1, t2, i + 1);
    }
}

proof fn lemma_child_errors_from_same(
    a: Seq<SessionNodeView>,
    b: Seq<SessionNodeView>,
    pa: SessionNodeView,
    pb: SessionNodeView,
    j: int,
)
    requires
        statuses_of_artifacts_differ(a, b),
        pa.id == pb.id,
        pa.kind == pb.kind,
        pa.children_ids == pb.children_ids,
    ensures
        child_errors_from(a, pa, j) == child_errors_from(b, pb, j),
    decreases pa.children_ids.len() - j,
{
    if 0 <= j < pa.children_ids.len() {
        let c = pa.children_ids[j];
        assert forall|k: int| 0 <= k < a.len() implies (#[trigger] a[k]).id == b[k].id by {
            assert(b[k] == SessionNodeView { status: b[k].status, ..a[k] });
        }
        lemma_last_index_same_ids(a, b, c);
        lemma_last_index_of(a, c);
        let ci = last_index_of(a, c);
        if ci >= 0 {
            assert(b[ci] == SessionNodeView { status: b[ci].status, ..a[ci] });
        }
        assert(child_link_error(a, pa, c) == child_link_error(b, pb, c));
        lemma_child_errors_from_same(a, b, pa, pb, j + 1);
    }
}

proof fn lemma_parent_errors_from_same(a: Seq<SessionNodeView>, b: Seq<SessionNodeView>, i: int)
    requires
        statuses_of_artifacts_differ(a, b),
    ensures
        parent_errors_from(a, i) == parent_errors_from(b, i),
    decreases a.len() - i,
{
    if 0 <= i < a.len() {
        assert(b[i] == SessionNodeView { status: b[i].status, ..a[i] });
        lemma_child_errors_from_same(a, b, a[i], b[i], 0);
        lemma_parent_errors_from_same(a, b, i + 1);
    }
}

/// Trees that differ only in the statuses of artifact nodes fail validation
/// in the same way: the checks read a status only on the current node, which
/// must not be an artifact.
pub proof fn lemma_tree_error_ignores_artifact_statuses(t1: SessionTreeView, t2: SessionTreeView)
    requires
        t2 == (SessionTreeView { nodes: t2.nodes, ..t1 }),
        statuses_of_artifacts_differ(t1.nodes, t2.nodes),
    ensures
        tree_error(t1) == tree_error(t2),
{
    let a = t1.nodes;
    let b = t2.nodes;
    assert(t2.intent_node_id == t1.intent_node_id);
    assert(t2.current_node_id == t1.current_node_id);
    assert forall|j: int| 0 <= j < a.len() implies (#[trigger] a[j]).id == b[j].id by {
        assert(b[j] == SessionNodeView { status: b[j].status, ..a[j] });
    }
    lemma_duplicate_from_same_ids(a, b, 0);
    match duplicate_from(a, 0) {
        Some(i) => {
            lemma_duplicate_from_some(a, 0);
            assert(a[i].id == b[i].id);
        },
        None => {},
    }
    lemma_last_index_same_ids(a, b, t1.intent_node_id);
    lemma_last_index_same_ids(a, b, t1.current_node_id);
    lemma_last_index_of(a, t1.intent_node_id);
    lemma_last_index_of(a, t1.current_node_id);
    let ii = last_index_of(a, t1.intent_node_id);
    let ci = last_index_of(a, t1.current_node_id);
    if ii >= 0 {
        assert(b[ii] == SessionNodeView { status: b[ii].status, ..a[ii] });
    }
    if ci >= 0 {
        assert(b[ci] == SessionNodeView { status: b[ci].status, ..a[ci] });
        if a[ci].kind != NodeKind::Artifact {
            assert(a[ci].status == b[ci].status);
        }
        assert(current_candidate_error(a[ci]) == current_candidate_error(b[ci]));
    }
    lemma_node_errors_from_same(t1, t2, 0);
    lemma_parent_errors_from_same(a, b, 0);
    assert forall|j: int| 0 <= j < a.len() implies (#[trigger] a[j]).id == b[j].id && a[j].parent_id
        == b[j].parent_id by {
        assert(b[j] == SessionNodeView { status: b[j].status, ..a[j] });
    }
    lemma_rooted_error_same(a, b, t1.intent_node_id);
}

/// Node `k` of `ns` carries identifier `id`.
pub open spec fn has_node(ns: Seq<SessionNodeView>, id: Seq<char>, k: int) -> bool {
    0 <= k < ns.len() && ns[k].id == id
}

/// No two nodes share an identifier.
pub open spec fn ids_unique(ns: Seq<SessionNodeView>) -> bool {
    forall|j: int, k: int| 0 <= k < j < ns.len() ==> #[trigger] ns[k].id != #[trigger] ns[j].id
}

/// The intent node exists and is an intent.
pub open spec fn intent_present(t: SessionTreeView) -> bool {
    exists|k: int| #[trigger] has_node(t.nodes, t.intent_node_id, k) && t.nodes[k].kind == NodeKind::Intent
}

/// The current node exists, is an intent or a prompt, and is proposed or accepted.
pub open spec fn current_present(t: SessionTreeView) -> bool {
    exists|k: int|
        #[trigger] has_node(t.nodes, t.current_node_id, k) && (t.nodes[k].kind == NodeKind::Intent
            || t.nodes[k].kind == NodeKind::Prompt) && (t.nodes[k].status == NodeStatus::Proposed
            || t.nodes[k].status == NodeStatus::Accepted)
}

/// Node `n` is the intent node, or has an existing parent of a compatible
/// kind that lists it as a child; only the intent node is an intent.
pub open spec fn linked_up(t: SessionTreeView, n: SessionNodeView) -> bool {
    if n.kind == NodeKind::Intent {
        n.id == t.intent_node_id
    } else {
        n.parent_id matches Some(p) && exists|k: int|
            #[trigger] has_node(t.nodes, p, k) && child_allowed(t.nodes[k].kind, n.kind)
                && t.nodes[k].children_ids.contains(n.id)
    }
}

/// Every child that node `n` lists exists, names `n` as its parent, and is
/// of a compatible kind.
pub open spec fn linked_down(ns: Seq<SessionNodeView>, n: SessionNodeView) -> bool {
    forall|c: Seq<char>|
        #[trigger] n.children_ids.contains(c) ==> exists|k: int|
            #[trigger] has_node(ns, c, k) && ns[k].parent_id == Some(n.id) && child_allowed(
                n.kind,
                ns[k].kind,
            )
}

/// From every node, the parent links lead to the intent node within as many
/// links as there are nodes: no cycles, no parts cut off from the intent.
pub open spec fn all_reach_intent(t: SessionTreeView) -> bool {
    forall|j: int|
        0 <= j < t.nodes.len() ==> reaches(
            t.nodes,
            (#[trigger] t.nodes[j]).id,
            t.intent_node_id,
            t.nodes.len() as nat,
        )
}

/// The structure that validation demands, stated directly: unique
/// identifiers; the intent node present; the current node present and
/// usable; every node linked up to its parent; every node linked down to
/// the children it lists; and one tree under the intent node, which has no
/// parent.
pub open spec fn tree_is_well_formed(t: SessionTreeView) -> bool {
    &&& ids_unique(t.nodes)
    &&& intent_present(t)
    &&& current_present(t)
    &&& forall|j: int| 0 <= j < t.nodes.len() ==> linked_up(t, #[trigger] t.nodes[j])
    &&& forall|j: int| 0 <= j < t.nodes.len() ==> linked_down(t.nodes, #[trigger] t.nodes[j])
    &&& intent_is_root(t)
    &&& all_reach_intent(t)
}

proof fn lemma_rooted(t: SessionTreeView)
    requires
        ids_unique(t.nodes),
        intent_present(t),
    ensures
        rooted_error(t.nodes, t.intent_node_id) is None <==> intent_is_root(t) && all_reach_intent(t),
{
    let ns = t.nodes;
    let k = choose|k: int| #[trigger] has_node(ns, t.intent_node_id, k) && ns[k].kind == NodeKind::Intent;
    lemma_lookup_any(ns, t.intent_node_id, k);
    lemma_detached_none(ns, t.intent_node_id, 0);
    if intent_is_root(t) {
        assert(has_node(ns, t.intent_node_id, k));
    }
    if ns[k].parent_id is None {
        assert forall|m: int| #[trigger] has_node(ns, t.intent_node_id, m) implies ns[m].parent_id is None by {
            lemma_lookup_any(ns, t.intent_node_id, m);
        }
    }
}

proof fn lemma_unique_ids(ns: Seq<SessionNodeView>)
    ensures
        duplicate_from(ns, 0) is None <==> ids_unique(ns),
{
    lemma_duplicate_from_none(ns, 0);
}

proof fn lemma_lookup_any(ns: Seq<SessionNodeView>, id: Seq<char>, k: int)
    requires
        ids_unique(ns),
        has_node(ns, id, k),
    ensures
        last_index_of(ns, id) == k,
{
    lemma_last_index_of(ns, id);
    let li = last_index_of(ns, id);
    if li != k {
        if li >= 0 {
            if li < k {
                assert(ns[li].id != ns[k].id);
            } else {
                assert(ns[k].id != ns[li].id);
            }
        }
    }
}

proof fn lemma_link_up(t: SessionTreeView, n: SessionNodeView)
    requires
        ids_unique(t.nodes),
    ensures
        node_link_error(t, n) is None <==> linked_up(t, n),
{
    let ns = t.nodes;
    if n.kind != NodeKind::Intent {
        if let Some(p) = n.parent_id {
            lemma_last_index_of(ns, p);
            let pi = last_index_of(ns, p);
            if node_link_error(t, n) is None {
                assert(has_node(ns, p, pi));
            }
            if linked_up(t, n) {
                let k = choose|k: int|
                    #[trigger] has_node(ns, p, k) && child_allowed(ns[k].kind, n.kind)
                        && ns[k].children_ids.contains(n.id);
                lemma_lookup_any(ns, p, k);
            }
        }
    }
}

proof fn lemma_link_down(ns: Seq<SessionNodeView>, n: SessionNodeView)
    requires
        ids_unique(ns),
    ensures
        child_errors_from(ns, n, 0) is None <==> linked_down(ns, n),
{
    lemma_child_errors_none(ns, n, 0);
    if child_errors_from(ns, n, 0) is None {
        assert forall|c: Seq<char>| #[trigger] n.children_ids.contains(c) implies exists|k: int|
            #[trigger] has_node(ns, c, k) && ns[k].parent_id == Some(n.id) && child_allowed(
                n.kind,
                ns[k].kind,
            ) by {
            let m = choose|m: int| 0 <= m < n.children_ids.len() && n.children_ids[m] == c;
            assert(child_link_error(ns, n, n.children_ids[m]) is None);
            lemma_last_index_of(ns, c);
            assert(has_node(ns, c, last_index_of(ns, c)));
        }
    }
    if linked_down(ns, n) {
        assert forall|m: int| 0 <= m < n.children_ids.len() implies child_link_error(
            ns,
            n,
            #[trigger] n.children_ids[m],
        ) is None by {
            let c = n.children_ids[m];
            assert(n.children_ids.contains(c));
            let k = choose|k: int|
                #[trigger] has_node(ns, c, k) && ns[k].parent_id == Some(n.id) && child_allowed(
                    n.kind,
                    ns[k].kind,
                );
            lemma_lookup_any(ns, c, k);
        }
    }
}

proof fn lemma_links_up(t: SessionTreeView)
    requires
        ids_unique(t.nodes),
    ensures
        node_errors_from(t, 0) is None <==> forall|j: int|
            0 <= j < t.nodes.len() ==> linked_up(t, #[trigger] t.nodes[j]),
{
    lemma_node_errors_none(t, 0);
    assert forall|j: int| 0 <= j < t.nodes.len() implies (node_link_error(t, t.nodes[j]) is None
        <==> linked_up(t, #[trigger] t.nodes[j])) by {
        lemma_link_up(t, t.nodes[j]);
    }
}

proof fn lemma_links_down(ns: Seq<SessionNodeView>)
    requires
        ids_unique(ns),
    ensures
        parent_errors_from(ns, 0) is None <==> forall|j: int|
            0 <= j < ns.len() ==> linked_down(ns, #[trigger] ns[j]),
{
    lemma_parent_errors_none(ns, 0);
    assert forall|j: int| 0 <= j < ns.len() implies (child_errors_from(ns, ns[j], 0) is None
        <==> linked_down(ns, #[trigger] ns[j])) by {
        lemma_link_down(ns, ns[j]);
    }
}

proof fn lemma_ends_present(t: SessionTreeView)
    requires
        ids_unique(t.nodes),
    ensures
        (last_index_of(t.nodes, t.intent_node_id) >= 0 && t.nodes[last_index_of(
            t.nodes,
            t.intent_node_id,
        )].kind == NodeKind::Intent) <==> intent_present(t),
        (last_index_of(t.nodes, t.current_node_id) >= 0 && current_candidate_error(
            t.nodes[last_index_of(t.nodes, t.current_node_id)],
        ) is None) <==> current_present(t),
{
    let ns = t.nodes;
    lemma_last_index_of(ns, t.intent_node_id);
    lemma_last_index_of(ns, t.current_node_id);
    let ii = last_index_of(ns, t.intent_node_id);
    let ci = last_index_of(ns, t.current_node_id);
    if ii >= 0 {
        assert(has_node(ns, t.intent_node_id, ii));
    }
    if intent_present(t) {
        let k = choose|k: int| #[trigger] has_node(ns, t.intent_node_id, k) && ns[k].kind
            == NodeKind::Intent;
        lemma_lookup_any(ns, t.intent_node_id, k);
    }
    if ci >= 0 {
        assert(has_node(ns, t.current_node_id, ci));
    }
    if current_present(t) {
        let k = choose|k: int|
            #[trigger] has_node(ns, t.current_node_id, k) && (ns[k].kind == NodeKind::Intent
                || ns[k].kind == NodeKind::Prompt) && (ns[k].status == NodeStatus::Proposed
                || ns[k].status == NodeStatus::Accepted);
        lemma_lookup_any(ns, t.current_node_id, k);
    }
}

/// Validation accepts a tree exactly when it is well formed.
pub proof fn law_valid_iff_well_formed(t: SessionTreeView)
    ensures
        tree_is_valid(t) <==> tree_is_well_formed(t),
{
    lemma_unique_ids(t.nodes);
    if ids_unique(t.nodes) {
        lemma_ends_present(t);
        lemma_links_up(t);
        lemma_links_down(t.nodes);
        if intent_present(t) {
            lemma_rooted(t);
        }
    }
}

/// The shape of a finished walk up the parent links: it ends at `id`, every
/// identifier names a node, the top node has no parent, and each node's
/// parent is the one before it.
proof fn lemma_walk_shape(ns: Seq<SessionNodeView>, id: Seq<char>, f: nat)
    requires
        lineage_walk(ns, id, f) matches Some(Ok(_)),
    ensures
        lineage_walk(ns, id, f) matches Some(Ok(s)) && s.len() > 0 && s.last() == id
            && (forall|k: int| 0 <= k < s.len() ==> last_index_of(ns, #[trigger] s[k]) >= 0)
            && ns[last_index_of(ns, s[0])].parent_id is None && (forall|k: int|
            0 < k < s.len() ==> ns[last_index_of(ns, #[trigger] s[k])].parent_id == Some(s[k - 1])),
    decreases f,
{
    lemma_last_index_of(ns, id);
    let i = last_index_of(ns, id);
    match ns[i].parent_id {
        None => {},
        Some(p) => {
            lemma_walk_shape(ns, p, (f - 1) as nat);
            let s1 = lineage_walk(ns, p, (f - 1) as nat)->0->Ok_0;
            let s = s1.push(ns[i].id);
            assert forall|k: int| 0 <= k < s.len() implies last_index_of(ns, #[trigger] s[k]) >= 0 by {
                if k < s1.len() {
                    assert(s[k] == s1[k]);
                }
            }
            assert forall|k: int| 0 < k < s.len() implies ns[last_index_of(ns, #[trigger] s[k])].parent_id
                == Some(s[k - 1]) by {
                if k < s1.len() {
                    assert(s[k] == s1[k] && s[k - 1] == s1[k - 1]);
                }
            }
            assert(s[0] == s1[0]);
        },
    }
}

/// On a well-formed tree whose intent node has no parent, a walk that ends
/// from an existing node ends without error.
proof fn lemma_walk_ok(t: SessionTreeView, id: Seq<char>, f: nat)
    requires
        tree_is_well_formed(t),
        intent_is_root(t),
        last_index_of(t.nodes, id) >= 0,
        lineage_walk(t.nodes, id, f) is Some,
    ensures
        lineage_walk(t.nodes, id, f) matches Some(Ok(_)),
    decreases f,
{
    let ns = t.nodes;
    lemma_last_index_of(ns, id);
    let i = last_index_of(ns, id);
    assert(linked_up(t, ns[i]));
    match ns[i].parent_id {
        None => {},
        Some(p) => {
            if ns[i].kind == NodeKind::Intent {
                lemma_lookup_any(ns, t.intent_node_id, i);
            } else {
                let k = choose|k: int|
                    #[trigger] has_node(ns, p, k) && child_allowed(ns[k].kind, ns[i].kind)
                        && ns[k].children_ids.contains(ns[i].id);
                lemma_lookup_any(ns, p, k);
                lemma_walk_ok(t, p, (f - 1) as nat);
            }
        },
    }
}

/// A walk that meets a parentless, existing intent node within `f` links
/// ends within `f + 1` steps.
proof fn lemma_reaching_walk_ends(ns: Seq<SessionNodeView>, x: Seq<char>, intent: Seq<char>, f: nat)
    requires
        reaches(ns, x, intent, f),
        last_index_of(ns, intent) >= 0,
        ns[last_index_of(ns, intent)].parent_id is None,
    ensures
        lineage_walk(ns, x, f + 1) is Some,
    decreases f,
{
    if x != intent {
        let i = last_index_of(ns, x);
        let p = ns[i].parent_id->Some_0;
        lemma_reaching_walk_ends(ns, p, intent, (f - 1) as nat);
    }
}

/// The intent node has no parent link.
pub open spec fn intent_is_root(t: SessionTreeView) -> bool {
    forall|k: int| #[trigger] has_node(t.nodes, t.intent_node_id, k) ==> t.nodes[k].parent_id is None
}

/// On a valid tree the walk up from the current node ends, and the lineage
/// succeeds: it starts at the intent node, ends at the current node, and
/// names no node twice.
pub proof fn law_lineage_of_valid_tree(t: SessionTreeView)
    requires
        tree_is_valid(t),
    ensures
        lineage_defined(t),
        active_lineage(t) matches Ok(l) && l.len() > 0 && l[0] == t.intent_node_id && l.last()
            == t.current_node_id && forall|a: int, b: int|
            0 <= a < b < l.len() ==> #[trigger] l[a] != #[trigger] l[b],
{
    let ns = t.nodes;
    law_valid_iff_well_formed(t);
    let kc = choose|k: int|
        #[trigger] has_node(ns, t.current_node_id, k) && (ns[k].kind == NodeKind::Intent
            || ns[k].kind == NodeKind::Prompt) && (ns[k].status == NodeStatus::Proposed
            || ns[k].status == NodeStatus::Accepted);
    lemma_lookup_any(ns, t.current_node_id, kc);
    let ki = choose|k: int| #[trigger] has_node(ns, t.intent_node_id, k) && ns[k].kind
        == NodeKind::Intent;
    lemma_lookup_any(ns, t.intent_node_id, ki);
    assert(reaches(ns, ns[kc].id, t.intent_node_id, ns.len() as nat));
    lemma_reaching_walk_ends(ns, t.current_node_id, t.intent_node_id, ns.len() as nat);
    assert(lineage_walk(ns, t.current_node_id, (ns.len() + 1) as nat) is Some);
    assert(lineage_defined(t));
    let f = lineage_fuel(t);
    lemma_walk_ok(t, t.current_node_id, f);
    lemma_walk_shape(ns, t.current_node_id, f);
    let l = lineage_walk(ns, t.current_node_id, f)->0->Ok_0;
    // The top node has no parent, so it is the intent node.
    let top = last_index_of(ns, l[0]);
    lemma_last_index_of(ns, l[0]);
    assert(linked_up(t, ns[top]));
    assert(l[0] == t.intent_node_id);
    assert forall|a: int, b: int| 0 <= a < b < l.len() implies #[trigger] l[a] != #[trigger] l[b] by {
        if l[a] == l[b] {
            lemma_repeat_reaches_top(ns, l, a, b);
            assert(l[0] == l[b - a]);
            assert(ns[last_index_of(ns, l[b - a])].parent_id == Some(l[b - a - 1]));
        }
    }
}

/// A repeated identifier in a walk repeats all the way up to the top.
proof fn lemma_repeat_reaches_top(ns: Seq<SessionNodeView>, l: Seq<Seq<char>>, a: int, b: int)
    requires
        0 <= a < b < l.len(),
        l[a] == l[b],
        forall|k: int| 0 < k < l.len() ==> ns[last_index_of(ns, #[trigger] l[k])].parent_id == Some(l[k - 1]),
    ensures
        l[0] == l[b - a],
    decreases a,
{
    if a > 0 {
        assert(ns[last_index_of(ns, l[a])].parent_id == Some(l[a - 1]));
        assert(ns[last_index_of(ns, l[b])].parent_id == Some(l[b - 1]));
        lemma_repeat_reaches_top(ns, l, a - 1, b - 1);
    }
}

/// The tree after hanging a chain of prompts below the current node: each
/// prompt goes below the one before it, carries one artifact, and becomes
/// the current node. Labels and payload references repeat the identifiers.
pub open spec fn prompt_chain(t: SessionTreeView, pids: Seq<Seq<char>>, aids: Seq<Seq<char>>) -> SessionTreeView
    decreases pids.len(),
{
    if pids.len() == 0 || aids.len() < pids.len() {
        t
    } else {
        let prev = prompt_chain(t, pids.drop_last(), aids.take(pids.len() - 1));
        let pid = pids.last();
        let aid = aids[pids.len() - 1];
        let pi = last_index_of(prev.nodes, prev.current_node_id);
        SessionTreeView {
            current_node_id: pid,
            nodes: attach_nodes(
                prev.nodes,
                pi,
                prompt_node_view(pid, pid, prev.current_node_id, aid, pid),
                artifact_node_view(aid, aid, pid, aid),
            ),
            ..prev
        }
    }
}

/// The identifiers of a chain are new to `t` and to each other.
pub open spec fn chain_ids_fresh(t: SessionTreeView, pids: Seq<Seq<char>>, aids: Seq<Seq<char>>) -> bool {
    &&& pids.len() == aids.len()
    &&& forall|i: int| 0 <= i < pids.len() ==> last_index_of(t.nodes, #[trigger] pids[i]) < 0
    &&& forall|i: int| 0 <= i < aids.len() ==> last_index_of(t.nodes, #[trigger] aids[i]) < 0
    &&& forall|i: int, j: int| 0 <= i < pids.len() && 0 <= j < aids.len() ==> #[trigger] pids[i] != #[trigger] aids[j]
    &&& forall|i: int, j: int| 0 <= i < j < pids.len() ==> #[trigger] pids[i] != #[trigger] pids[j]
    &&& forall|i: int, j: int| 0 <= i < j < aids.len() ==> #[trigger] aids[i] != #[trigger] aids[j]
}

proof fn lemma_prompt_chain(t: SessionTreeView, pids: Seq<Seq<char>>, aids: Seq<Seq<char>>)
    requires
        tree_is_valid(t),
        chain_ids_fresh(t, pids, aids),
    ensures
        tree_is_valid(prompt_chain(t, pids, aids)),
        pids.len() > 0 ==> prompt_chain(t, pids, aids).current_node_id == pids.last(),
        prompt_chain(t, pids, aids).intent_node_id == t.intent_node_id,
        forall|id: Seq<char>|
            last_index_of(t.nodes, id) < 0 && !pids.contains(id) && !aids.contains(id)
                ==> #[trigger] last_index_of(prompt_chain(t, pids, aids).nodes, id) < 0,
    decreases pids.len(),
{
    if pids.len() > 0 {
        let n = pids.len() - 1;
        let ps = pids.drop_last();
        let as_ = aids.take(n);
        assert(chain_ids_fresh(t, ps, as_)) by {
            assert forall|i: int, j: int| 0 <= i < ps.len() && 0 <= j < as_.len() implies #[trigger] ps[i]
                != #[trigger] as_[j] by {
                assert(ps[i] == pids[i] && as_[j] == aids[j]);
            }
            assert forall|i: int, j: int| 0 <= i < j < ps.len() implies #[trigger] ps[i]
                != #[trigger] ps[j] by {
                assert(ps[i] == pids[i] && ps[j] == pids[j]);
            }
            assert forall|i: int, j: int| 0 <= i < j < as_.len() implies #[trigger] as_[i]
                != #[trigger] as_[j] by {
                assert(as_[i] == aids[i] && as_[j] == aids[j]);
            }
            assert forall|i: int| 0 <= i < ps.len() implies last_index_of(t.nodes, #[trigger] ps[i]) < 0 by {
                assert(ps[i] == pids[i]);
            }
            assert forall|i: int| 0 <= i < as_.len() implies last_index_of(t.nodes, #[trigger] as_[i]) < 0 by {
                assert(as_[i] == aids[i]);
            }
        }
        lemma_prompt_chain(t, ps, as_);
        let prev = prompt_chain(t, ps, as_);
        let pid = pids[n];
        let aid = aids[n];
        assert(!ps.contains(pid)) by {
            if ps.contains(pid) {
                let i = choose|i: int| 0 <= i < ps.len() && ps[i] == pid;
                assert(pids[i] == pids[n]);
            }
        }
        assert(!as_.contains(pid)) by {
            if as_.contains(pid) {
                let j = choose|j: int| 0 <= j < as_.len() && as_[j] == pid;
                assert(pids[n] != aids[j]);
            }
        }
        assert(!ps.contains(aid)) by {
            if ps.contains(aid) {
                let i = choose|i: int| 0 <= i < ps.len() && ps[i] == aid;
                assert(pids[i] != aids[n]);
            }
        }
        assert(!as_.contains(aid)) by {
            if as_.contains(aid) {
                let j = choose|j: int| 0 <= j < as_.len() && as_[j] == aid;
                assert(aids[j] == aids[n]);
            }
        }
        assert(last_index_of(t.nodes, pid) < 0);
        assert(last_index_of(t.nodes, aid) < 0);
        assert(last_index_of(prev.nodes, pid) < 0);
        assert(last_index_of(prev.nodes, aid) < 0);
        assert(pid != aid);
        law_valid_iff_well_formed(prev);
        let kc = choose|k: int|
            #[trigger] has_node(prev.nodes, prev.current_node_id, k) && (prev.nodes[k].kind
                == NodeKind::Intent || prev.nodes[k].kind == NodeKind::Prompt) && (prev.nodes[k].status
                == NodeStatus::Proposed || prev.nodes[k].status == NodeStatus::Accepted);
        lemma_lookup_any(prev.nodes, prev.current_node_id, kc);
        let pi = last_index_of(prev.nodes, prev.current_node_id);
        assert(pids.drop_last() == ps);
        lemma_attach_keeps_tree_valid(prev, pi, pid, aid, pid, aid, pid, aid);
        assert(prev.nodes[pi].id == prev.current_node_id);
        let next = prompt_chain(t, pids, aids);
        assert forall|id: Seq<char>|
            last_index_of(t.nodes, id) < 0 && !pids.contains(id) && !aids.contains(id)
                implies #[trigger] last_index_of(next.nodes, id) < 0 by {
            if ps.contains(id) {
                let i = choose|i: int| 0 <= i < ps.len() && ps[i] == id;
                assert(pids[i] == id);
            }
            if as_.contains(id) {
                let j = choose|j: int| 0 <= j < as_.len() && as_[j] == id;
                assert(aids[j] == id);
            }
            assert(id != pid);
            assert(id != aid);
            lemma_attach_lookup(
                prev.nodes,
                pi,
                prompt_node_view(pid, pid, prev.current_node_id, aid, pid),
                artifact_node_view(aid, aid, pid, aid),
                id,
            );
        }
    }
}

/// Hanging a chain of prompts, each with one artifact and each below the one
/// before, under the current node of a valid tree keeps it valid at every
/// depth, with the last prompt as the current node, provided the chain's
/// identifiers are new and distinct; the artifacts may carry any status.
pub proof fn law_prompt_chain_is_valid(t: SessionTreeView, pids: Seq<Seq<char>>, aids: Seq<Seq<char>>)
    requires
        tree_is_valid(t),
        chain_ids_fresh(t, pids, aids),
    ensures
        forall|d: int|
            0 <= d <= pids.len() ==> tree_is_valid(#[trigger] prompt_chain(t, pids.take(d), aids.take(d))),
        pids.len() > 0 ==> prompt_chain(t, pids, aids).current_node_id == pids.last(),
        forall|t2: SessionTreeView|
            t2 == (SessionTreeView { nodes: t2.nodes, ..prompt_chain(t, pids, aids) })
                && #[trigger] statuses_of_artifacts_differ(prompt_chain(t, pids, aids).nodes, t2.nodes)
                ==> tree_is_valid(t2),
{
    assert forall|t2: SessionTreeView|
        t2 == (SessionTreeView { nodes: t2.nodes, ..prompt_chain(t, pids, aids) })
            && #[trigger] statuses_of_artifacts_differ(prompt_chain(t, pids, aids).nodes, t2.nodes)
            implies tree_is_valid(t2) by {
        lemma_prompt_chain(t, pids, aids);
        lemma_tree_error_ignores_artifact_statuses(prompt_chain(t, pids, aids), t2);
    }
    assert forall|d: int| 0 <= d <= pids.len() implies tree_is_valid(
        #[trigger] prompt_chain(t, pids.take(d), aids.take(d)),
    ) by {
        let ps = pids.take(d);
        let as_ = aids.take(d);
        assert forall|i: int, j: int| 0 <= i < ps.len() && 0 <= j < as_.len() implies #[trigger] ps[i]
            != #[trigger] as_[j] by {
            assert(ps[i] == pids[i] && as_[j] == aids[j]);
        }
        assert forall|i: int, j: int| 0 <= i < j < ps.len() implies #[trigger] ps[i] != #[trigger] ps[j] by {
            assert(ps[i] == pids[i] && ps[j] == pids[j]);
        }
        assert forall|i: int, j: int| 0 <= i < j < as_.len() implies #[trigger] as_[i] != #[trigger] as_[j] by {
            assert(as_[i] == aids[i] && as_[j] == aids[j]);
        }
        assert forall|i: int| 0 <= i < ps.len() implies last_index_of(t.nodes, #[trigger] ps[i]) < 0 by {
            assert(ps[i] == pids[i]);
        }
        assert forall|i: int| 0 <= i < as_.len() implies last_index_of(t.nodes, #[trigger] as_[i]) < 0 by {
            assert(as_[i] == aids[i]);
        }
        lemma_prompt_chain(t, ps, as_);
    }
    assert(pids.take(pids.len() as int) =~= pids);
    assert(aids.take(aids.len() as int) =~= aids);
    lemma_prompt_chain(t, pids, aids);
}

} // verus!
