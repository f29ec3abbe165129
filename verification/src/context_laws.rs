//! Laws of the session model that span functions: what context may be used,
//! how packed context respects its budget, how statuses move, and that moving
//! the current node keeps a session valid.
use vstd::prelude::*;

use crate::domain::{
    active_lineage, collect_context, context_eligible, current_candidate_error, duplicate_from,
    eligible_context, lineage_children,
    first_index_of, last_index_of, lemma_collect_context_props, lemma_first_index_of,
    lemma_last_index_of, node_errors_from, parent_errors_from, set_current_outcome,
    status_transition_allowed, tree_error, tree_is_valid, NodeKind, NodeStatus, SessionNodeView,
    SessionTreeView,
};
use crate::orchestrator::{
    append_unique, entry_text, pack_from, token_estimate, packed_context, resolve_inputs, resolved_context,
    ContextEntryView, ContextPackView, OrchestrationErrorView,
};
use crate::storage::{label_prefix, label_text, LabelKind};
use crate::tree_laws::{
    ids_unique, lemma_node_errors_from_same, lemma_unique_lookup, statuses_of_artifacts_differ,
};

verus! {

/// Some node with identifier `id` is an accepted artifact.
pub open spec fn names_accepted_artifact(ns: Seq<SessionNodeView>, id: Seq<char>) -> bool {
    exists|j: int| 0 <= j < ns.len() && ns[j].id == id && context_eligible(#[trigger] ns[j])
}

/// Each identifier occurs once and names an accepted artifact.
pub open spec fn usable_context(ns: Seq<SessionNodeView>, ids: Seq<Seq<char>>) -> bool {
    &&& ids.no_duplicates()
    &&& forall|k: int| 0 <= k < ids.len() ==> names_accepted_artifact(ns, #[trigger] ids[k])
}

proof fn lemma_last_index_names(ns: Seq<SessionNodeView>, id: Seq<char>)
    requires
        last_index_of(ns, id) >= 0,
        context_eligible(ns[last_index_of(ns, id)]),
    ensures
        names_accepted_artifact(ns, id),
{
    lemma_last_index_of(ns, id);
    let j = last_index_of(ns, id);
    assert(ns[j].id == id && context_eligible(ns[j]));
}

/// The context eligible at the current node holds each identifier once, and
/// each names an accepted artifact: rejected and superseded artifacts are
/// never context.
pub proof fn law_eligible_context_is_usable(t: SessionTreeView)
    requires
        eligible_context(t) is Ok,
    ensures
        usable_context(t.nodes, eligible_context(t)->Ok_0),
{
    let ns = t.nodes;
    let lin = crate::domain::active_lineage(t)->Ok_0;
    let cands = ns[last_index_of(ns, t.current_node_id)].input_node_ids
        + crate::domain::lineage_children(ns, lin);
    lemma_collect_context_props(ns, cands, seq![]);
    let xs = collect_context(ns, cands, seq![]);
    assert(xs == eligible_context(t)->Ok_0);
    assert forall|k: int| 0 <= k < xs.len() implies names_accepted_artifact(ns, #[trigger] xs[k]) by {
        lemma_last_index_names(ns, xs[k]);
    }
}

/// Collection keeps what it was given and adds every eligible candidate.
proof fn lemma_collect_keeps(ns: Seq<SessionNodeView>, cands: Seq<Seq<char>>, acc: Seq<Seq<char>>)
    ensures
        forall|x: Seq<char>| acc.contains(x) ==> #[trigger] collect_context(ns, cands, acc).contains(x),
        forall|k: int|
            0 <= k < cands.len() && last_index_of(ns, cands[k]) >= 0 && context_eligible(
                ns[last_index_of(ns, cands[k])],
            ) ==> collect_context(ns, cands, acc).contains(#[trigger] cands[k]),
    decreases cands.len(),
{
    if cands.len() > 0 {
        let c = cands[0];
        let i = last_index_of(ns, c);
        let acc2 = if i >= 0 && context_eligible(ns[i]) && !acc.contains(c) {
            acc.push(c)
        } else {
            acc
        };
        lemma_collect_keeps(ns, cands.drop_first(), acc2);
        let r = collect_context(ns, cands, acc);
        assert(r == collect_context(ns, cands.drop_first(), acc2));
        assert forall|x: Seq<char>| acc.contains(x) implies #[trigger] r.contains(x) by {
            if acc.contains(x) {
                let j = choose|j: int| 0 <= j < acc.len() && acc[j] == x;
                assert(acc2[j] == x);
                assert(acc2.contains(x));
            }
        }
        assert forall|k: int|
            0 <= k < cands.len() && last_index_of(ns, cands[k]) >= 0 && context_eligible(
                ns[last_index_of(ns, cands[k])],
            ) implies r.contains(#[trigger] cands[k]) by {
            if k == 0 {
                if !acc.contains(c) {
                    assert(acc2[acc.len() as int] == c);
                    assert(acc2.contains(c));
                } else {
                    let j = choose|j: int| 0 <= j < acc.len() && acc[j] == c;
                    assert(acc2[j] == c);
                    assert(acc2.contains(c));
                }
            } else {
                assert(cands.drop_first()[k - 1] == cands[k]);
            }
        }
    }
}

/// The children of every prompt on a lineage are among its listed children.
proof fn lemma_lineage_children_has(ns: Seq<SessionNodeView>, lin: Seq<Seq<char>>, k: int, c: Seq<char>)
    requires
        0 <= k < lin.len(),
        last_index_of(ns, lin[k]) >= 0,
        ns[last_index_of(ns, lin[k])].kind == NodeKind::Prompt,
        ns[last_index_of(ns, lin[k])].children_ids.contains(c),
    ensures
        lineage_children(ns, lin).contains(c),
    decreases k,
{
    let i = last_index_of(ns, lin[0]);
    let head = if i >= 0 && ns[i].kind == NodeKind::Prompt {
        ns[i].children_ids
    } else {
        seq![]
    };
    let rest = lineage_children(ns, lin.drop_first());
    assert(lineage_children(ns, lin) == head + rest);
    if k == 0 {
        let j = choose|j: int| 0 <= j < head.len() && head[j] == c;
        assert((head + rest)[j] == c);
    } else {
        assert(lin.drop_first()[k - 1] == lin[k]);
        lemma_lineage_children_has(ns, lin.drop_first(), k - 1, c);
        let j = choose|j: int| 0 <= j < rest.len() && rest[j] == c;
        assert((head + rest)[head.len() + j] == c);
    }
}

/// The context at the current node misses no accepted artifact that it may
/// use: every accepted artifact listed as a child of any prompt on the
/// active lineage, and every accepted artifact that the current node names as
/// an input, is in it.
pub proof fn law_eligible_context_is_complete(t: SessionTreeView)
    requires
        active_lineage(t) is Ok,
    ensures
        ({
            let ns = t.nodes;
            let lin = active_lineage(t)->Ok_0;
            let ctx = eligible_context(t)->Ok_0;
            &&& eligible_context(t) is Ok
            &&& forall|k: int, c: Seq<char>|
                0 <= k < lin.len() && last_index_of(ns, #[trigger] lin[k]) >= 0 && ns[last_index_of(
                    ns,
                    lin[k],
                )].kind == NodeKind::Prompt && #[trigger] ns[last_index_of(ns, lin[k])].children_ids.contains(c)
                    && last_index_of(ns, c) >= 0 && context_eligible(ns[last_index_of(ns, c)])
                    ==> ctx.contains(c)
            &&& forall|c: Seq<char>|
                #[trigger] ns[last_index_of(ns, t.current_node_id)].input_node_ids.contains(c)
                    && last_index_of(ns, c) >= 0 && context_eligible(ns[last_index_of(ns, c)])
                    ==> ctx.contains(c)
        }),
{
    let ns = t.nodes;
    let lin = active_lineage(t)->Ok_0;
    let inputs = ns[last_index_of(ns, t.current_node_id)].input_node_ids;
    let kids = crate::domain::lineage_children(ns, lin);
    let cands = inputs + kids;
    lemma_collect_keeps(ns, cands, seq![]);
    let ctx = eligible_context(t)->Ok_0;
    assert(ctx == collect_context(ns, cands, seq![]));
    assert forall|k: int, c: Seq<char>|
        0 <= k < lin.len() && last_index_of(ns, #[trigger] lin[k]) >= 0 && ns[last_index_of(
            ns,
            lin[k],
        )].kind == NodeKind::Prompt && #[trigger] ns[last_index_of(ns, lin[k])].children_ids.contains(c)
            && last_index_of(ns, c) >= 0 && context_eligible(ns[last_index_of(ns, c)]) implies ctx.contains(c) by {
        lemma_lineage_children_has(ns, lin, k, c);
        let j = choose|j: int| 0 <= j < kids.len() && kids[j] == c;
        assert(cands[inputs.len() + j] == c);
    }
    assert forall|c: Seq<char>|
        #[trigger] inputs.contains(c) && last_index_of(ns, c) >= 0 && context_eligible(
            ns[last_index_of(ns, c)],
        ) implies ctx.contains(c) by {
        let j = choose|j: int| 0 <= j < inputs.len() && inputs[j] == c;
        assert(cands[j] == c);
    }
}

proof fn lemma_resolve_inputs_usable(
    ns: Seq<SessionNodeView>,
    inputs: Seq<Seq<char>>,
    acc: Seq<Seq<char>>,
)
    requires
        usable_context(ns, acc),
        resolve_inputs(ns, inputs, acc) is Ok,
    ensures
        usable_context(ns, resolve_inputs(ns, inputs, acc)->Ok_0),
    decreases inputs.len(),
{
    if inputs.len() > 0 {
        let c = inputs[0];
        let i = first_index_of(ns, c);
        lemma_first_index_of(ns, c);
        let acc2 = if acc.contains(c) {
            acc
        } else {
            acc.push(c)
        };
        if !acc.contains(c) {
            assert(ns[i].id == c && context_eligible(ns[i]));
            assert forall|k: int| 0 <= k < acc2.len() implies names_accepted_artifact(
                ns,
                #[trigger] acc2[k],
            ) by {
                if k < acc.len() {
                    assert(acc2[k] == acc[k]);
                }
            }
            assert forall|a: int, b: int| 0 <= a < b < acc2.len() implies acc2[a] != acc2[b] by {
                if b == acc.len() {
                    assert(acc2[a] == acc[a]);
                }
            }
        }
        lemma_resolve_inputs_usable(ns, inputs.drop_first(), acc2);
    }
}

proof fn lemma_append_unique_usable(
    ns: Seq<SessionNodeView>,
    acc: Seq<Seq<char>>,
    xs: Seq<Seq<char>>,
)
    requires
        usable_context(ns, acc),
        forall|k: int| 0 <= k < xs.len() ==> names_accepted_artifact(ns, #[trigger] xs[k]),
    ensures
        usable_context(ns, append_unique(acc, xs)),
    decreases xs.len(),
{
    if xs.len() > 0 {
        let acc2 = if acc.contains(xs[0]) {
            acc
        } else {
            acc.push(xs[0])
        };
        if !acc.contains(xs[0]) {
            assert(names_accepted_artifact(ns, xs[0]));
            assert forall|k: int| 0 <= k < acc2.len() implies names_accepted_artifact(
                ns,
                #[trigger] acc2[k],
            ) by {
                if k < acc.len() {
                    assert(acc2[k] == acc[k]);
                }
            }
            assert forall|a: int, b: int| 0 <= a < b < acc2.len() implies acc2[a] != acc2[b] by {
                if b == acc.len() {
                    assert(acc2[a] == acc[a]);
                }
            }
        }
        assert forall|k: int| 0 <= k < xs.drop_first().len() implies names_accepted_artifact(
            ns,
            #[trigger] xs.drop_first()[k],
        ) by {
            assert(xs.drop_first()[k] == xs[k + 1]);
        }
        lemma_append_unique_usable(ns, acc2, xs.drop_first());
    }
}

/// The context of a prompt, requested inputs and lineage context together,
/// holds each identifier once, and each names an accepted artifact.
pub proof fn law_resolved_context_is_usable(t: SessionTreeView, inputs: Seq<Seq<char>>)
    requires
        resolved_context(t, inputs) is Ok,
    ensures
        usable_context(t.nodes, resolved_context(t, inputs)->Ok_0),
{
    let ns = t.nodes;
    lemma_resolve_inputs_usable(ns, inputs, seq![]);
    let acc = resolve_inputs(ns, inputs, seq![])->Ok_0;
    law_eligible_context_is_usable(t);
    let xs = eligible_context(t)->Ok_0;
    lemma_append_unique_usable(ns, acc, xs);
}

proof fn lemma_resolve_inputs_merge(
    ns: Seq<SessionNodeView>,
    inputs: Seq<Seq<char>>,
    acc: Seq<Seq<char>>,
)
    requires
        resolve_inputs(ns, inputs, acc) is Ok,
    ensures
        resolve_inputs(ns, inputs, acc) == Ok::<Seq<Seq<char>>, OrchestrationErrorView>(
            append_unique(acc, inputs),
        ),
    decreases inputs.len(),
{
    if inputs.len() > 0 {
        let c = inputs[0];
        let acc2 = if acc.contains(c) {
            acc
        } else {
            acc.push(c)
        };
        lemma_resolve_inputs_merge(ns, inputs.drop_first(), acc2);
    }
}

/// The context of a prompt is the requested inputs followed by the lineage
/// context, each identifier kept at its first occurrence.
pub proof fn law_resolved_context_merges(t: SessionTreeView, inputs: Seq<Seq<char>>)
    requires
        resolved_context(t, inputs) is Ok,
    ensures
        resolved_context(t, inputs) == Ok::<Seq<Seq<char>>, OrchestrationErrorView>(
            append_unique(append_unique(seq![], inputs), eligible_context(t)->Ok_0),
        ),
{
    lemma_resolve_inputs_merge(t.nodes, inputs, seq![]);
}

/// The first node with identifier `id` is an accepted artifact, as input
/// resolution demands.
pub open spec fn first_node_accepted(ns: Seq<SessionNodeView>, id: Seq<char>) -> bool {
    first_index_of(ns, id) >= 0 && context_eligible(ns[first_index_of(ns, id)])
}

/// Identifiers whose first nodes are accepted artifacts are all accepted as inputs.
proof fn lemma_resolve_accepted_inputs(
    ns: Seq<SessionNodeView>,
    ys: Seq<Seq<char>>,
    acc: Seq<Seq<char>>,
)
    requires
        forall|k: int| 0 <= k < ys.len() ==> first_node_accepted(ns, #[trigger] ys[k]),
    ensures
        resolve_inputs(ns, ys, acc) is Ok,
    decreases ys.len(),
{
    if ys.len() > 0 {
        assert(first_node_accepted(ns, ys[0]));
        let acc2 = if acc.contains(ys[0]) {
            acc
        } else {
            acc.push(ys[0])
        };
        assert forall|k: int| 0 <= k < ys.drop_first().len() implies first_node_accepted(
            ns,
            #[trigger] ys.drop_first()[k],
        ) by {
            assert(ys.drop_first()[k] == ys[k + 1]);
        }
        lemma_resolve_accepted_inputs(ns, ys.drop_first(), acc2);
    }
}

/// Resolution keeps only identifiers whose first nodes are accepted artifacts.
proof fn lemma_resolved_inputs_accepted(
    ns: Seq<SessionNodeView>,
    inputs: Seq<Seq<char>>,
    acc: Seq<Seq<char>>,
)
    requires
        forall|k: int| 0 <= k < acc.len() ==> first_node_accepted(ns, #[trigger] acc[k]),
        resolve_inputs(ns, inputs, acc) is Ok,
    ensures
        forall|k: int|
            0 <= k < resolve_inputs(ns, inputs, acc)->Ok_0.len() ==> first_node_accepted(
                ns,
                #[trigger] resolve_inputs(ns, inputs, acc)->Ok_0[k],
            ),
    decreases inputs.len(),
{
    if inputs.len() > 0 {
        let c = inputs[0];
        let acc2 = if acc.contains(c) {
            acc
        } else {
            acc.push(c)
        };
        assert(first_node_accepted(ns, c));
        assert forall|k: int| 0 <= k < acc2.len() implies first_node_accepted(ns, #[trigger] acc2[k]) by {
            if k < acc.len() {
                assert(acc2[k] == acc[k]);
            }
        }
        lemma_resolved_inputs_accepted(ns, inputs.drop_first(), acc2);
    }
}

/// `append_unique` keeps only what it was given.
proof fn lemma_append_from(acc: Seq<Seq<char>>, xs: Seq<Seq<char>>)
    ensures
        forall|k: int|
            0 <= k < append_unique(acc, xs).len() ==> acc.contains(#[trigger] append_unique(acc, xs)[k])
                || xs.contains(append_unique(acc, xs)[k]),
    decreases xs.len(),
{
    if xs.len() > 0 {
        let acc2 = if acc.contains(xs[0]) {
            acc
        } else {
            acc.push(xs[0])
        };
        lemma_append_from(acc2, xs.drop_first());
        let r = append_unique(acc, xs);
        let rest = xs.drop_first();
        assert(r == append_unique(acc2, rest));
        assert forall|k: int| 0 <= k < r.len() implies acc.contains(#[trigger] r[k]) || xs.contains(r[k]) by {
            assert(acc2.contains(append_unique(acc2, rest)[k]) || rest.contains(append_unique(acc2, rest)[k]));
            if acc2.contains(r[k]) {
                let i = choose|i: int| 0 <= i < acc2.len() && acc2[i] == r[k];
                if !(i < acc.len()) {
                    assert(r[k] == xs[0]);
                } else {
                    assert(acc[i] == acc2[i]);
                }
            } else {
                let i = choose|i: int| 0 <= i < xs.drop_first().len() && xs.drop_first()[i] == r[k];
                assert(xs[i + 1] == r[k]);
            }
        }
    }
}

/// Adding identifiers that are already present changes nothing.
proof fn lemma_append_present(acc: Seq<Seq<char>>, xs: Seq<Seq<char>>)
    requires
        forall|k: int| 0 <= k < xs.len() ==> acc.contains(#[trigger] xs[k]),
    ensures
        append_unique(acc, xs) == acc,
    decreases xs.len(),
{
    if xs.len() > 0 {
        assert(acc.contains(xs[0]));
        assert forall|k: int| 0 <= k < xs.drop_first().len() implies acc.contains(
            #[trigger] xs.drop_first()[k],
        ) by {
            assert(xs.drop_first()[k] == xs[k + 1]);
        }
        lemma_append_present(acc, xs.drop_first());
    }
}

/// Adding distinct new identifiers appends them in order.
proof fn lemma_append_fresh(acc: Seq<Seq<char>>, xs: Seq<Seq<char>>)
    requires
        (acc + xs).no_duplicates(),
    ensures
        append_unique(acc, xs) == acc + xs,
    decreases xs.len(),
{
    if xs.len() > 0 {
        assert(!acc.contains(xs[0])) by {
            if acc.contains(xs[0]) {
                let i = choose|i: int| 0 <= i < acc.len() && acc[i] == xs[0];
                assert((acc + xs)[i] == (acc + xs)[acc.len() as int]);
            }
        }
        assert(acc.push(xs[0]) + xs.drop_first() =~= acc + xs);
        lemma_append_fresh(acc.push(xs[0]), xs.drop_first());
    }
}

/// What `append_unique` returns holds everything it was given.
proof fn lemma_append_holds(acc: Seq<Seq<char>>, xs: Seq<Seq<char>>)
    ensures
        forall|k: int| 0 <= k < acc.len() ==> append_unique(acc, xs).contains(#[trigger] acc[k]),
        forall|k: int| 0 <= k < xs.len() ==> append_unique(acc, xs).contains(#[trigger] xs[k]),
    decreases xs.len(),
{
    if xs.len() > 0 {
        let acc2 = if acc.contains(xs[0]) {
            acc
        } else {
            acc.push(xs[0])
        };
        lemma_append_holds(acc2, xs.drop_first());
        let r = append_unique(acc, xs);
        assert forall|k: int| 0 <= k < acc.len() implies r.contains(#[trigger] acc[k]) by {
            if !acc.contains(xs[0]) {
                assert(acc2[k] == acc[k]);
            }
        }
        assert forall|k: int| 0 <= k < xs.len() implies r.contains(#[trigger] xs[k]) by {
            if k == 0 {
                if acc.contains(xs[0]) {
                    let i = choose|i: int| 0 <= i < acc.len() && acc[i] == xs[0];
                    assert(acc2[i] == xs[0]);
                } else {
                    assert(acc2[acc.len() as int] == xs[0]);
                }
            } else {
                assert(xs.drop_first()[k - 1] == xs[k]);
            }
        }
    }
}

/// Resolving the context of a prompt again from its own result gives that
/// result back, where the first node of each lineage-context identifier is an
/// accepted artifact. Where one is not, resolving again refuses that
/// identifier as an ineligible input.
pub proof fn law_resolved_context_is_stable(t: SessionTreeView, inputs: Seq<Seq<char>>)
    requires
        resolved_context(t, inputs) is Ok,
        forall|k: int|
            0 <= k < eligible_context(t)->Ok_0.len() ==> first_node_accepted(
                t.nodes,
                #[trigger] eligible_context(t)->Ok_0[k],
            ),
    ensures
        resolved_context(t, resolved_context(t, inputs)->Ok_0) == resolved_context(t, inputs),
{
    let ns = t.nodes;
    let r = resolved_context(t, inputs)->Ok_0;
    let acc = resolve_inputs(ns, inputs, seq![])->Ok_0;
    let xs = eligible_context(t)->Ok_0;
    law_resolved_context_is_usable(t, inputs);
    lemma_resolved_inputs_accepted(ns, inputs, seq![]);
    lemma_append_from(acc, xs);
    assert forall|k: int| 0 <= k < r.len() implies first_node_accepted(ns, #[trigger] r[k]) by {
        if acc.contains(r[k]) {
            let i = choose|i: int| 0 <= i < acc.len() && acc[i] == r[k];
            assert(first_node_accepted(ns, acc[i]));
        } else {
            let i = choose|i: int| 0 <= i < xs.len() && xs[i] == r[k];
            assert(first_node_accepted(ns, xs[i]));
        }
    }
    lemma_resolve_accepted_inputs(ns, r, seq![]);
    lemma_resolve_inputs_merge(ns, r, seq![]);
    assert(Seq::<Seq<char>>::empty() + r =~= r);
    lemma_append_fresh(seq![], r);
    lemma_append_holds(acc, xs);
    lemma_append_present(r, xs);
}

/// On a session whose identifiers are unique, as in every valid session,
/// resolving the context of a prompt again from its own result gives that
/// result back.
pub proof fn law_resolved_context_is_stable_with_unique_ids(t: SessionTreeView, inputs: Seq<Seq<char>>)
    requires
        ids_unique(t.nodes),
        resolved_context(t, inputs) is Ok,
    ensures
        resolved_context(t, resolved_context(t, inputs)->Ok_0) == resolved_context(t, inputs),
{
    let ns = t.nodes;
    law_eligible_context_is_usable(t);
    let xs = eligible_context(t)->Ok_0;
    assert forall|k: int| 0 <= k < xs.len() implies first_node_accepted(ns, #[trigger] xs[k]) by {
        assert(names_accepted_artifact(ns, xs[k]));
        let j = choose|j: int| 0 <= j < ns.len() && ns[j].id == xs[k] && context_eligible(#[trigger] ns[j]);
        lemma_first_index_of(ns, xs[k]);
        let fi = first_index_of(ns, xs[k]);
        if fi != j {
            if 0 <= fi < j {
                assert(ns[fi].id != ns[j].id);
            }
        }
    }
    law_resolved_context_is_stable(t, inputs);
}

/// Packing one more identifier after a list is packing the list, then that one.
proof fn lemma_pack_push(
    ns: Seq<SessionNodeView>,
    ids: Seq<Seq<char>>,
    x: Seq<char>,
    budget: nat,
    acc: ContextPackView,
)
    ensures
        pack_from(ns, ids.push(x), budget, acc) == match pack_from(ns, ids, budget, acc) {
            Err(e) => Err(e),
            Ok(p) => pack_from(ns, seq![x], budget, p),
        },
    decreases ids.len(),
{
    if ids.len() == 0 {
        assert(ids.push(x) =~= seq![x]);
    } else {
        assert(ids.push(x).drop_first() =~= ids.drop_first().push(x));
        assert(ids.push(x)[0] == ids[0]);
        let c = ids[0];
        let i = first_index_of(ns, c);
        if i >= 0 {
            let text = entry_text(ns[i]);
            let tokens = token_estimate(text);
            let acc2 = ContextPackView {
                entries: acc.entries.push(
                    ContextEntryView { node_id: ns[i].id, text, estimated_tokens: tokens },
                ),
                used_tokens: acc.used_tokens + tokens,
            };
            lemma_pack_push(ns, ids.drop_first(), x, budget, acc);
            lemma_pack_push(ns, ids.drop_first(), x, budget, acc2);
        }
    }
}

/// Packing goes through the identifiers one at a time. Where packing the
/// first `k + 1` succeeds, it adds to the pack of the first `k` exactly this:
/// the accepted artifact named `ids[k]`, with its `[id] label` line and
/// estimate, when that estimate added to the tokens already packed stays
/// within the budget; nothing when it would go over (packing goes on with
/// the next) or when the node is not an accepted artifact.
pub proof fn law_packing_skips_only_what_does_not_fit(
    t: SessionTreeView,
    ids: Seq<Seq<char>>,
    budget: nat,
    k: int,
)
    requires
        0 <= k < ids.len(),
        packed_context(t, ids.take(k + 1), budget) is Ok,
    ensures
        packed_context(t, ids.take(k), budget) is Ok,
        ({
            let before = packed_context(t, ids.take(k), budget)->Ok_0;
            let after = packed_context(t, ids.take(k + 1), budget)->Ok_0;
            let i = first_index_of(t.nodes, ids[k]);
            let n = t.nodes[i];
            let tokens = token_estimate(entry_text(n));
            &&& i >= 0
            &&& if n.kind == NodeKind::Artifact && n.status == NodeStatus::Accepted
                && before.used_tokens + tokens <= budget {
                after.entries == before.entries.push(
                    ContextEntryView { node_id: n.id, text: entry_text(n), estimated_tokens: tokens },
                ) && after.used_tokens == before.used_tokens + tokens
            } else {
                after == before
            }
        }),
{
    let ns = t.nodes;
    assert(ids.take(k + 1) =~= ids.take(k).push(ids[k]));
    let empty = ContextPackView { entries: seq![], used_tokens: 0 };
    lemma_pack_push(ns, ids.take(k), ids[k], budget, empty);
    let before = pack_from(ns, ids.take(k), budget, empty);
    let x = ids[k];
    let one = seq![x];
    assert(one.drop_first() =~= Seq::<Seq<char>>::empty());
    assert(one[0] == x);
    if let Ok(p) = before {
        let i = first_index_of(ns, x);
        if i >= 0 {
            let text = entry_text(ns[i]);
            let tokens = token_estimate(text);
            let p2 = ContextPackView {
                entries: p.entries.push(
                    ContextEntryView { node_id: ns[i].id, text, estimated_tokens: tokens },
                ),
                used_tokens: p.used_tokens + tokens,
            };
            assert(pack_from(ns, one.drop_first(), budget, p) == Ok::<ContextPackView, OrchestrationErrorView>(p));
            assert(pack_from(ns, one.drop_first(), budget, p2) == Ok::<ContextPackView, OrchestrationErrorView>(p2));
        }
    }
}

/// The tokens that the entries are estimated to take.
pub open spec fn entries_tokens(es: Seq<ContextEntryView>) -> nat
    decreases es.len(),
{
    if es.len() == 0 {
        0
    } else {
        entries_tokens(es.drop_last()) + es.last().estimated_tokens
    }
}

/// Every entry shows an accepted artifact of the session, as `[id] label`.
pub open spec fn entries_show_accepted(ns: Seq<SessionNodeView>, es: Seq<ContextEntryView>) -> bool {
    forall|k: int|
        0 <= k < es.len() ==> exists|j: int|
            0 <= j < ns.len() && ns[j].id == (#[trigger] es[k]).node_id && context_eligible(ns[j])
                && es[k].text == entry_text(ns[j])
}

proof fn lemma_pack_from(
    ns: Seq<SessionNodeView>,
    ids: Seq<Seq<char>>,
    budget: nat,
    acc: ContextPackView,
)
    requires
        acc.used_tokens <= budget,
        acc.used_tokens == entries_tokens(acc.entries),
        entries_show_accepted(ns, acc.entries),
        pack_from(ns, ids, budget, acc) is Ok,
    ensures
        ({
            let p = pack_from(ns, ids, budget, acc)->Ok_0;
            &&& p.used_tokens <= budget
            &&& p.used_tokens == entries_tokens(p.entries)
            &&& entries_show_accepted(ns, p.entries)
        }),
    decreases ids.len(),
{
    if ids.len() > 0 {
        let c = ids[0];
        let i = first_index_of(ns, c);
        lemma_first_index_of(ns, c);
        if i >= 0 && context_eligible(ns[i]) {
            let text = entry_text(ns[i]);
            let tokens = crate::orchestrator::token_estimate(text);
            if acc.used_tokens + tokens <= budget {
                let e = ContextEntryView { node_id: ns[i].id, text, estimated_tokens: tokens };
                let acc2 = ContextPackView {
                    entries: acc.entries.push(e),
                    used_tokens: acc.used_tokens + tokens,
                };
                assert(acc2.entries.drop_last() =~= acc.entries);
                assert forall|k: int| 0 <= k < acc2.entries.len() implies exists|j: int|
                    0 <= j < ns.len() && ns[j].id == (#[trigger] acc2.entries[k]).node_id
                        && context_eligible(ns[j]) && acc2.entries[k].text == entry_text(ns[j]) by {
                    if k < acc.entries.len() {
                        assert(acc2.entries[k] == acc.entries[k]);
                    } else {
                        assert(acc2.entries[k] == e);
                        assert(ns[i].id == e.node_id);
                    }
                }
                lemma_pack_from(ns, ids.drop_first(), budget, acc2);
            } else {
                lemma_pack_from(ns, ids.drop_first(), budget, acc);
            }
        } else {
            lemma_pack_from(ns, ids.drop_first(), budget, acc);
        }
    }
}

/// Packed context never exceeds its token budget, its total is the sum of
/// its entries' estimates, and every entry shows an accepted artifact of the
/// session: rejected and superseded artifacts are left out even when named.
pub proof fn law_packed_context_fits_budget(t: SessionTreeView, ids: Seq<Seq<char>>, budget: nat)
    requires
        packed_context(t, ids, budget) is Ok,
    ensures
        ({
            let p = packed_context(t, ids, budget)->Ok_0;
            &&& p.used_tokens <= budget
            &&& p.used_tokens == entries_tokens(p.entries)
            &&& entries_show_accepted(t.nodes, p.entries)
        }),
{
    lemma_pack_from(t.nodes, ids, budget, ContextPackView { entries: seq![], used_tokens: 0 });
}

/// The status lifecycle only moves forward: a proposed node may be accepted
/// or rejected, an accepted one superseded, and rejected or superseded nodes
/// stay as they are.
pub proof fn law_status_lifecycle(from: NodeStatus, to: NodeStatus)
    ensures
        status_transition_allowed(from, to) && from != to ==> (from == NodeStatus::Proposed && (to
            == NodeStatus::Accepted || to == NodeStatus::Rejected)) || (from == NodeStatus::Accepted
            && to == NodeStatus::Superseded),
        from == NodeStatus::Rejected || from == NodeStatus::Superseded ==> (status_transition_allowed(
            from,
            to,
        ) <==> to == from),
{
}

/// Moving the current node of a valid session, where that is allowed, keeps
/// the session valid.
pub proof fn law_set_current_keeps_tree_valid(t: SessionTreeView, id: Seq<char>)
    requires
        tree_is_valid(t),
        set_current_outcome(t, id) is Ok,
    ensures
        tree_is_valid(set_current_outcome(t, id)->Ok_0),
{
    let ns = t.nodes;
    let t2 = set_current_outcome(t, id)->Ok_0;
    lemma_first_index_of(ns, id);
    let fi = first_index_of(ns, id);
    assert(duplicate_from(ns, 0) is None);
    lemma_unique_lookup(ns, fi);
    assert(t2.current_node_id == ns[fi].id);
    assert(last_index_of(ns, t2.current_node_id) == fi);
    assert(current_candidate_error(ns[fi]) is None);
    assert(statuses_of_artifacts_differ(ns, t2.nodes));
    lemma_node_errors_from_same(t, t2, 0);
    assert(node_errors_from(t2, 0) == node_errors_from(t, 0));
    assert(parent_errors_from(t2.nodes, 0) == parent_errors_from(ns, 0));
    assert(tree_error(t2) is None);
}

/// Every label starts with the word of its kind and a hyphen.
pub proof fn law_label_starts_with_kind(kind: LabelKind, source: Seq<char>, attempt: nat)
    ensures
        (label_prefix(kind) + "-"@).is_prefix_of(label_text(kind, source, attempt)),
{
    let l = label_text(kind, source, attempt);
    let p = label_prefix(kind) + "-"@;
    assert(l.take(p.len() as int) =~= p);
}

} // verus!
