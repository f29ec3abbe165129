//! Orchestration: context resolution and packing under a token budget, prompt
//! rendering, keyword review, and artifact generation through a provider.
use vstd::prelude::*;

use crate::domain::{
    opt_str_view,
    active_lineage, context_eligible, eligible_context, first_index_of, ids_view,
    lemma_first_index_of, lineage_defined, NodeId, NodeKind, NodeStatus, SessionNode,
    SessionNodeView, SessionTree, SessionTreeView, ValidationError, ValidationErrorView,
    ArtifactKind, nodes_view,
};
use crate::providers::{CompletionProvider, ProviderError, ProviderRequest, ProviderResponse};
use crate::text::{append_str, contains_seq, count_words, str_contains, to_lowercase, unicode_lowercase, word_count};

verus! {

#[derive(Debug, Clone, PartialEq, Eq)]
pub struct ContextEntry {
    pub node_id: NodeId,
    pub text: String,
    pub estimated_tokens: usize,
}

#[derive(Debug, Clone, PartialEq, Eq)]
pub struct ContextPack {
    pub entries: Vec<ContextEntry>,
    pub used_tokens: usize,
}

#[derive(Debug, Clone, PartialEq, Eq)]
pub struct PromptPackage {
    pub prompt: String,
    pub context: ContextPack,
    pub rendered_prompt: String,
}

#[derive(Debug, Clone, PartialEq, Eq)]
pub struct ArtifactProposal {
    pub artifact_kind: ArtifactKind,
    pub body: String,
}

/// Proposes artifacts for a prompt package.
pub trait ArtifactProposalGenerator {
    fn propose_artifacts(&self, prompt_package: &PromptPackage) -> Result<
        Vec<ArtifactProposal>,
        OrchestrationError,
    >;
}

#[derive(Debug, Clone, PartialEq, Eq)]
pub enum OrchestrationError {
    DomainValidation(ValidationError),
    InvalidTokenBudget,
    UnknownInputNode(NodeId),
    IneligibleInputNode(NodeId),
    InvalidReviewRubric(String),
}

/// An [`OrchestrationError`] with identifiers and texts as character sequences.
pub enum OrchestrationErrorView {
    DomainValidation(ValidationErrorView),
    InvalidTokenBudget,
    UnknownInputNode(Seq<char>),
    IneligibleInputNode(Seq<char>),
    InvalidReviewRubric(Seq<char>),
}

impl View for OrchestrationError {
    type V = OrchestrationErrorView;

    open spec fn view(&self) -> OrchestrationErrorView {
        match self {
            OrchestrationError::DomainValidation(e) => OrchestrationErrorView::DomainValidation(e@),
            OrchestrationError::InvalidTokenBudget => OrchestrationErrorView::InvalidTokenBudget,
            OrchestrationError::UnknownInputNode(id) => OrchestrationErrorView::UnknownInputNode(id@),
            OrchestrationError::IneligibleInputNode(id) => OrchestrationErrorView::IneligibleInputNode(
                id@,
            ),
            OrchestrationError::InvalidReviewRubric(s) => OrchestrationErrorView::InvalidReviewRubric(
                s@,
            ),
        }
    }
}

impl From<ValidationError> for OrchestrationError {
    fn from(value: ValidationError) -> (r: Self)
        ensures
            r == OrchestrationError::DomainValidation(value),
    {
        OrchestrationError::DomainValidation(value)
    }
}

impl vstd::std_specs::convert::FromSpecImpl<ValidationError> for OrchestrationError {
    open spec fn obeys_from_spec() -> bool {
        true
    }

    open spec fn from_spec(v: ValidationError) -> Self {
        OrchestrationError::DomainValidation(v)
    }
}

// ---------------------------------------------------------------------------
// Context resolution
// ---------------------------------------------------------------------------

/// Checks the explicitly requested inputs in order: each must name an
/// existing node (the first one with that identifier) that is an accepted
/// artifact; the identifiers are appended to `acc` once each.
pub open spec fn resolve_inputs(
    ns: Seq<SessionNodeView>,
    inputs: Seq<Seq<char>>,
    acc: Seq<Seq<char>>,
) -> Result<Seq<Seq<char>>, OrchestrationErrorView>
    decreases inputs.len(),
{
    if inputs.len() == 0 {
        Ok(acc)
    } else {
        let c = inputs[0];
        let i = first_index_of(ns, c);
        if i < 0 {
            Err(OrchestrationErrorView::UnknownInputNode(c))
        } else if !context_eligible(ns[i]) {
            Err(OrchestrationErrorView::IneligibleInputNode(c))
        } else {
            resolve_inputs(
                ns,
                inputs.drop_first(),
                if acc.contains(c) {
                    acc
                } else {
                    acc.push(c)
                },
            )
        }
    }
}

/// Appends each element of `xs` to `acc` unless `acc` already holds it.
pub open spec fn append_unique(acc: Seq<Seq<char>>, xs: Seq<Seq<char>>) -> Seq<Seq<char>>
    decreases xs.len(),
{
    if xs.len() == 0 {
        acc
    } else {
        append_unique(
            if acc.contains(xs[0]) {
                acc
            } else {
                acc.push(xs[0])
            },
            xs.drop_first(),
        )
    }
}

/// The context of a prompt: the requested inputs, then the context eligible
/// at the current node, each identifier once.
pub open spec fn resolved_context(t: SessionTreeView, inputs: Seq<Seq<char>>) -> Result<
    Seq<Seq<char>>,
    OrchestrationErrorView,
> {
    match resolve_inputs(t.nodes, inputs, seq![]) {
        Err(e) => Err(e),
        Ok(acc) => match eligible_context(t) {
            Err(e) => Err(OrchestrationErrorView::DomainValidation(e)),
            Ok(xs) => Ok(append_unique(acc, xs)),
        },
    }
}

/// The first node with identifier `node_id`.
pub(crate) fn find_node_index(session: &SessionTree, node_id: &NodeId) -> (r: Option<usize>)
    ensures
        match r {
            Some(i) => i < session.nodes.len() && i as int == first_index_of(
                session@.nodes,
                node_id@,
            ) && session@.nodes[i as int].id == node_id@,
            None => first_index_of(session@.nodes, node_id@) == -1,
        },
{
    let ghost ns = session@.nodes;
    proof {
        lemma_first_index_of(ns, node_id@);
    }
    let mut i: usize = 0;
    while i < session.nodes.len()
        invariant
            i <= session.nodes.len(),
            ns == session@.nodes,
            forall|j: int| 0 <= j < i ==> ns[j].id != node_id@,
            -1 <= first_index_of(ns, node_id@) < ns.len(),
            first_index_of(ns, node_id@) >= 0 ==> ns[first_index_of(ns, node_id@)].id == node_id@,
            forall|j: int|
                0 <= j < ns.len() && (first_index_of(ns, node_id@) < 0 || j < first_index_of(
                    ns,
                    node_id@,
                )) ==> ns[j].id != node_id@,
        decreases session.nodes.len() - i,
    {
        assert(ns[i as int] == session.nodes@[i as int]@);
        if session.nodes[i].id == *node_id {
            assert(ns[i as int].id == node_id@);
            return Some(i);
        }
        i = i + 1;
    }
    None
}

/// The first node with identifier `node_id`, if any.
pub fn find_node<'a>(session: &'a SessionTree, node_id: &NodeId) -> (r: Option<&'a SessionNode>)
    ensures
        match r {
            Some(n) => first_index_of(session@.nodes, node_id@) >= 0 && n@ == session@.nodes[first_index_of(session@.nodes, node_id@)],
            None => first_index_of(session@.nodes, node_id@) == -1,
        },
{
    match find_node_index(session, node_id) {
        Some(i) => Some(&session.nodes[i]),
        None => None,
    }
}

/// Whether the node may serve as context: an accepted artifact.
pub fn is_context_eligible(node: &SessionNode) -> (r: bool)
    ensures
        r == context_eligible(node@),
{
    node.kind == NodeKind::Artifact && node.status == NodeStatus::Accepted
}

fn contains_node_id(v: &Vec<NodeId>, id: &NodeId) -> (r: bool)
    ensures
        r == ids_view(v@).contains(id@),
{
    let mut i: usize = 0;
    while i < v.len()
        invariant
            i <= v.len(),
            forall|j: int| 0 <= j < i ==> ids_view(v@)[j] != id@,
        decreases v.len() - i,
    {
        if v[i] == *id {
            assert(ids_view(v@)[i as int] == id@);
            return true;
        }
        i = i + 1;
    }
    false
}

/// Resolves the context of a prompt: see [`resolved_context`].
pub fn resolve_context_node_ids(session: &SessionTree, input_node_ids: &[NodeId]) -> (r: Result<
    Vec<NodeId>,
    OrchestrationError,
>)
    requires
        resolve_inputs(session@.nodes, ids_view(input_node_ids@), seq![]) is Ok ==> lineage_defined(
            session@,
        ),
    ensures
        match r {
            Ok(v) => resolved_context(session@, ids_view(input_node_ids@)) == Ok::<
                Seq<Seq<char>>,
                OrchestrationErrorView,
            >(ids_view(v@)),
            Err(e) => resolved_context(session@, ids_view(input_node_ids@)) == Err::<
                Seq<Seq<char>>,
                OrchestrationErrorView,
            >(e@),
        },
{
    let ghost t = session@;
    let ghost ns = t.nodes;
    let ghost inputs = ids_view(input_node_ids@);
    let mut resolved: Vec<NodeId> = Vec::new();
    assert(ids_view(resolved@) =~= Seq::<Seq<char>>::empty());
    assert(inputs.skip(0) =~= inputs);
    let mut k: usize = 0;
    while k < input_node_ids.len()
        invariant
            t == session@,
            ns == t.nodes,
            inputs == ids_view(input_node_ids@),
            resolve_inputs(ns, inputs, seq![]) is Ok ==> lineage_defined(t),
            k <= input_node_ids.len(),
            resolve_inputs(ns, inputs, seq![]) == resolve_inputs(
                ns,
                inputs.skip(k as int),
                ids_view(resolved@),
            ),
        decreases input_node_ids.len() - k,
    {
        let input_id = &input_node_ids[k];
        assert(inputs[k as int] == input_id@);
        assert(inputs.skip(k as int).drop_first() =~= inputs.skip(k + 1));
        assert(inputs.skip(k as int)[0] == inputs[k as int]);
        let i = match find_node_index(session, input_id) {
            None => {
                return Err(OrchestrationError::UnknownInputNode(input_id.duplicate()));
            },
            Some(i) => i,
        };
        let node = &session.nodes[i];
        assert(ns[i as int] == node@);
        if !is_context_eligible(node) {
            return Err(OrchestrationError::IneligibleInputNode(input_id.duplicate()));
        }
        if !contains_node_id(&resolved, &node.id) {
            let ghost before = ids_view(resolved@);
            resolved.push(node.id.duplicate());
            assert(ids_view(resolved@) =~= before.push(input_id@));
        }
        k = k + 1;
    }
    assert(inputs.skip(k as int) =~= Seq::<Seq<char>>::empty());
    let lineage_context = match session.resolve_eligible_context_node_ids() {
        Err(e) => {
            return Err(OrchestrationError::DomainValidation(e));
        },
        Ok(v) => v,
    };
    let ghost xs = ids_view(lineage_context@);
    assert(xs.skip(0) =~= xs);
    let mut m: usize = 0;
    while m < lineage_context.len()
        invariant
            xs == ids_view(lineage_context@),
            m <= lineage_context.len(),
            resolved_context(t, inputs) == Ok::<Seq<Seq<char>>, OrchestrationErrorView>(
                append_unique(ids_view(resolved@), xs.skip(m as int)),
            ),
        decreases lineage_context.len() - m,
    {
        let cid = &lineage_context[m];
        assert(xs[m as int] == cid@);
        assert(xs.skip(m as int).drop_first() =~= xs.skip(m + 1));
        assert(xs.skip(m as int)[0] == xs[m as int]);
        if !contains_node_id(&resolved, cid) {
            let ghost before = ids_view(resolved@);
            resolved.push(cid.duplicate());
            assert(ids_view(resolved@) =~= before.push(cid@));
        }
        m = m + 1;
    }
    assert(xs.skip(m as int) =~= Seq::<Seq<char>>::empty());
    Ok(resolved)
}

// ---------------------------------------------------------------------------
// Context packing and prompt rendering
// ---------------------------------------------------------------------------

pub struct ContextEntryView {
    pub node_id: Seq<char>,
    pub text: Seq<char>,
    pub estimated_tokens: nat,
}

pub struct ContextPackView {
    pub entries: Seq<ContextEntryView>,
    pub used_tokens: nat,
}

impl View for ContextEntry {
    type V = ContextEntryView;

    open spec fn view(&self) -> ContextEntryView {
        ContextEntryView {
            node_id: self.node_id@,
            text: self.text@,
            estimated_tokens: self.estimated_tokens as nat,
        }
    }
}

pub open spec fn entries_view(es: Seq<ContextEntry>) -> Seq<ContextEntryView> {
    es.map_values(|e: ContextEntry| e@)
}

impl View for ContextPack {
    type V = ContextPackView;

    open spec fn view(&self) -> ContextPackView {
        ContextPackView { entries: entries_view(self.entries@), used_tokens: self.used_tokens as nat }
    }
}

/// The context line of a node: `[<id>] <label>`.
pub open spec fn entry_text(n: SessionNodeView) -> Seq<char> {
    "["@ + n.id + "] "@ + n.label
}

/// The token estimate of a text: its number of whitespace-separated words, at least one.
pub open spec fn token_estimate(text: Seq<char>) -> nat {
    if word_count(text) == 0 {
        1
    } else {
        word_count(text)
    }
}

/// Packs the nodes named by `ids` in order, after `acc`: an unknown
/// identifier fails; nodes that are not accepted artifacts are left out; a
/// node whose estimate would take the total over `budget` is left out.
pub open spec fn pack_from(
    ns: Seq<SessionNodeView>,
    ids: Seq<Seq<char>>,
    budget: nat,
    acc: ContextPackView,
) -> Result<ContextPackView, OrchestrationErrorView>
    decreases ids.len(),
{
    if ids.len() == 0 {
        Ok(acc)
    } else {
        let c = ids[0];
        let i = first_index_of(ns, c);
        if i < 0 {
            Err(OrchestrationErrorView::UnknownInputNode(c))
        } else if !context_eligible(ns[i]) {
            pack_from(ns, ids.drop_first(), budget, acc)
        } else {
            let text = entry_text(ns[i]);
            let tokens = token_estimate(text);
            if acc.used_tokens + tokens > budget {
                pack_from(ns, ids.drop_first(), budget, acc)
            } else {
                pack_from(
                    ns,
                    ids.drop_first(),
                    budget,
                    ContextPackView {
                        entries: acc.entries.push(
                            ContextEntryView { node_id: ns[i].id, text, estimated_tokens: tokens },
                        ),
                        used_tokens: acc.used_tokens + tokens,
                    },
                )
            }
        }
    }
}

/// The context packed from `ids` under `budget`; a zero budget is refused.
pub open spec fn packed_context(t: SessionTreeView, ids: Seq<Seq<char>>, budget: nat) -> Result<
    ContextPackView,
    OrchestrationErrorView,
> {
    if budget == 0 {
        Err(OrchestrationErrorView::InvalidTokenBudget)
    } else {
        pack_from(t.nodes, ids, budget, ContextPackView { entries: seq![], used_tokens: 0 })
    }
}

/// The token estimate of `text`.
pub fn estimate_tokens(text: &str) -> (r: usize)
    ensures
        r == token_estimate(text@),
{
    let n = count_words(text);
    if n == 0 {
        1
    } else {
        n
    }
}

/// Packs the context nodes in order within the token budget: see [`packed_context`].
pub fn pack_context(session: &SessionTree, context_node_ids: &[NodeId], token_budget: usize) -> (r:
    Result<ContextPack, OrchestrationError>)
    ensures
        match r {
            Ok(p) => packed_context(session@, ids_view(context_node_ids@), token_budget as nat)
                == Ok::<ContextPackView, OrchestrationErrorView>(p@),
            Err(e) => packed_context(session@, ids_view(context_node_ids@), token_budget as nat)
                == Err::<ContextPackView, OrchestrationErrorView>(e@),
        },
{
    if token_budget == 0 {
        return Err(OrchestrationError::InvalidTokenBudget);
    }
    let ghost t = session@;
    let ghost ns = t.nodes;
    let ghost ids = ids_view(context_node_ids@);
    let mut entries: Vec<ContextEntry> = Vec::new();
    let mut used_tokens: usize = 0;
    assert(entries_view(entries@) =~= Seq::<ContextEntryView>::empty());
    assert(ids.skip(0) =~= ids);
    let mut k: usize = 0;
    while k < context_node_ids.len()
        invariant
            t == session@,
            ns == t.nodes,
            ids == ids_view(context_node_ids@),
            k <= context_node_ids.len(),
            used_tokens <= token_budget,
            token_budget > 0,
            packed_context(t, ids, token_budget as nat) == pack_from(
                ns,
                ids.skip(k as int),
                token_budget as nat,
                ContextPackView { entries: entries_view(entries@), used_tokens: used_tokens as nat },
            ),
        decreases context_node_ids.len() - k,
    {
        let cid = &context_node_ids[k];
        assert(ids[k as int] == cid@);
        assert(ids.skip(k as int).drop_first() =~= ids.skip(k + 1));
        assert(ids.skip(k as int)[0] == ids[k as int]);
        let i = match find_node_index(session, cid) {
            None => {
                return Err(OrchestrationError::UnknownInputNode(cid.duplicate()));
            },
            Some(i) => i,
        };
        let node = &session.nodes[i];
        assert(ns[i as int] == node@);
        if is_context_eligible(node) {
            let mut text = "[".to_owned();
            append_str(&mut text, node.id.as_str());
            append_str(&mut text, "] ");
            append_str(&mut text, node.label.as_str());
            let tokens = estimate_tokens(text.as_str());
            if tokens <= token_budget - used_tokens {
                let ghost before = entries_view(entries@);
                entries.push(ContextEntry { node_id: node.id.duplicate(), text, estimated_tokens: tokens });
                assert(entries_view(entries@) =~= before.push(
                    ContextEntryView {
                        node_id: ns[i as int].id,
                        text: entry_text(ns[i as int]),
                        estimated_tokens: tokens as nat,
                    },
                ));
                used_tokens = used_tokens + tokens;
            }
        }
        k = k + 1;
    }
    assert(ids.skip(k as int) =~= Seq::<Seq<char>>::empty());
    Ok(ContextPack { entries, used_tokens })
}

/// The context lines `- <text>`, joined by line feeds.
pub open spec fn bullet_lines(es: Seq<ContextEntryView>) -> Seq<char>
    decreases es.len(),
{
    if es.len() == 0 {
        seq![]
    } else if es.len() == 1 {
        "- "@ + es[0].text
    } else {
        bullet_lines(es.drop_last()) + "\n"@ + "- "@ + es.last().text
    }
}

/// The prompt as sent: without context, the prompt itself; otherwise a
/// `Context:` section listing the entries, then a `Prompt:` section.
pub open spec fn rendered_prompt(prompt: Seq<char>, es: Seq<ContextEntryView>) -> Seq<char> {
    if es.len() == 0 {
        prompt
    } else {
        "Context:\n"@ + bullet_lines(es) + "\n\nPrompt:\n"@ + prompt
    }
}

/// Renders `prompt` with the packed context: see [`rendered_prompt`].
pub fn render_prompt_with_context(prompt: &str, context: &ContextPack) -> (r: String)
    ensures
        r@ == rendered_prompt(prompt@, context@.entries),
{
    let ghost es = context@.entries;
    if context.entries.len() == 0 {
        return prompt.to_owned();
    }
    let mut lines = String::new();
    let mut i: usize = 0;
    while i < context.entries.len()
        invariant
            es == context@.entries,
            i <= context.entries.len(),
            lines@ == bullet_lines(es.take(i as int)),
        decreases context.entries.len() - i,
    {
        assert(es.take(i + 1).drop_last() =~= es.take(i as int));
        assert(es[i as int] == context.entries@[i as int]@);
        if i > 0 {
            append_str(&mut lines, "\n");
        }
        append_str(&mut lines, "- ");
        append_str(&mut lines, context.entries[i].text.as_str());
        assert(lines@ =~= bullet_lines(es.take(i + 1)));
        i = i + 1;
    }
    assert(es.take(i as int) =~= es);
    let mut r = "Context:\n".to_owned();
    append_str(&mut r, lines.as_str());
    append_str(&mut r, "\n\nPrompt:\n");
    append_str(&mut r, prompt);
    r
}

pub struct PromptPackageView {
    pub prompt: Seq<char>,
    pub context: ContextPackView,
    pub rendered_prompt: Seq<char>,
}

impl View for PromptPackage {
    type V = PromptPackageView;

    open spec fn view(&self) -> PromptPackageView {
        PromptPackageView {
            prompt: self.prompt@,
            context: self.context@,
            rendered_prompt: self.rendered_prompt@,
        }
    }
}

/// The prompt package: the resolved context, packed under the budget, and
/// the prompt rendered with it.
pub open spec fn prompt_package(
    t: SessionTreeView,
    prompt: Seq<char>,
    inputs: Seq<Seq<char>>,
    budget: nat,
) -> Result<PromptPackageView, OrchestrationErrorView> {
    match resolved_context(t, inputs) {
        Err(e) => Err(e),
        Ok(ids) => match packed_context(t, ids, budget) {
            Err(e) => Err(e),
            Ok(c) => Ok(
                PromptPackageView {
                    prompt,
                    context: c,
                    rendered_prompt: rendered_prompt(prompt, c.entries),
                },
            ),
        },
    }
}

/// Builds the prompt package: see [`prompt_package`].
pub fn build_prompt_package(
    session: &SessionTree,
    prompt: &str,
    input_node_ids: &[NodeId],
    token_budget: usize,
) -> (r: Result<PromptPackage, OrchestrationError>)
    requires
        resolve_inputs(session@.nodes, ids_view(input_node_ids@), seq![]) is Ok ==> lineage_defined(
            session@,
        ),
    ensures
        match r {
            Ok(p) => prompt_package(session@, prompt@, ids_view(input_node_ids@), token_budget as nat)
                == Ok::<PromptPackageView, OrchestrationErrorView>(p@),
            Err(e) => prompt_package(
                session@,
                prompt@,
                ids_view(input_node_ids@),
                token_budget as nat,
            ) == Err::<PromptPackageView, OrchestrationErrorView>(e@),
        },
{
    let prompt = prompt.to_owned();
    let context_node_ids = resolve_context_node_ids(session, input_node_ids)?;
    let context = pack_context(session, context_node_ids.as_slice(), token_budget)?;
    let rendered_prompt = render_prompt_with_context(prompt.as_str(), &context);
    Ok(PromptPackage { prompt, context, rendered_prompt })
}

// ---------------------------------------------------------------------------
// Generation through a provider
// ---------------------------------------------------------------------------

/// The request that sends `prompt`, on `thread_id` when one is given.
fn provider_request(prompt: &str, thread_id: Option<&str>) -> (r: ProviderRequest)
    ensures
        r.prompt@ == prompt@,
        opt_str_view(r.thread_id) == match thread_id {
            Some(t) => Some(t@),
            None => None::<Seq<char>>,
        },
{
    let thread = match thread_id {
        Some(t) => Some(t.to_owned()),
        None => None,
    };
    ProviderRequest { prompt: prompt.to_owned(), thread_id: thread }
}

/// Sends `prompt`, without a thread, to the provider.
pub fn generate_artifact<P: CompletionProvider + ?Sized>(provider: &P, prompt: &str) -> (r: Result<
    ProviderResponse,
    ProviderError,
>)
    ensures
        exists|request: ProviderRequest|
            request.prompt@ == prompt@ && request.thread_id is None && call_ensures(
                P::generate,
                (provider, &request),
                r,
            ),
{
    let request = provider_request(prompt, None);
    let r = provider.generate(&request);
    assert(call_ensures(P::generate, (provider, &request), r));
    assert(request.prompt@ == prompt@);
    assert(request.thread_id is None);
    r
}

/// Sends `prompt` on thread `thread_id` to the provider.
pub fn generate_artifact_with_thread<P: CompletionProvider + ?Sized>(
    provider: &P,
    prompt: &str,
    thread_id: &str,
) -> (r: Result<ProviderResponse, ProviderError>)
    ensures
        exists|request: ProviderRequest|
            request.prompt@ == prompt@ && opt_str_view(request.thread_id) == Some(thread_id@)
                && call_ensures(P::generate, (provider, &request), r),
{
    let request = provider_request(prompt, Some(thread_id));
    let r = provider.generate(&request);
    assert(call_ensures(P::generate, (provider, &request), r));
    assert(request.prompt@ == prompt@);
    r
}

/// Sends `prompt`, without a thread, to the provider, streaming the output to `on_chunk`.
pub fn generate_artifact_streaming<P: CompletionProvider + ?Sized, F: FnMut(&str)>(
    provider: &P,
    prompt: &str,
    on_chunk: &mut F,
) -> Result<ProviderResponse, ProviderError>
    requires
        forall|c: &str| call_requires(*old(on_chunk), (c,)),
{
    let request = provider_request(prompt, None);
    provider.generate_streaming(&request, on_chunk)
}

/// Sends `prompt` on thread `thread_id` to the provider, streaming the output to `on_chunk`.
pub fn generate_artifact_streaming_with_thread<P: CompletionProvider + ?Sized, F: FnMut(&str)>(
    provider: &P,
    prompt: &str,
    thread_id: &str,
    on_chunk: &mut F,
) -> Result<ProviderResponse, ProviderError>
    requires
        forall|c: &str| call_requires(*old(on_chunk), (c,)),
{
    let request = provider_request(prompt, Some(thread_id));
    provider.generate_streaming(&request, on_chunk)
}

// ---------------------------------------------------------------------------
// Keyword review
// ---------------------------------------------------------------------------

/// Whether the keyword occurs in the body, both lowercased.
pub open spec fn keyword_found(body: Seq<char>, keyword: Seq<char>) -> bool {
    contains_seq(unicode_lowercase(body), unicode_lowercase(keyword))
}

/// The keywords found in the body, in order.
pub open spec fn found_keywords(body: Seq<char>, kws: Seq<Seq<char>>) -> Seq<Seq<char>>
    decreases kws.len(),
{
    if kws.len() == 0 {
        seq![]
    } else {
        found_keywords(body, kws.drop_last()) + if keyword_found(body, kws.last()) {
            seq![kws.last()]
        } else {
            seq![]
        }
    }
}

/// The keywords not found in the body, in order.
pub open spec fn absent_keywords(body: Seq<char>, kws: Seq<Seq<char>>) -> Seq<Seq<char>>
    decreases kws.len(),
{
    if kws.len() == 0 {
        seq![]
    } else {
        absent_keywords(body, kws.drop_last()) + if keyword_found(body, kws.last()) {
            seq![]
        } else {
            seq![kws.last()]
        }
    }
}

pub open spec fn strings_view(v: Seq<String>) -> Seq<Seq<char>> {
    v.map_values(|s: String| s@)
}

/// Which required keywords the body mentions.
#[derive(Debug, Clone)]
pub struct KeywordReview {
    pub matched_keywords: Vec<String>,
    pub missing_keywords: Vec<String>,
}

/// Splits the required keywords into those that occur in the artifact body
/// and those that do not, comparing lowercased texts.
pub fn review_keywords(required_keywords: &Vec<String>, artifact_body: &str) -> (r: KeywordReview)
    ensures
        strings_view(r.matched_keywords@) == found_keywords(
            artifact_body@,
            strings_view(required_keywords@),
        ),
        strings_view(r.missing_keywords@) == absent_keywords(
            artifact_body@,
            strings_view(required_keywords@),
        ),
{
    let ghost kws = strings_view(required_keywords@);
    let body_lower = to_lowercase(artifact_body);
    let mut matched: Vec<String> = Vec::new();
    let mut missing: Vec<String> = Vec::new();
    let mut i: usize = 0;
    while i < required_keywords.len()
        invariant
            kws == strings_view(required_keywords@),
            body_lower@ == unicode_lowercase(artifact_body@),
            i <= required_keywords.len(),
            strings_view(matched@) == found_keywords(artifact_body@, kws.take(i as int)),
            strings_view(missing@) == absent_keywords(artifact_body@, kws.take(i as int)),
        decreases required_keywords.len() - i,
    {
        assert(kws.take(i + 1).drop_last() =~= kws.take(i as int));
        assert(kws[i as int] == required_keywords@[i as int]@);
        let keyword = &required_keywords[i];
        let keyword_lower = to_lowercase(keyword.as_str());
        if str_contains(body_lower.as_str(), keyword_lower.as_str()) {
            let ghost before = strings_view(matched@);
            matched.push(keyword.clone());
            assert(strings_view(matched@) =~= before + seq![kws[i as int]]);
            assert(strings_view(missing@) =~= strings_view(missing@) + Seq::<Seq<char>>::empty());
        } else {
            let ghost before = strings_view(missing@);
            missing.push(keyword.clone());
            assert(strings_view(missing@) =~= before + seq![kws[i as int]]);
            assert(strings_view(matched@) =~= strings_view(matched@) + Seq::<Seq<char>>::empty());
        }
        i = i + 1;
    }
    assert(kws.take(i as int) =~= kws);
    KeywordReview { matched_keywords: matched, missing_keywords: missing }
}

} // verus!
