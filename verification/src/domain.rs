//! Session trees: typed nodes, status lifecycle, tree invariants, lineage and
//! context eligibility.
use vstd::prelude::*;

verus! {

// ---------------------------------------------------------------------------
// Identifiers
// ---------------------------------------------------------------------------

/// Identifier of a node in a session tree.
#[derive(Clone, Debug, Eq, Hash, PartialOrd, Ord)]
pub struct NodeId(pub String);

impl View for NodeId {
    type V = Seq<char>;

    open spec fn view(&self) -> Seq<char> {
        self.0@
    }
}

impl PartialEq for NodeId {
    fn eq(&self, other: &Self) -> (res: bool) {
        self.0 == other.0
    }
}

impl vstd::std_specs::cmp::PartialEqSpecImpl for NodeId {
    open spec fn obeys_eq_spec() -> bool {
        true
    }

    open spec fn eq_spec(&self, other: &Self) -> bool {
        self.0@ == other.0@
    }
}

impl NodeId {
    /// Wraps the given text as a node identifier.
    pub fn new(id: String) -> (r: Self)
        ensures
            r@ == id@,
    {
        NodeId(id)
    }

    /// The identifier's text.
    pub fn as_str(&self) -> (r: &str)
        ensures
            r@ == self@,
    {
        self.0.as_str()
    }

    /// A copy of this identifier.
    pub fn duplicate(&self) -> (r: Self)
        ensures
            r == *self,
            r@ == self@,
    {
        NodeId(self.0.clone())
    }
}

impl From<&str> for NodeId {
    fn from(s: &str) -> (r: Self)
        ensures
            r@ == s@,
    {
        NodeId(s.to_owned())
    }
}

impl vstd::std_specs::convert::FromSpecImpl<&str> for NodeId {
    open spec fn obeys_from_spec() -> bool {
        false
    }

    open spec fn from_spec(v: &str) -> Self {
        NodeId(arbitrary())
    }
}

impl From<String> for NodeId {
    fn from(s: String) -> (r: Self)
        ensures
            r@ == s@,
    {
        NodeId(s)
    }
}

impl vstd::std_specs::convert::FromSpecImpl<String> for NodeId {
    open spec fn obeys_from_spec() -> bool {
        true
    }

    open spec fn from_spec(v: String) -> Self {
        NodeId(v)
    }
}

/// Identifier of a session.
#[derive(Clone, Debug, Eq, Hash, PartialOrd, Ord)]
pub struct SessionId(pub String);

impl View for SessionId {
    type V = Seq<char>;

    open spec fn view(&self) -> Seq<char> {
        self.0@
    }
}

impl PartialEq for SessionId {
    fn eq(&self, other: &Self) -> (res: bool) {
        self.0 == other.0
    }
}

impl vstd::std_specs::cmp::PartialEqSpecImpl for SessionId {
    open spec fn obeys_eq_spec() -> bool {
        true
    }

    open spec fn eq_spec(&self, other: &Self) -> bool {
        self.0@ == other.0@
    }
}

impl SessionId {
    /// Wraps the given text as a session identifier.
    pub fn new(id: String) -> (r: Self)
        ensures
            r@ == id@,
    {
        SessionId(id)
    }

    /// The identifier's text.
    pub fn as_str(&self) -> (r: &str)
        ensures
            r@ == self@,
    {
        self.0.as_str()
    }
}

impl From<&str> for SessionId {
    fn from(s: &str) -> (r: Self)
        ensures
            r@ == s@,
    {
        SessionId(s.to_owned())
    }
}

impl vstd::std_specs::convert::FromSpecImpl<&str> for SessionId {
    open spec fn obeys_from_spec() -> bool {
        false
    }

    open spec fn from_spec(v: &str) -> Self {
        SessionId(arbitrary())
    }
}

impl From<String> for SessionId {
    fn from(s: String) -> (r: Self)
        ensures
            r@ == s@,
    {
        SessionId(s)
    }
}

impl vstd::std_specs::convert::FromSpecImpl<String> for SessionId {
    open spec fn obeys_from_spec() -> bool {
        true
    }

    open spec fn from_spec(v: String) -> Self {
        SessionId(v)
    }
}

// ---------------------------------------------------------------------------
// Kinds and statuses
// ---------------------------------------------------------------------------

#[derive(Clone, Copy, Debug, PartialEq, Eq, Structural)]
pub enum NodeKind {
    Intent,
    Prompt,
    Artifact,
}

#[derive(Clone, Copy, Debug, PartialEq, Eq, Structural)]
pub enum ArtifactKind {
    Context,
    Implementation,
}

#[derive(Clone, Copy, Debug, PartialEq, Eq, Structural)]
pub enum NodeStatus {
    Proposed,
    Accepted,
    Rejected,
    Superseded,
}

#[derive(Clone, Copy, Debug, PartialEq, Eq, Structural)]
pub enum SessionState {
    Active,
    Completed,
    Abandoned,
}

/// The status lifecycle: a status may stay as it is, a proposed node may be
/// accepted or rejected, and an accepted node may be superseded.
pub open spec fn status_transition_allowed(from: NodeStatus, to: NodeStatus) -> bool {
    ||| from == to
    ||| (from == NodeStatus::Proposed && to == NodeStatus::Accepted)
    ||| (from == NodeStatus::Proposed && to == NodeStatus::Rejected)
    ||| (from == NodeStatus::Accepted && to == NodeStatus::Superseded)
}

/// Which parent kinds may hold which child kinds: intents hold prompts, and
/// prompts hold prompts (continuations) and artifacts.
pub open spec fn child_allowed(parent: NodeKind, child: NodeKind) -> bool {
    ||| (parent == NodeKind::Intent && child == NodeKind::Prompt)
    ||| (parent == NodeKind::Prompt && child == NodeKind::Prompt)
    ||| (parent == NodeKind::Prompt && child == NodeKind::Artifact)
}

impl NodeStatus {
    /// Whether the lifecycle allows moving from this status to `next`.
    pub fn can_transition_to(self, next: Self) -> (r: bool)
        ensures
            r == status_transition_allowed(self, next),
    {
        self == next || match (self, next) {
            (NodeStatus::Proposed, NodeStatus::Accepted) => true,
            (NodeStatus::Proposed, NodeStatus::Rejected) => true,
            (NodeStatus::Accepted, NodeStatus::Superseded) => true,
            _ => false,
        }
    }

    /// `Ok` exactly when the transition is allowed; otherwise the error names
    /// both statuses.
    pub fn validate_transition(self, next: Self) -> (r: Result<(), ValidationError>)
        ensures
            r is Ok <==> status_transition_allowed(self, next),
            r matches Err(e) ==> e@ == (ValidationErrorView::InvalidStatusTransition {
                from: self,
                to: next,
            }),
    {
        if self.can_transition_to(next) {
            Ok(())
        } else {
            Err(ValidationError::InvalidStatusTransition { from: self, to: next })
        }
    }
}

/// Same as [`NodeStatus::can_transition_to`].
pub fn is_valid_status_transition(from: NodeStatus, to: NodeStatus) -> (r: bool)
    ensures
        r == status_transition_allowed(from, to),
{
    from.can_transition_to(to)
}

/// Whether a node of kind `child_kind` may be attached under `parent_kind`.
pub fn can_attach_child(parent_kind: NodeKind, child_kind: NodeKind) -> (r: bool)
    ensures
        r == child_allowed(parent_kind, child_kind),
{
    match (parent_kind, child_kind) {
        (NodeKind::Intent, NodeKind::Prompt) => true,
        (NodeKind::Prompt, NodeKind::Prompt) => true,
        (NodeKind::Prompt, NodeKind::Artifact) => true,
        _ => false,
    }
}

/// `Ok` exactly when [`can_attach_child`] holds; otherwise the error names both kinds.
pub fn validate_parent_child(parent_kind: NodeKind, child_kind: NodeKind) -> (r: Result<
    (),
    ValidationError,
>)
    ensures
        r is Ok <==> child_allowed(parent_kind, child_kind),
        r matches Err(e) ==> e@ == (ValidationErrorView::InvalidParentChild {
            parent_kind,
            child_kind,
        }),
{
    if can_attach_child(parent_kind, child_kind) {
        Ok(())
    } else {
        Err(ValidationError::InvalidParentChild { parent_kind, child_kind })
    }
}

// ---------------------------------------------------------------------------
// Validation errors
// ---------------------------------------------------------------------------

#[derive(Debug, Clone, PartialEq, Eq)]
pub enum ValidationError {
    InvalidParentChild { parent_kind: NodeKind, child_kind: NodeKind },
    InvalidStatusTransition { from: NodeStatus, to: NodeStatus },
    DuplicateNodeId { node_id: NodeId },
    MissingIntentNode { intent_node_id: NodeId },
    IntentNodeMustBeIntent { node_id: NodeId, found_kind: NodeKind },
    UnexpectedIntentNode { node_id: NodeId },
    MissingCurrentNode { current_node_id: NodeId },
    InvalidCurrentNodeKind { node_id: NodeId, kind: NodeKind },
    InvalidCurrentNodeStatus { node_id: NodeId, status: NodeStatus },
    NodeMissingParent { node_id: NodeId, kind: NodeKind },
    MissingParentNode { node_id: NodeId, parent_id: NodeId },
    MissingChildNode { parent_id: NodeId, child_id: NodeId },
    ParentMissingChildReference { parent_id: NodeId, child_id: NodeId },
    ChildMissingParentReference {
        parent_id: NodeId,
        child_id: NodeId,
        observed_parent_id: Option<NodeId>,
    },
    InvalidParentChildLink {
        parent_id: NodeId,
        parent_kind: NodeKind,
        child_id: NodeId,
        child_kind: NodeKind,
    },
    IntentNodeHasParent { node_id: NodeId, parent_id: NodeId },
    NodeDetachedFromIntent { node_id: NodeId },
}

/// A [`ValidationError`] with identifiers taken by their text.
pub enum ValidationErrorView {
    InvalidParentChild { parent_kind: NodeKind, child_kind: NodeKind },
    InvalidStatusTransition { from: NodeStatus, to: NodeStatus },
    DuplicateNodeId { node_id: Seq<char> },
    MissingIntentNode { intent_node_id: Seq<char> },
    IntentNodeMustBeIntent { node_id: Seq<char>, found_kind: NodeKind },
    UnexpectedIntentNode { node_id: Seq<char> },
    MissingCurrentNode { current_node_id: Seq<char> },
    InvalidCurrentNodeKind { node_id: Seq<char>, kind: NodeKind },
    InvalidCurrentNodeStatus { node_id: Seq<char>, status: NodeStatus },
    NodeMissingParent { node_id: Seq<char>, kind: NodeKind },
    MissingParentNode { node_id: Seq<char>, parent_id: Seq<char> },
    MissingChildNode { parent_id: Seq<char>, child_id: Seq<char> },
    ParentMissingChildReference { parent_id: Seq<char>, child_id: Seq<char> },
    ChildMissingParentReference {
        parent_id: Seq<char>,
        child_id: Seq<char>,
        observed_parent_id: Option<Seq<char>>,
    },
    InvalidParentChildLink {
        parent_id: Seq<char>,
        parent_kind: NodeKind,
        child_id: Seq<char>,
        child_kind: NodeKind,
    },
    IntentNodeHasParent { node_id: Seq<char>, parent_id: Seq<char> },
    NodeDetachedFromIntent { node_id: Seq<char> },
}

/// The text of an optional identifier.
pub open spec fn opt_id_view(o: Option<NodeId>) -> Option<Seq<char>> {
    match o {
        Some(id) => Some(id@),
        None => None,
    }
}

/// The text of an optional string.
pub open spec fn opt_str_view(o: Option<String>) -> Option<Seq<char>> {
    match o {
        Some(s) => Some(s@),
        None => None,
    }
}

/// The texts of a sequence of identifiers.
pub open spec fn ids_view(ids: Seq<NodeId>) -> Seq<Seq<char>> {
    ids.map_values(|id: NodeId| id@)
}

impl View for ValidationError {
    type V = ValidationErrorView;

    open spec fn view(&self) -> ValidationErrorView {
        match *self {
            ValidationError::InvalidParentChild { parent_kind, child_kind } =>
                ValidationErrorView::InvalidParentChild { parent_kind, child_kind },
            ValidationError::InvalidStatusTransition { from, to } =>
                ValidationErrorView::InvalidStatusTransition { from, to },
            ValidationError::DuplicateNodeId { node_id } =>
                ValidationErrorView::DuplicateNodeId { node_id: node_id@ },
            ValidationError::MissingIntentNode { intent_node_id } =>
                ValidationErrorView::MissingIntentNode { intent_node_id: intent_node_id@ },
            ValidationError::IntentNodeMustBeIntent { node_id, found_kind } =>
                ValidationErrorView::IntentNodeMustBeIntent { node_id: node_id@, found_kind },
            ValidationError::UnexpectedIntentNode { node_id } =>
                ValidationErrorView::UnexpectedIntentNode { node_id: node_id@ },
            ValidationError::MissingCurrentNode { current_node_id } =>
                ValidationErrorView::MissingCurrentNode { current_node_id: current_node_id@ },
            ValidationError::InvalidCurrentNodeKind { node_id, kind } =>
                ValidationErrorView::InvalidCurrentNodeKind { node_id: node_id@, kind },
            ValidationError::InvalidCurrentNodeStatus { node_id, status } =>
                ValidationErrorView::InvalidCurrentNodeStatus { node_id: node_id@, status },
            ValidationError::NodeMissingParent { node_id, kind } =>
                ValidationErrorView::NodeMissingParent { node_id: node_id@, kind },
            ValidationError::MissingParentNode { node_id, parent_id } =>
                ValidationErrorView::MissingParentNode {
                    node_id: node_id@,
                    parent_id: parent_id@,
                },
            ValidationError::MissingChildNode { parent_id, child_id } =>
                ValidationErrorView::MissingChildNode {
                    parent_id: parent_id@,
                    child_id: child_id@,
                },
            ValidationError::ParentMissingChildReference { parent_id, child_id } =>
                ValidationErrorView::ParentMissingChildReference {
                    parent_id: parent_id@,
                    child_id: child_id@,
                },
            ValidationError::ChildMissingParentReference {
                parent_id,
                child_id,
                observed_parent_id,
            } => ValidationErrorView::ChildMissingParentReference {
                parent_id: parent_id@,
                child_id: child_id@,
                observed_parent_id: opt_id_view(observed_parent_id),
            },
            ValidationError::InvalidParentChildLink {
                parent_id,
                parent_kind,
                child_id,
                child_kind,
            } => ValidationErrorView::InvalidParentChildLink {
                parent_id: parent_id@,
                parent_kind,
                child_id: child_id@,
                child_kind,
            },
            ValidationError::IntentNodeHasParent { node_id, parent_id } =>
                ValidationErrorView::IntentNodeHasParent {
                    node_id: node_id@,
                    parent_id: parent_id@,
                },
            ValidationError::NodeDetachedFromIntent { node_id } =>
                ValidationErrorView::NodeDetachedFromIntent { node_id: node_id@ },
        }
    }
}

// ---------------------------------------------------------------------------
// Nodes and trees
// ---------------------------------------------------------------------------

#[derive(Debug, Clone)]
pub struct SessionNode {
    pub id: NodeId,
    pub label: String,
    pub kind: NodeKind,
    pub artifact_kind: Option<ArtifactKind>,
    pub status: NodeStatus,
    pub parent_id: Option<NodeId>,
    pub children_ids: Vec<NodeId>,
    pub input_node_ids: Vec<NodeId>,
    pub payload_ref: Option<String>,
}

/// A [`SessionNode`] with its texts and identifiers taken as character sequences.
pub struct SessionNodeView {
    pub id: Seq<char>,
    pub label: Seq<char>,
    pub kind: NodeKind,
    pub artifact_kind: Option<ArtifactKind>,
    pub status: NodeStatus,
    pub parent_id: Option<Seq<char>>,
    pub children_ids: Seq<Seq<char>>,
    pub input_node_ids: Seq<Seq<char>>,
    pub payload_ref: Option<Seq<char>>,
}

impl View for SessionNode {
    type V = SessionNodeView;

    open spec fn view(&self) -> SessionNodeView {
        SessionNodeView {
            id: self.id@,
            label: self.label@,
            kind: self.kind,
            artifact_kind: self.artifact_kind,
            status: self.status,
            parent_id: opt_id_view(self.parent_id),
            children_ids: ids_view(self.children_ids@),
            input_node_ids: ids_view(self.input_node_ids@),
            payload_ref: opt_str_view(self.payload_ref),
        }
    }
}

#[derive(Debug, Clone)]
pub struct SessionTree {
    pub schema_version: u32,
    pub session_id: SessionId,
    pub intent_node_id: NodeId,
    pub current_node_id: NodeId,
    pub state: SessionState,
    pub nodes: Vec<SessionNode>,
}

/// A [`SessionTree`] with every node taken by its view.
pub struct SessionTreeView {
    pub schema_version: u32,
    pub session_id: Seq<char>,
    pub intent_node_id: Seq<char>,
    pub current_node_id: Seq<char>,
    pub state: SessionState,
    pub nodes: Seq<SessionNodeView>,
}

/// The views of a sequence of nodes.
pub open spec fn nodes_view(ns: Seq<SessionNode>) -> Seq<SessionNodeView> {
    ns.map_values(|n: SessionNode| n@)
}

impl View for SessionTree {
    type V = SessionTreeView;

    open spec fn view(&self) -> SessionTreeView {
        SessionTreeView {
            schema_version: self.schema_version,
            session_id: self.session_id@,
            intent_node_id: self.intent_node_id@,
            current_node_id: self.current_node_id@,
            state: self.state,
            nodes: nodes_view(self.nodes@),
        }
    }
}

/// Position of the last node with identifier `id`, or -1. Lookups through an
/// identifier-keyed map built from the nodes in order find this node.
pub open spec fn last_index_of(ns: Seq<SessionNodeView>, id: Seq<char>) -> int
    decreases ns.len(),
{
    if ns.len() == 0 {
        -1
    } else if ns.last().id == id {
        ns.len() - 1
    } else {
        last_index_of(ns.drop_last(), id)
    }
}

/// Position of the first node with identifier `id`, or -1. A front-to-back
/// search finds this node.
pub open spec fn first_index_of(ns: Seq<SessionNodeView>, id: Seq<char>) -> int
    decreases ns.len(),
{
    if ns.len() == 0 {
        -1
    } else if ns[0].id == id {
        0
    } else {
        let r = first_index_of(ns.drop_first(), id);
        if r < 0 {
            -1
        } else {
            r + 1
        }
    }
}

pub proof fn lemma_last_index_of(ns: Seq<SessionNodeView>, id: Seq<char>)
    ensures
        -1 <= last_index_of(ns, id) < ns.len(),
        last_index_of(ns, id) >= 0 ==> ns[last_index_of(ns, id)].id == id,
        forall|j: int| last_index_of(ns, id) < j < ns.len() ==> ns[j].id != id,
    decreases ns.len(),
{
    if ns.len() > 0 && ns.last().id != id {
        lemma_last_index_of(ns.drop_last(), id);
        assert forall|j: int| last_index_of(ns, id) < j < ns.len() implies ns[j].id != id by {
            if j < ns.len() - 1 {
                assert(ns.drop_last()[j] == ns[j]);
            }
        }
    }
}

pub proof fn lemma_first_index_of(ns: Seq<SessionNodeView>, id: Seq<char>)
    ensures
        -1 <= first_index_of(ns, id) < ns.len(),
        first_index_of(ns, id) >= 0 ==> ns[first_index_of(ns, id)].id == id,
        forall|j: int|
            0 <= j < ns.len() && (first_index_of(ns, id) < 0 || j < first_index_of(ns, id))
                ==> ns[j].id != id,
    decreases ns.len(),
{
    if ns.len() > 0 && ns[0].id != id {
        lemma_first_index_of(ns.drop_first(), id);
        assert forall|j: int|
            0 <= j < ns.len() && (first_index_of(ns, id) < 0 || j < first_index_of(ns, id))
            implies ns[j].id != id by {
            if j > 0 {
                assert(ns.drop_first()[j - 1] == ns[j]);
            }
        }
    }
}

/// The position of the last node whose identifier is `id`.
fn find_last_index(nodes: &Vec<SessionNode>, id: &NodeId) -> (r: Option<usize>)
    ensures
        match r {
            Some(i) => i < nodes.len() && i as int == last_index_of(nodes_view(nodes@), id@)
                && nodes@[i as int].id@ == id@,
            None => last_index_of(nodes_view(nodes@), id@) == -1,
        },
{
    let ghost ns = nodes_view(nodes@);
    proof {
        lemma_last_index_of(ns, id@);
    }
    let mut i = nodes.len();
    assert(ns.take(i as int) =~= ns);
    while i > 0
        invariant
            i <= nodes.len(),
            ns == nodes_view(nodes@),
            last_index_of(ns, id@) == last_index_of(ns.take(i as int), id@),
        decreases i,
    {
        let ghost pre = ns.take(i as int);
        assert(pre.drop_last() =~= ns.take(i - 1));
        if nodes[i - 1].id == *id {
            return Some(i - 1);
        }
        i = i - 1;
    }
    assert(ns.take(0).len() == 0);
    None
}

/// The position of the first node whose identifier is `id`.
fn find_first_index(nodes: &Vec<SessionNode>, id: &NodeId) -> (r: Option<usize>)
    ensures
        match r {
            Some(i) => i as int == first_index_of(nodes_view(nodes@), id@),
            None => first_index_of(nodes_view(nodes@), id@) == -1,
        },
{
    let ghost ns = nodes_view(nodes@);
    proof {
        lemma_first_index_of(ns, id@);
    }
    let mut i: usize = 0;
    while i < nodes.len()
        invariant
            i <= nodes.len(),
            ns == nodes_view(nodes@),
            forall|j: int| 0 <= j < i ==> ns[j].id != id@,
            -1 <= first_index_of(ns, id@) < ns.len(),
            first_index_of(ns, id@) >= 0 ==> ns[first_index_of(ns, id@)].id == id@,
            forall|j: int|
                0 <= j < ns.len() && (first_index_of(ns, id@) < 0 || j < first_index_of(ns, id@))
                    ==> ns[j].id != id@,
        decreases nodes.len() - i,
    {
        if nodes[i].id == *id {
            assert(ns[i as int].id == id@);
            return Some(i);
        }
        i = i + 1;
    }
    None
}

/// Whether `ids` holds an identifier with the text of `id`.
fn contains_id(ids: &Vec<NodeId>, id: &NodeId) -> (r: bool)
    ensures
        r == ids_view(ids@).contains(id@),
{
    let mut i: usize = 0;
    while i < ids.len()
        invariant
            i <= ids.len(),
            forall|j: int| 0 <= j < i ==> ids_view(ids@)[j] != id@,
        decreases ids.len() - i,
    {
        if ids[i] == *id {
            assert(ids_view(ids@)[i as int] == id@);
            return true;
        }
        i = i + 1;
    }
    false
}

// ---------------------------------------------------------------------------
// Tree invariants
// ---------------------------------------------------------------------------

/// Why a node cannot be the current node: only intents and prompts qualify,
/// and not while rejected or superseded.
pub open spec fn current_candidate_error(n: SessionNodeView) -> Option<ValidationErrorView> {
    if !(n.kind == NodeKind::Intent || n.kind == NodeKind::Prompt) {
        Some(ValidationErrorView::InvalidCurrentNodeKind { node_id: n.id, kind: n.kind })
    } else if n.status == NodeStatus::Rejected || n.status == NodeStatus::Superseded {
        Some(ValidationErrorView::InvalidCurrentNodeStatus { node_id: n.id, status: n.status })
    } else {
        None
    }
}

/// The first position, from `i` on, whose identifier already occurred earlier.
pub open spec fn duplicate_from(ns: Seq<SessionNodeView>, i: int) -> Option<int>
    decreases ns.len() - i,
{
    if i < 0 || i >= ns.len() {
        None
    } else if exists|j: int| 0 <= j < i && ns[j].id == ns[i].id {
        Some(i)
    } else {
        duplicate_from(ns, i + 1)
    }
}

/// What is wrong with the upward link of node `n`, if anything: only the
/// designated intent may be an intent, every other node needs an existing
/// parent of a compatible kind that lists it as a child.
pub open spec fn node_link_error(t: SessionTreeView, n: SessionNodeView) -> Option<
    ValidationErrorView,
> {
    if n.kind == NodeKind::Intent && n.id != t.intent_node_id {
        Some(ValidationErrorView::UnexpectedIntentNode { node_id: n.id })
    } else if n.kind == NodeKind::Intent {
        None
    } else {
        match n.parent_id {
            None => Some(ValidationErrorView::NodeMissingParent { node_id: n.id, kind: n.kind }),
            Some(p) => {
                let pi = last_index_of(t.nodes, p);
                if pi < 0 {
                    Some(ValidationErrorView::MissingParentNode { node_id: n.id, parent_id: p })
                } else if !child_allowed(t.nodes[pi].kind, n.kind) {
                    Some(
                        ValidationErrorView::InvalidParentChildLink {
                            parent_id: p,
                            parent_kind: t.nodes[pi].kind,
                            child_id: n.id,
                            child_kind: n.kind,
                        },
                    )
                } else if !t.nodes[pi].children_ids.contains(n.id) {
                    Some(
                        ValidationErrorView::ParentMissingChildReference {
                            parent_id: p,
                            child_id: n.id,
                        },
                    )
                } else {
                    None
                }
            },
        }
    }
}

/// The first upward-link error among the nodes from position `i` on.
pub open spec fn node_errors_from(t: SessionTreeView, i: int) -> Option<ValidationErrorView>
    decreases t.nodes.len() - i,
{
    if i < 0 || i >= t.nodes.len() {
        None
    } else {
        match node_link_error(t, t.nodes[i]) {
            Some(e) => Some(e),
            None => node_errors_from(t, i + 1),
        }
    }
}

/// What is wrong with the downward link from `parent` to the child identifier
/// `c`, if anything: the child must exist, name `parent` as its parent and be
/// of a compatible kind.
pub open spec fn child_link_error(
    ns: Seq<SessionNodeView>,
    parent: SessionNodeView,
    c: Seq<char>,
) -> Option<ValidationErrorView> {
    let ci = last_index_of(ns, c);
    if ci < 0 {
        Some(ValidationErrorView::MissingChildNode { parent_id: parent.id, child_id: c })
    } else if ns[ci].parent_id != Some(parent.id) {
        Some(
            ValidationErrorView::ChildMissingParentReference {
                parent_id: parent.id,
                child_id: c,
                observed_parent_id: ns[ci].parent_id,
            },
        )
    } else if !child_allowed(parent.kind, ns[ci].kind) {
        Some(
            ValidationErrorView::InvalidParentChildLink {
                parent_id: parent.id,
                parent_kind: parent.kind,
                child_id: c,
                child_kind: ns[ci].kind,
            },
        )
    } else {
        None
    }
}

/// The first downward-link error of `parent` among its children from position `j` on.
pub open spec fn child_errors_from(
    ns: Seq<SessionNodeView>,
    parent: SessionNodeView,
    j: int,
) -> Option<ValidationErrorView>
    decreases parent.children_ids.len() - j,
{
    if j < 0 || j >= parent.children_ids.len() {
        None
    } else {
        match child_link_error(ns, parent, parent.children_ids[j]) {
            Some(e) => Some(e),
            None => child_errors_from(ns, parent, j + 1),
        }
    }
}

/// The first downward-link error among the parents from position `i` on.
pub open spec fn parent_errors_from(ns: Seq<SessionNodeView>, i: int) -> Option<
    ValidationErrorView,
>
    decreases ns.len() - i,
{
    if i < 0 || i >= ns.len() {
        None
    } else {
        match child_errors_from(ns, ns[i], 0) {
            Some(e) => Some(e),
            None => parent_errors_from(ns, i + 1),
        }
    }
}

/// Whether walking up the parent links from `id` meets `target` within
/// `fuel` links.
pub open spec fn reaches(ns: Seq<SessionNodeView>, id: Seq<char>, target: Seq<char>, fuel: nat) -> bool
    decreases fuel,
{
    if id == target {
        true
    } else if fuel == 0 {
        false
    } else {
        let i = last_index_of(ns, id);
        if i < 0 {
            false
        } else {
            match ns[i].parent_id {
                Some(p) => reaches(ns, p, target, (fuel - 1) as nat),
                None => false,
            }
        }
    }
}

/// The first position, from `i` on, whose node does not reach the intent
/// node within as many parent links as there are nodes.
pub open spec fn detached_from(ns: Seq<SessionNodeView>, intent: Seq<char>, i: int) -> Option<int>
    decreases ns.len() - i,
{
    if i < 0 || i >= ns.len() {
        None
    } else if !reaches(ns, ns[i].id, intent, ns.len() as nat) {
        Some(i)
    } else {
        detached_from(ns, intent, i + 1)
    }
}

/// What keeps the nodes from forming one tree under the intent node: the
/// intent node has a parent, or some node does not lead up to the intent
/// node (it hangs in a cycle of parent links or in a part cut off from it).
/// Without an intent node there is nothing to check here.
pub open spec fn rooted_error(ns: Seq<SessionNodeView>, intent: Seq<char>) -> Option<
    ValidationErrorView,
> {
    let ii = last_index_of(ns, intent);
    if ii < 0 {
        None
    } else {
        match ns[ii].parent_id {
            Some(p) => Some(ValidationErrorView::IntentNodeHasParent { node_id: intent, parent_id: p }),
            None => match detached_from(ns, intent, 0) {
                Some(i) => Some(ValidationErrorView::NodeDetachedFromIntent { node_id: ns[i].id }),
                None => None,
            },
        }
    }
}

/// The first violated tree invariant, checked in this order: unique
/// identifiers; an existing intent node of kind intent; an existing current
/// node that qualifies as current; upward links of every node in order;
/// downward links of every node in order; then that the nodes form one tree
/// under the intent node.
pub open spec fn tree_error(t: SessionTreeView) -> Option<ValidationErrorView> {
    let ns = t.nodes;
    match duplicate_from(ns, 0) {
        Some(i) => Some(ValidationErrorView::DuplicateNodeId { node_id: ns[i].id }),
        None => {
            let ii = last_index_of(ns, t.intent_node_id);
            let ci = last_index_of(ns, t.current_node_id);
            if ii < 0 {
                Some(ValidationErrorView::MissingIntentNode { intent_node_id: t.intent_node_id })
            } else if ns[ii].kind != NodeKind::Intent {
                Some(
                    ValidationErrorView::IntentNodeMustBeIntent {
                        node_id: t.intent_node_id,
                        found_kind: ns[ii].kind,
                    },
                )
            } else if ci < 0 {
                Some(
                    ValidationErrorView::MissingCurrentNode { current_node_id: t.current_node_id },
                )
            } else if current_candidate_error(ns[ci]) is Some {
                current_candidate_error(ns[ci])
            } else if node_errors_from(t, 0) is Some {
                node_errors_from(t, 0)
            } else if parent_errors_from(ns, 0) is Some {
                parent_errors_from(ns, 0)
            } else {
                rooted_error(ns, t.intent_node_id)
            }
        },
    }
}

/// The tree satisfies every invariant that validation checks.
pub open spec fn tree_is_valid(t: SessionTreeView) -> bool {
    tree_error(t) is None
}

fn validate_current_node_candidate(node: &SessionNode) -> (r: Result<(), ValidationError>)
    ensures
        match r {
            Ok(()) => current_candidate_error(node@) is None,
            Err(e) => current_candidate_error(node@) == Some(e@),
        },
{
    match node.kind {
        NodeKind::Intent | NodeKind::Prompt => {},
        _ => {
            return Err(
                ValidationError::InvalidCurrentNodeKind { node_id: node.id.duplicate(), kind: node.kind },
            );
        },
    }
    match node.status {
        NodeStatus::Rejected | NodeStatus::Superseded => Err(
            ValidationError::InvalidCurrentNodeStatus {
                node_id: node.id.duplicate(),
                status: node.status,
            },
        ),
        _ => Ok(()),
    }
}

/// A copy of an optional identifier.
fn duplicate_opt_id(o: &Option<NodeId>) -> (r: Option<NodeId>)
    ensures
        opt_id_view(r) == opt_id_view(*o),
        r == *o,
{
    match o {
        Some(id) => Some(id.duplicate()),
        None => None,
    }
}

/// A copy of a sequence of identifiers.
pub fn duplicate_ids(ids: &Vec<NodeId>) -> (r: Vec<NodeId>)
    ensures
        r@ == ids@,
        ids_view(r@) == ids_view(ids@),
{
    let mut r: Vec<NodeId> = Vec::new();
    let mut i: usize = 0;
    while i < ids.len()
        invariant
            i <= ids.len(),
            r@ == ids@.take(i as int),
        decreases ids.len() - i,
    {
        r.push(ids[i].duplicate());
        assert(r@ =~= ids@.take(i + 1));
        i = i + 1;
    }
    assert(ids@.take(ids.len() as int) =~= ids@);
    r
}

impl SessionTree {
    fn node_link_check(&self, i: usize) -> (r: Result<(), ValidationError>)
        requires
            i < self.nodes.len(),
        ensures
            match r {
                Ok(()) => node_link_error(self@, self@.nodes[i as int]) is None,
                Err(e) => node_link_error(self@, self@.nodes[i as int]) == Some(e@),
            },
    {
        let ghost t = self@;
        let node = &self.nodes[i];
        assert(t.nodes[i as int] == node@);
        if node.kind == NodeKind::Intent && node.id != self.intent_node_id {
            return Err(ValidationError::UnexpectedIntentNode { node_id: node.id.duplicate() });
        }
        if node.kind == NodeKind::Intent {
            return Ok(());
        }
        let parent_id = match &node.parent_id {
            None => {
                return Err(
                    ValidationError::NodeMissingParent { node_id: node.id.duplicate(), kind: node.kind },
                );
            },
            Some(p) => p,
        };
        let pi = match find_last_index(&self.nodes, parent_id) {
            None => {
                return Err(
                    ValidationError::MissingParentNode {
                        node_id: node.id.duplicate(),
                        parent_id: parent_id.duplicate(),
                    },
                );
            },
            Some(pi) => pi,
        };
        let parent = &self.nodes[pi];
        assert(t.nodes[pi as int] == parent@);
        if !can_attach_child(parent.kind, node.kind) {
            return Err(
                ValidationError::InvalidParentChildLink {
                    parent_id: parent_id.duplicate(),
                    parent_kind: parent.kind,
                    child_id: node.id.duplicate(),
                    child_kind: node.kind,
                },
            );
        }
        if !contains_id(&parent.children_ids, &node.id) {
            return Err(
                ValidationError::ParentMissingChildReference {
                    parent_id: parent_id.duplicate(),
                    child_id: node.id.duplicate(),
                },
            );
        }
        Ok(())
    }

    fn child_link_check(&self, pi: usize, j: usize) -> (r: Result<(), ValidationError>)
        requires
            pi < self.nodes.len(),
            j < self.nodes[pi as int].children_ids.len(),
        ensures
            match r {
                Ok(()) => child_link_error(
                    self@.nodes,
                    self@.nodes[pi as int],
                    self@.nodes[pi as int].children_ids[j as int],
                ) is None,
                Err(e) => child_link_error(
                    self@.nodes,
                    self@.nodes[pi as int],
                    self@.nodes[pi as int].children_ids[j as int],
                ) == Some(e@),
            },
    {
        let ghost t = self@;
        let parent = &self.nodes[pi];
        assert(t.nodes[pi as int] == parent@);
        let child_id = &parent.children_ids[j];
        assert(parent@.children_ids[j as int] == child_id@);
        let ci = match find_last_index(&self.nodes, child_id) {
            None => {
                return Err(
                    ValidationError::MissingChildNode {
                        parent_id: parent.id.duplicate(),
                        child_id: child_id.duplicate(),
                    },
                );
            },
            Some(ci) => ci,
        };
        let child = &self.nodes[ci];
        assert(t.nodes[ci as int] == child@);
        let linked = match &child.parent_id {
            Some(p) => *p == parent.id,
            None => false,
        };
        if !linked {
            return Err(
                ValidationError::ChildMissingParentReference {
                    parent_id: parent.id.duplicate(),
                    child_id: child_id.duplicate(),
                    observed_parent_id: duplicate_opt_id(&child.parent_id),
                },
            );
        }
        if !can_attach_child(parent.kind, child.kind) {
            return Err(
                ValidationError::InvalidParentChildLink {
                    parent_id: parent.id.duplicate(),
                    parent_kind: parent.kind,
                    child_id: child_id.duplicate(),
                    child_kind: child.kind,
                },
            );
        }
        Ok(())
    }

    /// Checks every tree invariant and reports the first one violated, in the
    /// order given by [`tree_error`].
    pub fn validate_tree_invariants(&self) -> (r: Result<(), ValidationError>)
        ensures
            match r {
                Ok(()) => tree_error(self@) is None,
                Err(e) => tree_error(self@) == Some(e@),
            },
            r is Ok ==> lineage_defined(self@),
    {
        let ghost t = self@;
        let ghost ns = t.nodes;
        let n = self.nodes.len();
        // Unique identifiers.
        let mut i: usize = 0;
        while i < n
            invariant
                n == self.nodes.len(),
                t == self@,
                ns == t.nodes,
                i <= n,
                duplicate_from(ns, 0) == duplicate_from(ns, i as int),
            decreases n - i,
        {
            let mut j: usize = 0;
            while j < i
                invariant
                    n == self.nodes.len(),
                    t == self@,
                    ns == t.nodes,
                    i < n,
                    j <= i,
                    forall|k: int| 0 <= k < j ==> ns[k].id != ns[i as int].id,
                    duplicate_from(ns, 0) == duplicate_from(ns, i as int),
                decreases i - j,
            {
                if self.nodes[j].id == self.nodes[i].id {
                    assert(ns[j as int] == self.nodes[j as int]@);
                    assert(ns[i as int] == self.nodes[i as int]@);
                    assert(ns[j as int].id == ns[i as int].id);
                    assert(duplicate_from(ns, i as int) == Some(i as int));
                    return Err(ValidationError::DuplicateNodeId { node_id: self.nodes[i].id.duplicate() });
                }
                j = j + 1;
            }
            assert(!(exists|k: int| 0 <= k < i && ns[k].id == ns[i as int].id));
            i = i + 1;
        }
        assert(duplicate_from(ns, n as int) is None);
        proof {
            lemma_last_index_of(ns, t.intent_node_id);
            lemma_last_index_of(ns, t.current_node_id);
        }
        // Intent node.
        let ii = match find_last_index(&self.nodes, &self.intent_node_id) {
            None => {
                return Err(
                    ValidationError::MissingIntentNode { intent_node_id: self.intent_node_id.duplicate() },
                );
            },
            Some(ii) => ii,
        };
        assert(ns[ii as int] == self.nodes[ii as int]@);
        if self.nodes[ii].kind != NodeKind::Intent {
            return Err(
                ValidationError::IntentNodeMustBeIntent {
                    node_id: self.intent_node_id.duplicate(),
                    found_kind: self.nodes[ii].kind,
                },
            );
        }
        // Current node.
        let ci = match find_last_index(&self.nodes, &self.current_node_id) {
            None => {
                return Err(
                    ValidationError::MissingCurrentNode {
                        current_node_id: self.current_node_id.duplicate(),
                    },
                );
            },
            Some(ci) => ci,
        };
        assert(ns[ci as int] == self.nodes[ci as int]@);
        validate_current_node_candidate(&self.nodes[ci])?;
        assert(tree_error(t) == (if node_errors_from(t, 0) is Some {
            node_errors_from(t, 0)
        } else if parent_errors_from(ns, 0) is Some {
            parent_errors_from(ns, 0)
        } else {
            rooted_error(ns, t.intent_node_id)
        }));
        // Upward links.
        let mut i: usize = 0;
        while i < n
            invariant
                n == self.nodes.len(),
                t == self@,
                ns == t.nodes,
                i <= n,
                node_errors_from(t, 0) == node_errors_from(t, i as int),
                tree_error(t) == (if node_errors_from(t, 0) is Some {
                    node_errors_from(t, 0)
                } else if parent_errors_from(ns, 0) is Some {
                    parent_errors_from(ns, 0)
                } else {
                    rooted_error(ns, t.intent_node_id)
                }),
            decreases n - i,
        {
            self.node_link_check(i)?;
            i = i + 1;
        }
        assert(node_errors_from(t, n as int) is None);
        let ghost rest = if parent_errors_from(ns, 0) is Some {
            parent_errors_from(ns, 0)
        } else {
            rooted_error(ns, t.intent_node_id)
        };
        assert(tree_error(t) == rest);
        // Downward links.
        let mut pi: usize = 0;
        while pi < n
            invariant
                n == self.nodes.len(),
                t == self@,
                ns == t.nodes,
                pi <= n,
                parent_errors_from(ns, 0) == parent_errors_from(ns, pi as int),
                tree_error(t) == rest,
                rest == (if parent_errors_from(ns, 0) is Some {
                    parent_errors_from(ns, 0)
                } else {
                    rooted_error(ns, t.intent_node_id)
                }),
            decreases n - pi,
        {
            let m = self.nodes[pi].children_ids.len();
            let ghost parent = ns[pi as int];
            assert(parent == self.nodes[pi as int]@);
            assert(parent.children_ids.len() == m);
            let mut j: usize = 0;
            while j < m
                invariant
                    n == self.nodes.len(),
                    t == self@,
                    ns == t.nodes,
                    pi < n,
                    parent == ns[pi as int],
                    m == parent.children_ids.len(),
                    m == self.nodes[pi as int].children_ids.len(),
                    j <= m,
                    child_errors_from(ns, parent, 0) == child_errors_from(ns, parent, j as int),
                    tree_error(t) == rest,
                rest == (if parent_errors_from(ns, 0) is Some {
                    parent_errors_from(ns, 0)
                } else {
                    rooted_error(ns, t.intent_node_id)
                }),
                    parent_errors_from(ns, 0) == parent_errors_from(ns, pi as int),
                decreases m - j,
            {
                self.child_link_check(pi, j)?;
                j = j + 1;
            }
            assert(child_errors_from(ns, parent, m as int) is None);
            pi = pi + 1;
        }
        assert(parent_errors_from(ns, n as int) is None);
        assert(tree_error(t) == rooted_error(ns, t.intent_node_id));
        // One tree under the intent node.
        assert(ii as int == last_index_of(ns, t.intent_node_id));
        match &self.nodes[ii].parent_id {
            Some(p) => {
                return Err(
                    ValidationError::IntentNodeHasParent {
                        node_id: self.intent_node_id.duplicate(),
                        parent_id: p.duplicate(),
                    },
                );
            },
            None => {},
        }
        let mut i: usize = 0;
        while i < n
            invariant
                n == self.nodes.len(),
                t == self@,
                ns == t.nodes,
                i <= n,
                ii as int == last_index_of(ns, t.intent_node_id),
                ns[ii as int].parent_id is None,
                tree_error(t) == rooted_error(ns, t.intent_node_id),
                detached_from(ns, t.intent_node_id, 0) == detached_from(ns, t.intent_node_id, i as int),
            decreases n - i,
        {
            if !self.reaches_intent(i) {
                assert(ns[i as int] == self.nodes[i as int]@);
                return Err(ValidationError::NodeDetachedFromIntent { node_id: self.nodes[i].id.duplicate() });
            }
            i = i + 1;
        }
        assert(detached_from(ns, t.intent_node_id, n as int) is None);
        proof {
            crate::tree_laws::law_lineage_of_valid_tree(t);
        }
        Ok(())
    }

    /// Whether the walk up the parent links from node `i` meets the intent
    /// node within as many links as there are nodes.
    fn reaches_intent(&self, i: usize) -> (r: bool)
        requires
            i < self.nodes.len(),
        ensures
            r == reaches(self@.nodes, self@.nodes[i as int].id, self@.intent_node_id, self@.nodes.len() as nat),
    {
        let ghost ns = self@.nodes;
        let ghost target = reaches(ns, ns[i as int].id, self@.intent_node_id, ns.len() as nat);
        assert(ns[i as int] == self.nodes[i as int]@);
        let mut cursor = self.nodes[i].id.duplicate();
        let mut steps: usize = self.nodes.len();
        loop
            invariant
                ns == self@.nodes,
                target == reaches(ns, ns[i as int].id, self@.intent_node_id, ns.len() as nat),
                target == reaches(ns, cursor@, self@.intent_node_id, steps as nat),
            decreases steps,
        {
            if cursor == self.intent_node_id {
                return true;
            }
            if steps == 0 {
                return false;
            }
            match find_last_index(&self.nodes, &cursor) {
                None => {
                    return false;
                },
                Some(j) => {
                    assert(ns[j as int] == self.nodes[j as int]@);
                    match &self.nodes[j].parent_id {
                        None => {
                            return false;
                        },
                        Some(p) => {
                            cursor = p.duplicate();
                            steps = steps - 1;
                        },
                    }
                },
            }
        }
    }
}

// ---------------------------------------------------------------------------
// Construction, current node, lineage and context
// ---------------------------------------------------------------------------

/// Where [`SessionTree::set_current_node`] leads: the first node with the
/// given identifier must exist and qualify as current.
pub open spec fn set_current_outcome(t: SessionTreeView, id: Seq<char>) -> Result<
    SessionTreeView,
    ValidationErrorView,
> {
    let i = first_index_of(t.nodes, id);
    if i < 0 {
        Err(ValidationErrorView::MissingCurrentNode { current_node_id: id })
    } else if current_candidate_error(t.nodes[i]) is Some {
        Err(current_candidate_error(t.nodes[i])->0)
    } else {
        Ok(SessionTreeView { current_node_id: t.nodes[i].id, ..t })
    }
}

/// The walk from node `id` up its parent links, given at most `fuel` steps:
/// `None` when the fuel runs out, otherwise the identifiers from the top node
/// down to `id`, or the first missing node met on the way.
pub open spec fn lineage_walk(ns: Seq<SessionNodeView>, id: Seq<char>, fuel: nat) -> Option<
    Result<Seq<Seq<char>>, ValidationErrorView>,
>
    decreases fuel,
{
    if fuel == 0 {
        None
    } else {
        let i = last_index_of(ns, id);
        if i < 0 {
            Some(Err(ValidationErrorView::MissingCurrentNode { current_node_id: id }))
        } else {
            match ns[i].parent_id {
                None => Some(Ok(seq![ns[i].id])),
                Some(p) => if last_index_of(ns, p) < 0 {
                    Some(Err(ValidationErrorView::MissingParentNode { node_id: ns[i].id, parent_id: p }))
                } else {
                    match lineage_walk(ns, p, (fuel - 1) as nat) {
                        None => None,
                        Some(Err(e)) => Some(Err(e)),
                        Some(Ok(s)) => Some(Ok(s.push(ns[i].id))),
                    }
                },
            }
        }
    }
}

/// The walk up from the current node ends: it meets a node without a parent
/// or a missing node. (Parent links that form a cycle never end.)
pub open spec fn lineage_defined(t: SessionTreeView) -> bool {
    exists|f: nat| lineage_walk(t.nodes, t.current_node_id, f) is Some
}

/// Enough steps for the walk up from the current node to end.
pub open spec fn lineage_fuel(t: SessionTreeView) -> nat {
    choose|f: nat| lineage_walk(t.nodes, t.current_node_id, f) is Some
}

/// The identifiers from the top of the tree down to the current node, each
/// the parent of the next; or the first missing node met on the way up.
pub open spec fn active_lineage(t: SessionTreeView) -> Result<Seq<Seq<char>>, ValidationErrorView> {
    lineage_walk(t.nodes, t.current_node_id, lineage_fuel(t))->0
}

pub proof fn lemma_lineage_walk_stable(ns: Seq<SessionNodeView>, id: Seq<char>, f1: nat, f2: nat)
    requires
        f1 <= f2,
        lineage_walk(ns, id, f1) is Some,
    ensures
        lineage_walk(ns, id, f2) == lineage_walk(ns, id, f1),
    decreases f1,
{
    let i = last_index_of(ns, id);
    if i >= 0 {
        match ns[i].parent_id {
            None => {},
            Some(p) => {
                if last_index_of(ns, p) >= 0 {
                    lemma_lineage_walk_stable(ns, p, (f1 - 1) as nat, (f2 - 1) as nat);
                }
            },
        }
    }
}

/// How many steps the walk up from `id` takes before it ends, given `fuel`.
spec fn walk_len(ns: Seq<SessionNodeView>, id: Seq<char>, fuel: nat) -> nat
    decreases fuel,
{
    if fuel == 0 {
        0
    } else {
        let i = last_index_of(ns, id);
        if i < 0 {
            1
        } else {
            match ns[i].parent_id {
                None => 1,
                Some(p) => if last_index_of(ns, p) < 0 {
                    1
                } else {
                    1 + walk_len(ns, p, (fuel - 1) as nat)
                },
            }
        }
    }
}

/// The identifier `k` parent links above `id`.
spec fn up_from(ns: Seq<SessionNodeView>, id: Seq<char>, k: nat) -> Seq<char>
    decreases k,
{
    if k == 0 {
        id
    } else {
        match ns[last_index_of(ns, id)].parent_id {
            Some(p) => up_from(ns, p, (k - 1) as nat),
            None => id,
        }
    }
}

proof fn lemma_walk_len(ns: Seq<SessionNodeView>, id: Seq<char>, f1: nat, f2: nat)
    requires
        f1 <= f2,
        lineage_walk(ns, id, f1) is Some,
    ensures
        1 <= walk_len(ns, id, f1) <= f1,
        walk_len(ns, id, f2) == walk_len(ns, id, f1),
        lineage_walk(ns, id, walk_len(ns, id, f1)) is Some,
    decreases f1,
{
    let i = last_index_of(ns, id);
    if i >= 0 {
        match ns[i].parent_id {
            None => {},
            Some(p) => {
                if last_index_of(ns, p) >= 0 {
                    lemma_walk_len(ns, p, (f1 - 1) as nat, (f2 - 1) as nat);
                }
            },
        }
    }
}

proof fn lemma_up_from(ns: Seq<SessionNodeView>, id: Seq<char>, f: nat, k: nat)
    requires
        lineage_walk(ns, id, f) is Some,
        k + 1 < walk_len(ns, id, f),
    ensures
        last_index_of(ns, up_from(ns, id, k)) >= 0,
        k < f,
        lineage_walk(ns, up_from(ns, id, k), (f - k) as nat) is Some,
        walk_len(ns, up_from(ns, id, k), (f - k) as nat) == walk_len(ns, id, f) - k,
    decreases k,
{
    let i = last_index_of(ns, id);
    if k > 0 {
        let p = ns[i].parent_id->0;
        lemma_up_from(ns, p, (f - 1) as nat, (k - 1) as nat);
    }
}

/// A walk up the parent links that ends at all ends within one step more
/// than there are nodes: past that, some node would repeat, and the walk
/// would go round for ever.
pub proof fn lemma_lineage_walk_bounded(ns: Seq<SessionNodeView>, id: Seq<char>, f: nat)
    requires
        lineage_walk(ns, id, f) is Some,
    ensures
        lineage_walk(ns, id, (ns.len() + 1) as nat) is Some,
{
    let n = ns.len();
    lemma_walk_len(ns, id, f, f);
    let len = walk_len(ns, id, f);
    if len <= n + 1 {
        lemma_lineage_walk_stable(ns, id, len, (n + 1) as nat);
    } else {
        let s = Seq::new((n + 1) as nat, |k: int| last_index_of(ns, up_from(ns, id, k as nat)));
        assert forall|k: int| 0 <= k < s.len() implies 0 <= #[trigger] s[k] < n by {
            lemma_up_from(ns, id, f, k as nat);
            lemma_last_index_of(ns, up_from(ns, id, k as nat));
        }
        if s.no_duplicates() {
            s.unique_seq_to_set();
            vstd::set_lib::lemma_int_range(0, n as int);
            assert(s.to_set().subset_of(vstd::set_lib::set_int_range(0, n as int)));
            vstd::set_lib::lemma_len_subset(s.to_set(), vstd::set_lib::set_int_range(0, n as int));
        } else {
            let (a, b) = choose|a: int, b: int|
                0 <= a < s.len() && 0 <= b < s.len() && a != b && s[a] == s[b];
            let (a, b) = if a < b {
                (a, b)
            } else {
                (b, a)
            };
            lemma_up_from(ns, id, f, a as nat);
            lemma_up_from(ns, id, f, b as nat);
            let ua = up_from(ns, id, a as nat);
            let ub = up_from(ns, id, b as nat);
            lemma_last_index_of(ns, ua);
            lemma_last_index_of(ns, ub);
            assert(ua == ub);
            lemma_walk_len(ns, ua, (f - b) as nat, (f - a) as nat);
        }
    }
}

pub proof fn lemma_lineage_walk_ids(ns: Seq<SessionNodeView>, id: Seq<char>, f: nat)
    requires
        lineage_walk(ns, id, f) matches Some(Ok(_)),
    ensures
        lineage_walk(ns, id, f) matches Some(Ok(s)) && s.len() > 0 && s.last() == id
            && forall|k: int| 0 <= k < s.len() ==> last_index_of(ns, #[trigger] s[k]) >= 0,
    decreases f,
{
    lemma_last_index_of(ns, id);
    let i = last_index_of(ns, id);
    match ns[i].parent_id {
        None => {},
        Some(p) => {
            lemma_lineage_walk_ids(ns, p, (f - 1) as nat);
        },
    }
}

/// Appends `suffix` to a successful walk.
pub open spec fn extend_walk(
    r: Result<Seq<Seq<char>>, ValidationErrorView>,
    suffix: Seq<Seq<char>>,
) -> Result<Seq<Seq<char>>, ValidationErrorView> {
    match r {
        Ok(s) => Ok(s + suffix),
        Err(e) => Err(e),
    }
}

/// A node that may serve as context: an accepted artifact.
pub open spec fn context_eligible(n: SessionNodeView) -> bool {
    n.kind == NodeKind::Artifact && n.status == NodeStatus::Accepted
}

/// Goes through `cands` in order and appends to `acc` each candidate that
/// names an existing context-eligible node and is not in `acc` yet.
pub open spec fn collect_context(
    ns: Seq<SessionNodeView>,
    cands: Seq<Seq<char>>,
    acc: Seq<Seq<char>>,
) -> Seq<Seq<char>>
    decreases cands.len(),
{
    if cands.len() == 0 {
        acc
    } else {
        let c = cands[0];
        let i = last_index_of(ns, c);
        collect_context(
            ns,
            cands.drop_first(),
            if i >= 0 && context_eligible(ns[i]) && !acc.contains(c) {
                acc.push(c)
            } else {
                acc
            },
        )
    }
}

pub proof fn lemma_collect_context_concat(
    ns: Seq<SessionNodeView>,
    a: Seq<Seq<char>>,
    b: Seq<Seq<char>>,
    acc: Seq<Seq<char>>,
)
    ensures
        collect_context(ns, a + b, acc) == collect_context(ns, b, collect_context(ns, a, acc)),
    decreases a.len(),
{
    if a.len() == 0 {
        assert(a + b =~= b);
    } else {
        assert((a + b).drop_first() =~= a.drop_first() + b);
        assert((a + b)[0] == a[0]);
        let c = a[0];
        let i = last_index_of(ns, c);
        let acc2 = if i >= 0 && context_eligible(ns[i]) && !acc.contains(c) {
            acc.push(c)
        } else {
            acc
        };
        lemma_collect_context_concat(ns, a.drop_first(), b, acc2);
    }
}

/// Everything `collect_context` produces is a distinct eligible node, and it
/// only extends `acc`.
pub proof fn lemma_collect_context_props(
    ns: Seq<SessionNodeView>,
    cands: Seq<Seq<char>>,
    acc: Seq<Seq<char>>,
)
    requires
        forall|k: int| 0 <= k < acc.len() ==> last_index_of(ns, #[trigger] acc[k]) >= 0
            && context_eligible(ns[last_index_of(ns, acc[k])]),
        acc.no_duplicates(),
    ensures
        acc.is_prefix_of(collect_context(ns, cands, acc)),
        collect_context(ns, cands, acc).no_duplicates(),
        forall|k: int|
            0 <= k < collect_context(ns, cands, acc).len() ==> last_index_of(
                ns,
                #[trigger] collect_context(ns, cands, acc)[k],
            ) >= 0 && context_eligible(ns[last_index_of(ns, collect_context(ns, cands, acc)[k])]),
    decreases cands.len(),
{
    if cands.len() > 0 {
        let c = cands[0];
        let i = last_index_of(ns, c);
        let acc2 = if i >= 0 && context_eligible(ns[i]) && !acc.contains(c) {
            acc.push(c)
        } else {
            acc
        };
        assert forall|k: int| 0 <= k < acc2.len() implies last_index_of(ns, #[trigger] acc2[k]) >= 0
            && context_eligible(ns[last_index_of(ns, acc2[k])]) by {
            if k < acc.len() {
                assert(acc2[k] == acc[k]);
            }
        }
        lemma_collect_context_props(ns, cands.drop_first(), acc2);
        assert(acc.is_prefix_of(acc2));
    }
}

/// The children listed by the prompts of `lin`, in order.
pub open spec fn lineage_children(ns: Seq<SessionNodeView>, lin: Seq<Seq<char>>) -> Seq<Seq<char>>
    decreases lin.len(),
{
    if lin.len() == 0 {
        seq![]
    } else {
        let i = last_index_of(ns, lin[0]);
        (if i >= 0 && ns[i].kind == NodeKind::Prompt {
            ns[i].children_ids
        } else {
            seq![]
        }) + lineage_children(ns, lin.drop_first())
    }
}

/// The context available at the current node: first the current node's
/// declared inputs, then the children of every prompt on the active lineage,
/// keeping each accepted artifact once, in order of first appearance.
pub open spec fn eligible_context(t: SessionTreeView) -> Result<Seq<Seq<char>>, ValidationErrorView> {
    match active_lineage(t) {
        Err(e) => Err(e),
        Ok(lin) => Ok(
            collect_context(
                t.nodes,
                t.nodes[last_index_of(t.nodes, t.current_node_id)].input_node_ids + lineage_children(
                    t.nodes,
                    lin,
                ),
                seq![],
            ),
        ),
    }
}

/// Appends the node's identifier to `eligible` when it is an accepted
/// artifact not listed yet.
fn push_context_candidate(node: &SessionNode, eligible: &mut Vec<NodeId>)
    ensures
        ids_view(final(eligible)@) == (if context_eligible(node@) && !ids_view(
            old(eligible)@,
        ).contains(node@.id) {
            ids_view(old(eligible)@).push(node@.id)
        } else {
            ids_view(old(eligible)@)
        }),
{
    if !(node.kind == NodeKind::Artifact && node.status == NodeStatus::Accepted) {
        return;
    }
    if !contains_id(eligible, &node.id) {
        eligible.push(node.id.duplicate());
        assert(ids_view(eligible@) =~= ids_view(old(eligible)@).push(node@.id));
    }
}

impl SessionTree {
    /// A new tree holding only an accepted intent node `intent-root`, which
    /// is also the current node.
    pub fn new(intent_label: String) -> (r: Self)
        ensures
            r@.schema_version == 1,
            r@.session_id == "session-local"@,
            r@.intent_node_id == "intent-root"@,
            r@.current_node_id == "intent-root"@,
            r@.state == SessionState::Active,
            r@.nodes == seq![
                SessionNodeView {
                    id: "intent-root"@,
                    label: intent_label@,
                    kind: NodeKind::Intent,
                    artifact_kind: None,
                    status: NodeStatus::Accepted,
                    parent_id: None,
                    children_ids: seq![],
                    input_node_ids: seq![],
                    payload_ref: Some("intent.md"@),
                },
            ],
            tree_is_valid(r@),
    {
        let intent_node = SessionNode {
            id: NodeId("intent-root".to_owned()),
            label: intent_label,
            kind: NodeKind::Intent,
            artifact_kind: None,
            status: NodeStatus::Accepted,
            parent_id: None,
            children_ids: Vec::new(),
            input_node_ids: Vec::new(),
            payload_ref: Some("intent.md".to_owned()),
        };
        let mut nodes: Vec<SessionNode> = Vec::new();
        nodes.push(intent_node);
        let r = SessionTree {
            schema_version: 1,
            session_id: SessionId("session-local".to_owned()),
            intent_node_id: NodeId("intent-root".to_owned()),
            current_node_id: NodeId("intent-root".to_owned()),
            state: SessionState::Active,
            nodes,
        };
        proof {
            let t = r@;
            assert(ids_view(Seq::<NodeId>::empty()) =~= Seq::<Seq<char>>::empty());
            assert(t.nodes =~= seq![r.nodes@[0]@]);
            assert(duplicate_from(t.nodes, 1) is None);
            assert(duplicate_from(t.nodes, 0) is None);
            assert(last_index_of(t.nodes.drop_last(), t.intent_node_id) == -1);
            assert(last_index_of(t.nodes, t.intent_node_id) == 0);
            assert(node_errors_from(t, 1) is None);
            assert(node_errors_from(t, 0) is None);
            assert(child_errors_from(t.nodes, t.nodes[0], 0) is None);
            assert(parent_errors_from(t.nodes, 1) is None);
            assert(parent_errors_from(t.nodes, 0) is None);
            assert(reaches(t.nodes, t.nodes[0].id, t.intent_node_id, 1));
            assert(detached_from(t.nodes, t.intent_node_id, 1) is None);
            assert(detached_from(t.nodes, t.intent_node_id, 0) is None);
            assert(rooted_error(t.nodes, t.intent_node_id) is None);
        }
        r
    }

    /// Makes the first node with the given identifier the current node, when
    /// it exists and is an intent or a prompt that is neither rejected nor
    /// superseded; otherwise leaves the tree unchanged and reports why.
    pub fn set_current_node(&mut self, next_node_id: NodeId) -> (r: Result<(), ValidationError>)
        ensures
            match set_current_outcome(old(self)@, next_node_id@) {
                Ok(t) => r is Ok && final(self)@ == t,
                Err(e) => r matches Err(re) && re@ == e && final(self)@ == old(self)@,
            },
    {
        let ghost ns = self@.nodes;
        proof {
            lemma_first_index_of(ns, next_node_id@);
        }
        let i = match find_first_index(&self.nodes, &next_node_id) {
            None => {
                return Err(ValidationError::MissingCurrentNode { current_node_id: next_node_id });
            },
            Some(i) => i,
        };
        assert(ns[i as int] == self.nodes[i as int]@);
        validate_current_node_candidate(&self.nodes[i])?;
        self.current_node_id = self.nodes[i].id.duplicate();
        Ok(())
    }

    /// Whether the walk up the parent links from the current node ends, that
    /// is, within one step more than there are nodes.
    pub fn lineage_is_defined(&self) -> (b: bool)
        ensures
            b == (lineage_walk(self@.nodes, self@.current_node_id, (self@.nodes.len() + 1) as nat) is Some),
            b == lineage_defined(self@),
    {
        proof {
            if lineage_defined(self@) {
                let f = choose|f: nat|
                    lineage_walk(self@.nodes, self@.current_node_id, f) is Some;
                lemma_lineage_walk_bounded(self@.nodes, self@.current_node_id, f);
            }
        }
        let ghost t = self@;
        let ghost ns = t.nodes;
        let ghost target = lineage_walk(ns, t.current_node_id, (ns.len() + 1) as nat) is Some;
        let mut cursor = self.current_node_id.duplicate();
        let mut g: usize = self.nodes.len();
        loop
            invariant
                t == self@,
                ns == t.nodes,
                (lineage_walk(ns, cursor@, (g + 1) as nat) is Some) == target,
                target == (lineage_walk(ns, t.current_node_id, (ns.len() + 1) as nat) is Some),
                lineage_defined(t) ==> target,
            decreases g,
        {
            let i = match find_last_index(&self.nodes, &cursor) {
                None => {
                    assert(lineage_walk(ns, cursor@, (g + 1) as nat) is Some);
                    return true;
                },
                Some(i) => i,
            };
            let node = &self.nodes[i];
            assert(ns[i as int] == node@);
            match &node.parent_id {
                None => {
                    assert(lineage_walk(ns, cursor@, (g + 1) as nat) is Some);
                    return true;
                },
                Some(p) => {
                    if find_last_index(&self.nodes, p).is_none() {
                        assert(lineage_walk(ns, cursor@, (g + 1) as nat) is Some);
                        return true;
                    }
                    assert((lineage_walk(ns, cursor@, (g + 1) as nat) is Some) == (lineage_walk(ns, p@, g as nat) is Some));
                    if g == 0 {
                        assert(lineage_walk(ns, p@, 0) is None);
                        return false;
                    }
                    cursor = p.duplicate();
                    g = g - 1;
                },
            }
        }
    }

    /// The identifiers from the top of the tree down to the current node,
    /// following parent links; fails on the first missing node.
    pub fn active_lineage_node_ids(&self) -> (r: Result<Vec<NodeId>, ValidationError>)
        requires
            lineage_defined(self@),
        ensures
            match r {
                Ok(v) => active_lineage(self@) == Ok::<Seq<Seq<char>>, ValidationErrorView>(
                    ids_view(v@),
                ),
                Err(e) => active_lineage(self@) == Err::<Seq<Seq<char>>, ValidationErrorView>(
                    e@,
                ),
            },
    {
        let ghost t = self@;
        let ghost ns = t.nodes;
        let mut lineage: Vec<NodeId> = Vec::new();
        let mut cursor = self.current_node_id.duplicate();
        let ghost mut g: nat = lineage_fuel(t);
        assert(ids_view(lineage@) =~= Seq::<Seq<char>>::empty());
        assert(extend_walk(lineage_walk(ns, cursor@, g)->0, seq![]) == active_lineage(t)) by {
            assert forall|s: Seq<Seq<char>>| s + Seq::<Seq<char>>::empty() == s by {
                assert(s + Seq::<Seq<char>>::empty() =~= s);
            }
        }
        loop
            invariant
                t == self@,
                ns == t.nodes,
                lineage_walk(ns, cursor@, g) is Some,
                active_lineage(t) == extend_walk(lineage_walk(ns, cursor@, g)->0, ids_view(lineage@)),
            decreases g,
        {
            let i = match find_last_index(&self.nodes, &cursor) {
                None => {
                    return Err(ValidationError::MissingCurrentNode { current_node_id: cursor });
                },
                Some(i) => i,
            };
            let node = &self.nodes[i];
            assert(ns[i as int] == node@);
            let ghost old_ids = ids_view(lineage@);
            lineage.insert(0, node.id.duplicate());
            assert(ids_view(lineage@) =~= seq![node@.id] + old_ids);
            match &node.parent_id {
                None => {
                    assert(seq![node@.id] + old_ids =~= seq![ns[i as int].id] + old_ids);
                    return Ok(lineage);
                },
                Some(p) => {
                    if find_last_index(&self.nodes, p).is_none() {
                        return Err(
                            ValidationError::MissingParentNode {
                                node_id: node.id.duplicate(),
                                parent_id: p.duplicate(),
                            },
                        );
                    }
                    proof {
                        let w = lineage_walk(ns, p@, (g - 1) as nat);
                        match w {
                            Some(Ok(s)) => {
                                assert(s.push(node@.id) + old_ids =~= s + (seq![node@.id] + old_ids));
                            },
                            _ => {},
                        }
                        g = (g - 1) as nat;
                    }
                    cursor = p.duplicate();
                },
            }
        }
    }

    /// The accepted artifacts that may serve as context at the current node:
    /// see [`eligible_context`].
    pub fn resolve_eligible_context_node_ids(&self) -> (r: Result<Vec<NodeId>, ValidationError>)
        requires
            lineage_defined(self@),
        ensures
            match r {
                Ok(v) => eligible_context(self@) == Ok::<Seq<Seq<char>>, ValidationErrorView>(
                    ids_view(v@),
                ),
                Err(e) => eligible_context(self@) == Err::<Seq<Seq<char>>, ValidationErrorView>(
                    e@,
                ),
            },
    {
        let ghost t = self@;
        let ghost ns = t.nodes;
        let lineage = self.active_lineage_node_ids()?;
        let ghost lin = ids_view(lineage@);
        proof {
            lemma_lineage_walk_ids(ns, t.current_node_id, lineage_fuel(t));
        }
        let ci = match find_last_index(&self.nodes, &self.current_node_id) {
            None => {
                return Err(
                    ValidationError::MissingCurrentNode {
                        current_node_id: self.current_node_id.duplicate(),
                    },
                );
            },
            Some(ci) => ci,
        };
        let current_node = &self.nodes[ci];
        assert(ns[ci as int] == current_node@);
        let ghost inputs = current_node@.input_node_ids;
        let ghost target = collect_context(ns, inputs + lineage_children(ns, lin), seq![]);
        proof {
            lemma_collect_context_concat(ns, inputs, lineage_children(ns, lin), seq![]);
        }
        let mut eligible: Vec<NodeId> = Vec::new();
        assert(ids_view(eligible@) =~= Seq::<Seq<char>>::empty());
        assert(inputs.skip(0) =~= inputs);
        let mut k: usize = 0;
        while k < current_node.input_node_ids.len()
            invariant
                t == self@,
                ns == t.nodes,
                ci < self.nodes.len(),
                current_node == &self.nodes[ci as int],
                inputs == current_node@.input_node_ids,
                inputs.len() == current_node.input_node_ids.len(),
                k <= inputs.len(),
                target == collect_context(
                    ns,
                    lineage_children(ns, lin),
                    collect_context(ns, inputs.skip(k as int), ids_view(eligible@)),
                ),
            decreases inputs.len() - k,
        {
            let input_id = &current_node.input_node_ids[k];
            assert(inputs[k as int] == input_id@);
            assert(inputs.skip(k as int).drop_first() =~= inputs.skip(k + 1));
            assert(inputs.skip(k as int)[0] == inputs[k as int]);
            proof {
                lemma_last_index_of(ns, input_id@);
            }
            match find_last_index(&self.nodes, input_id) {
                Some(j) => {
                    assert(ns[j as int] == self.nodes[j as int]@);
                    push_context_candidate(&self.nodes[j], &mut eligible);
                },
                None => {},
            }
            k = k + 1;
        }
        assert(inputs.skip(k as int) =~= Seq::<Seq<char>>::empty());
        assert(lin.skip(0) =~= lin);
        let mut m: usize = 0;
        while m < lineage.len()
            invariant
                t == self@,
                ns == t.nodes,
                lin == ids_view(lineage@),
                m <= lineage.len(),
                forall|q: int| 0 <= q < lin.len() ==> last_index_of(ns, #[trigger] lin[q]) >= 0,
                target == collect_context(
                    ns,
                    lineage_children(ns, lin.skip(m as int)),
                    ids_view(eligible@),
                ),
            decreases lineage.len() - m,
        {
            let lid = &lineage[m];
            assert(lin[m as int] == lid@);
            assert(lin.skip(m as int).drop_first() =~= lin.skip(m + 1));
            assert(lin.skip(m as int)[0] == lin[m as int]);
            let ghost rest = lineage_children(ns, lin.skip(m + 1));
            let li = match find_last_index(&self.nodes, lid) {
                None => {
                    assert(last_index_of(ns, lin[m as int]) >= 0);
                    return Err(
                        ValidationError::MissingCurrentNode { current_node_id: lid.duplicate() },
                    );
                },
                Some(li) => li,
            };
            let lnode = &self.nodes[li];
            assert(ns[li as int] == lnode@);
            if lnode.kind == NodeKind::Prompt {
                let ghost ch = lnode@.children_ids;
                proof {
                    lemma_collect_context_concat(ns, ch, rest, ids_view(eligible@));
                }
                assert(ch.skip(0) =~= ch);
                let mut j: usize = 0;
                while j < lnode.children_ids.len()
                    invariant
                        t == self@,
                        ns == t.nodes,
                        li < self.nodes.len(),
                        lnode == &self.nodes[li as int],
                        ch == lnode@.children_ids,
                        ch.len() == lnode.children_ids.len(),
                        j <= ch.len(),
                        target == collect_context(
                            ns,
                            rest,
                            collect_context(ns, ch.skip(j as int), ids_view(eligible@)),
                        ),
                    decreases ch.len() - j,
                {
                    let cid = &lnode.children_ids[j];
                    assert(ch[j as int] == cid@);
                    assert(ch.skip(j as int).drop_first() =~= ch.skip(j + 1));
                    assert(ch.skip(j as int)[0] == ch[j as int]);
                    match find_last_index(&self.nodes, cid) {
                        Some(q) => {
                            assert(ns[q as int] == self.nodes[q as int]@);
                            push_context_candidate(&self.nodes[q], &mut eligible);
                        },
                        None => {},
                    }
                    j = j + 1;
                }
                assert(ch.skip(j as int) =~= Seq::<Seq<char>>::empty());
            } else {
                assert(lineage_children(ns, lin.skip(m as int)) =~= rest);
            }
            m = m + 1;
        }
        assert(lin.skip(m as int) =~= Seq::<Seq<char>>::empty());
        Ok(eligible)
    }
}

} // verus!
