//! A keyed form of the session model, with nodes held in a map by identifier.
use std::collections::HashMap;

use vstd::prelude::*;

use crate::domain::{
    child_allowed, ArtifactKind, NodeId, NodeKind, NodeStatus, SessionId, SessionState,
};

verus! {

#[derive(Clone, Debug)]
pub struct Node {
    pub id: NodeId,
    pub label: String,
    pub kind: NodeKind,
    pub status: NodeStatus,
    pub artifact_kind: Option<ArtifactKind>,
    pub parent_id: Option<NodeId>,
    pub children_ids: Vec<NodeId>,
    pub input_node_ids: Vec<NodeId>,
    pub payload_ref: Option<String>,
}

impl Node {
    /// Whether the node may serve as context: an accepted artifact.
    pub fn is_eligible_context(&self) -> (r: bool)
        ensures
            r == (self.kind == NodeKind::Artifact && self.status == NodeStatus::Accepted),
    {
        self.kind == NodeKind::Artifact && self.status == NodeStatus::Accepted
    }
}

#[derive(Clone, Debug)]
pub struct Session {
    pub session_id: SessionId,
    pub schema_version: String,
    pub intent_node_id: NodeId,
    pub current_node_id: NodeId,
    pub state: SessionState,
    pub nodes: HashMap<NodeId, Node>,
}

impl Session {
    /// Whether a node of kind `child_kind` may be attached under `parent_kind`.
    pub fn can_attach_child(parent_kind: NodeKind, child_kind: NodeKind) -> (r: bool)
        ensures
            r == child_allowed(parent_kind, child_kind),
    {
        crate::domain::can_attach_child(parent_kind, child_kind)
    }
}

} // verus!
