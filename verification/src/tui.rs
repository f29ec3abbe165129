//! The arithmetic and text of the interactive view: pane focus, scrolling,
//! the tree listing and the node viewer.
use vstd::prelude::*;

use crate::domain::{first_index_of, NodeId, NodeKind, SessionNodeView, SessionTree};
use crate::orchestrator::find_node_index;
use crate::text::{append_str, count_lines, line_count, push_char};
use crate::workflow::{status_label, status_name};

verus! {

/// The panes of the session view that can hold the focus.
#[derive(Clone, Copy, Debug, PartialEq, Eq, Structural)]
pub enum InteractivePaneFocus {
    Tree,
    Viewer,
    Output,
}

impl InteractivePaneFocus {
    /// The pane after this one: tree, viewer, output, and round again.
    pub fn next(self) -> (r: Self)
        ensures
            r == match self {
                InteractivePaneFocus::Tree => InteractivePaneFocus::Viewer,
                InteractivePaneFocus::Viewer => InteractivePaneFocus::Output,
                InteractivePaneFocus::Output => InteractivePaneFocus::Tree,
            },
    {
        match self {
            InteractivePaneFocus::Tree => InteractivePaneFocus::Viewer,
            InteractivePaneFocus::Viewer => InteractivePaneFocus::Output,
            InteractivePaneFocus::Output => InteractivePaneFocus::Tree,
        }
    }

    /// The pane before this one.
    pub fn previous(self) -> (r: Self)
        ensures
            r == match self {
                InteractivePaneFocus::Tree => InteractivePaneFocus::Output,
                InteractivePaneFocus::Viewer => InteractivePaneFocus::Tree,
                InteractivePaneFocus::Output => InteractivePaneFocus::Viewer,
            },
    {
        match self {
            InteractivePaneFocus::Tree => InteractivePaneFocus::Output,
            InteractivePaneFocus::Viewer => InteractivePaneFocus::Tree,
            InteractivePaneFocus::Output => InteractivePaneFocus::Viewer,
        }
    }

    /// The title of the pane.
    pub fn label(self) -> (r: &'static str)
        ensures
            r@ == match self {
                InteractivePaneFocus::Tree => "Tree"@,
                InteractivePaneFocus::Viewer => "Viewer"@,
                InteractivePaneFocus::Output => "Current Session Output"@,
            },
    {
        match self {
            InteractivePaneFocus::Tree => "Tree",
            InteractivePaneFocus::Viewer => "Viewer",
            InteractivePaneFocus::Output => "Current Session Output",
        }
    }
}

/// Rows of text that a bordered panel of the given height shows: two fewer
/// than its height, and at least one.
pub open spec fn viewport_rows(panel_height: u16) -> nat {
    if panel_height >= 3 {
        (panel_height - 2) as nat
    } else {
        1
    }
}

/// How far the text can scroll: its line count (at least one) beyond the
/// visible rows.
pub open spec fn max_scroll(text: Seq<char>, panel_height: u16) -> nat {
    let total = if line_count(text) >= 1 {
        line_count(text)
    } else {
        1
    };
    if total > viewport_rows(panel_height) {
        (total - viewport_rows(panel_height)) as nat
    } else {
        0
    }
}

/// A count capped at the largest `u16`.
pub open spec fn cap_u16(v: nat) -> u16 {
    if v <= u16::MAX {
        v as u16
    } else {
        u16::MAX
    }
}

fn visible_rows(panel_height: u16) -> (r: usize)
    ensures
        r as nat == viewport_rows(panel_height),
{
    if panel_height >= 3 {
        (panel_height - 2) as usize
    } else {
        1
    }
}

fn scroll_limit(text: &str, panel_height: u16) -> (r: usize)
    ensures
        r as nat == max_scroll(text@, panel_height),
{
    let lines = count_lines(text);
    let total = if lines >= 1 {
        lines
    } else {
        1
    };
    let rows = visible_rows(panel_height);
    if total > rows {
        total - rows
    } else {
        0
    }
}

fn clamp_to_u16(v: usize) -> (r: u16)
    ensures
        r == cap_u16(v as nat),
{
    if v <= 65535 {
        v as u16
    } else {
        65535
    }
}

/// The top line to show of live output, scrolled `scroll_from_bottom` lines
/// up from its tail, and no further than its first line.
pub fn resolve_output_scroll_offset(output: &str, panel_height: u16, scroll_from_bottom: usize) -> (r:
    u16)
    ensures
        r == cap_u16(
            (max_scroll(output@, panel_height) - if scroll_from_bottom <= max_scroll(
                output@,
                panel_height,
            ) {
                scroll_from_bottom as nat
            } else {
                max_scroll(output@, panel_height)
            }) as nat,
        ),
{
    let limit = scroll_limit(output, panel_height);
    let clamped = if scroll_from_bottom <= limit {
        scroll_from_bottom
    } else {
        limit
    };
    clamp_to_u16(limit - clamped)
}

/// The top line to show of content scrolled `desired_scroll` lines down, and
/// no further than its end allows.
pub fn resolve_content_scroll_offset(content: &str, panel_height: u16, desired_scroll: usize) -> (r:
    u16)
    ensures
        r == cap_u16(
            if desired_scroll <= max_scroll(content@, panel_height) {
                desired_scroll as nat
            } else {
                max_scroll(content@, panel_height)
            },
        ),
{
    let limit = scroll_limit(content, panel_height);
    let clamped = if desired_scroll <= limit {
        desired_scroll
    } else {
        limit
    };
    clamp_to_u16(clamped)
}

/// The first row of the tree listing to show so that the selected row sits
/// in the middle of the visible rows where it can.
pub fn resolve_tree_window_start(selected_index: usize, total_rows: usize, visible_rows: usize) -> (r:
    usize)
    ensures
        r == if total_rows <= visible_rows {
            0
        } else {
            let lead: int = if selected_index >= visible_rows / 2 {
                selected_index - visible_rows / 2
            } else {
                0
            };
            if lead <= total_rows - visible_rows {
                lead
            } else {
                total_rows - visible_rows
            }
        },
{
    if total_rows <= visible_rows {
        return 0;
    }
    let max_start = total_rows - visible_rows;
    let half = visible_rows / 2;
    let lead = if selected_index >= half {
        selected_index - half
    } else {
        0
    };
    if lead <= max_start {
        lead
    } else {
        max_start
    }
}

/// The tree selection after moving `lines` rows up, wrapping around.
pub fn tree_selection_up(selection: usize, lines: usize, node_count: usize) -> (r: usize)
    requires
        selection + node_count <= usize::MAX,
    ensures
        node_count == 0 ==> r == selection,
        node_count > 0 ==> r == (selection + node_count - lines % node_count) % node_count as int,
{
    if node_count == 0 {
        return selection;
    }
    let steps = lines % node_count;
    (selection + node_count - steps) % node_count
}

/// The tree selection after moving `lines` rows down, wrapping around.
pub fn tree_selection_down(selection: usize, lines: usize, node_count: usize) -> (r: usize)
    requires
        selection + lines <= usize::MAX,
    ensures
        node_count == 0 ==> r == selection,
        node_count > 0 ==> r == (selection + lines) % node_count as int,
{
    if node_count == 0 {
        return selection;
    }
    (selection + lines) % node_count
}

/// The spinner character shown `millis` milliseconds after the epoch: one of
/// `|`, `/`, `-`, `\`, changing every 125 milliseconds.
pub fn spinner_frame_at(millis: u128) -> (r: char)
    ensures
        r == seq!['|', '/', '-', '\\'][((millis / 125) % 4) as int],
{
    let k = (millis / 125) % 4;
    if k == 0 {
        '|'
    } else if k == 1 {
        '/'
    } else if k == 2 {
        '-'
    } else {
        '\\'
    }
}

/// Starts a new section of a session's live output: a separator `---` line
/// after earlier output (which is first ended with a line feed), then the
/// header on a line of its own.
pub fn begin_output_section(output: &mut String, header: &str)
    ensures
        final(output)@ == (if old(output)@.len() == 0 {
            old(output)@
        } else if old(output)@.last() == '\n' {
            old(output)@ + "---\n"@
        } else {
            old(output)@ + "\n---\n"@
        }) + header@ + "\n"@,
{
    let ghost before = output@;
    let cs = crate::text::chars_of(output.as_str());
    if cs.len() > 0 {
        if cs[cs.len() - 1] != '\n' {
            push_char(output, '\n');
        }
        append_str(output, "---\n");
    }
    append_str(output, header);
    append_str(output, "\n");
    proof {
        if before.len() > 0 && before.last() != '\n' {
            assert(before.push('\n') + "---\n"@ =~= before + "\n---\n"@) by {
                reveal_strlit("\n");
                reveal_strlit("\n---\n");
                reveal_strlit("---\n");
            }
        }
    }
}

// ---------------------------------------------------------------------------
// The tree listing
// ---------------------------------------------------------------------------

/// The name of a node kind, as its variant is written.
pub open spec fn kind_name(k: NodeKind) -> Seq<char> {
    match k {
        NodeKind::Intent => "Intent"@,
        NodeKind::Prompt => "Prompt"@,
        NodeKind::Artifact => "Artifact"@,
    }
}

/// The name of a node kind, as its variant is written.
pub fn kind_label(k: NodeKind) -> (r: &'static str)
    ensures
        r@ == kind_name(k),
{
    match k {
        NodeKind::Intent => "Intent",
        NodeKind::Prompt => "Prompt",
        NodeKind::Artifact => "Artifact",
    }
}

/// Two spaces per level of depth.
pub open spec fn indent(depth: nat) -> Seq<char>
    decreases depth,
{
    if depth == 0 {
        seq![]
    } else {
        indent((depth - 1) as nat) + "  "@
    }
}

/// The row of a node in the tree listing: indentation, identifier, kind and
/// status in brackets, and label.
pub open spec fn tree_row(n: SessionNodeView, depth: nat) -> Seq<char> {
    indent(depth) + n.id + " ["@ + kind_name(n.kind) + "/"@ + status_name(n.status) + "] "@
        + n.label
}

/// The rows below node `id` (the first node with that identifier) at
/// `depth`, depth first and in child order, descending at most `fuel` more
/// levels.
pub open spec fn tree_rows(ns: Seq<SessionNodeView>, id: Seq<char>, depth: nat, fuel: nat) -> Seq<
    (Seq<char>, Seq<char>),
>
    decreases fuel, 0nat, 0nat,
{
    let i = first_index_of(ns, id);
    if i < 0 || i >= ns.len() {
        seq![]
    } else {
        seq![(ns[i].id, tree_row(ns[i], depth))] + if fuel == 0 {
            seq![]
        } else {
            child_rows(ns, ns[i].children_ids, 0, depth + 1, (fuel - 1) as nat)
        }
    }
}

/// The rows of the children from position `k` on, each with its subtree.
pub open spec fn child_rows(
    ns: Seq<SessionNodeView>,
    cs: Seq<Seq<char>>,
    k: int,
    depth: nat,
    fuel: nat,
) -> Seq<(Seq<char>, Seq<char>)>
    decreases fuel, 1nat, cs.len() - k,
{
    if k < 0 || k >= cs.len() {
        seq![]
    } else {
        tree_rows(ns, cs[k], depth, fuel) + child_rows(ns, cs, k + 1, depth, fuel)
    }
}

/// The identifiers and texts of listed rows.
pub open spec fn rows_view(rows: Seq<(NodeId, String)>) -> Seq<(Seq<char>, Seq<char>)> {
    rows.map_values(|e: (NodeId, String)| (e.0@, e.1@))
}

fn indent_text(depth: usize) -> (r: String)
    ensures
        r@ == indent(depth as nat),
{
    let mut r = String::new();
    let mut d: usize = 0;
    while d < depth
        invariant
            d <= depth,
            r@ == indent(d as nat),
        decreases depth - d,
    {
        append_str(&mut r, "  ");
        d = d + 1;
    }
    r
}

fn walk_tree(
    session: &SessionTree,
    node_id: &NodeId,
    depth: usize,
    fuel: usize,
    rows: &mut Vec<(NodeId, String)>,
)
    requires
        depth + fuel <= usize::MAX,
    ensures
        rows_view(final(rows)@) == rows_view(old(rows)@) + tree_rows(
            session@.nodes,
            node_id@,
            depth as nat,
            fuel as nat,
        ),
    decreases fuel,
{
    let ghost ns = session@.nodes;
    let ghost start = rows_view(rows@);
    match find_node_index(session, node_id) {
        None => {
            assert(rows_view(rows@) =~= start + tree_rows(ns, node_id@, depth as nat, fuel as nat));
        },
        Some(i) => {
            let node = &session.nodes[i];
            assert(ns[i as int] == node@);
            let mut line = indent_text(depth);
            append_str(&mut line, node.id.as_str());
            append_str(&mut line, " [");
            append_str(&mut line, kind_label(node.kind));
            append_str(&mut line, "/");
            append_str(&mut line, status_label(node.status));
            append_str(&mut line, "] ");
            append_str(&mut line, node.label.as_str());
            rows.push((node.id.duplicate(), line));
            let ghost head = start + seq![(ns[i as int].id, tree_row(ns[i as int], depth as nat))];
            assert(rows_view(rows@) =~= head);
            if fuel > 0 {
                let ghost cs = ns[i as int].children_ids;
                let mut k: usize = 0;
                while k < node.children_ids.len()
                    invariant
                        k <= node.children_ids.len(),
                        cs == crate::domain::ids_view(node.children_ids@),
                        ns == session@.nodes,
                        fuel > 0,
                        depth + fuel <= usize::MAX,
                        rows_view(rows@) + child_rows(ns, cs, k as int, (depth + 1) as nat, (fuel - 1) as nat)
                            == head + child_rows(ns, cs, 0, (depth + 1) as nat, (fuel - 1) as nat),
                    decreases node.children_ids.len() - k,
                {
                    let ghost before = rows_view(rows@);
                    assert(cs[k as int] == node.children_ids@[k as int]@);
                    walk_tree(session, &node.children_ids[k], depth + 1, fuel - 1, rows);
                    assert(before + child_rows(ns, cs, k as int, (depth + 1) as nat, (fuel - 1) as nat)
                        =~= rows_view(rows@) + child_rows(ns, cs, k + 1, (depth + 1) as nat, (fuel - 1) as nat));
                    k = k + 1;
                }
                assert(rows_view(rows@) =~= head + child_rows(ns, cs, 0, (depth + 1) as nat, (fuel - 1) as nat));
            }
            assert(rows_view(rows@) =~= start + tree_rows(ns, node_id@, depth as nat, fuel as nat));
        },
    }
}

/// The rows of the tree listing: each node reachable from the intent through
/// child links, depth first and in child order, with its identifier. The
/// walk descends at most as many levels as there are nodes, which a tree
/// without cycles never reaches.
pub fn render_tree_entries(session: &SessionTree) -> (r: Vec<(NodeId, String)>)
    ensures
        rows_view(r@) == tree_rows(
            session@.nodes,
            session@.intent_node_id,
            0,
            session@.nodes.len(),
        ),
{
    let mut rows: Vec<(NodeId, String)> = Vec::new();
    walk_tree(session, &session.intent_node_id, 0, session.nodes.len(), &mut rows);
    assert(rows_view(Seq::<(NodeId, String)>::empty()) =~= seq![]);
    rows
}

// ---------------------------------------------------------------------------
// The node viewer
// ---------------------------------------------------------------------------

/// Identifiers separated by `, `.
pub open spec fn comma_joined(ids: Seq<Seq<char>>) -> Seq<char>
    decreases ids.len(),
{
    if ids.len() == 0 {
        seq![]
    } else if ids.len() == 1 {
        ids[0]
    } else {
        comma_joined(ids.drop_last()) + ", "@ + ids.last()
    }
}

/// The viewer text of a node: its identifier, kind, status and label, its
/// parent and children where it has them, an empty line, and then either the
/// payload's shown path and body, separated by `---`, or a note that it has
/// none.
pub open spec fn node_view_text(n: SessionNodeView, payload: Option<(Seq<char>, Seq<char>)>) -> Seq<
    char,
> {
    let head = "Node: "@ + n.id + "\nKind: "@ + kind_name(n.kind) + "\nStatus: "@ + status_name(
        n.status,
    ) + "\nLabel: "@ + n.label;
    let with_parent = match n.parent_id {
        Some(p) => head + "\nParent: "@ + p,
        None => head,
    };
    let with_children = if n.children_ids.len() > 0 {
        with_parent + "\nChildren: "@ + comma_joined(n.children_ids)
    } else {
        with_parent
    };
    with_children + "\n"@ + match payload {
        Some((path, body)) => "\nPayload path: "@ + path + "\n---\n"@ + body,
        None => "\n<node has no payload>"@,
    }
}

/// Reading the payload at `rel` may have given `shown`.
pub open spec fn payload_read<F: Fn(&str) -> (String, String)>(
    read_payload: F,
    rel: Seq<char>,
    shown: (Seq<char>, Seq<char>),
) -> bool {
    exists|c: &str, out: (String, String)|
        c@ == rel && #[trigger] call_ensures(read_payload, (c,), out) && shown == (out.0@, out.1@)
}

/// `text` is the viewer text of `n`, its payload (if it has one) read through `read_payload`.
pub open spec fn shows_node<F: Fn(&str) -> (String, String)>(
    read_payload: F,
    n: SessionNodeView,
    text: Seq<char>,
) -> bool {
    match n.payload_ref {
        None => text == node_view_text(n, None),
        Some(rel) => exists|shown: (Seq<char>, Seq<char>)|
            #![trigger payload_read(read_payload, rel, shown)]
            payload_read(read_payload, rel, shown) && text == node_view_text(n, Some(shown)),
    }
}

fn join_ids(ids: &Vec<NodeId>) -> (r: String)
    ensures
        r@ == comma_joined(crate::domain::ids_view(ids@)),
{
    let ghost v = crate::domain::ids_view(ids@);
    let mut r = String::new();
    let mut k: usize = 0;
    while k < ids.len()
        invariant
            k <= ids.len(),
            v == crate::domain::ids_view(ids@),
            r@ == comma_joined(v.take(k as int)),
        decreases ids.len() - k,
    {
        proof {
            assert(v.take(k + 1).drop_last() =~= v.take(k as int));
        }
        if k > 0 {
            append_str(&mut r, ", ");
        }
        append_str(&mut r, ids[k].as_str());
        proof {
            if k == 0 {
                assert(r@ =~= v.take(1)[0]);
            }
        }
        k = k + 1;
    }
    assert(v.take(ids.len() as int) =~= v);
    r
}

/// The viewer text of node `node_id` (the first node with that identifier);
/// a node with a payload has it read through `read_payload`, which gives the
/// path to show and the body or a note why it could not be read.
pub fn render_selected_node_view<F: Fn(&str) -> (String, String)>(
    session: &SessionTree,
    node_id: &NodeId,
    read_payload: F,
) -> (r: String)
    requires
        forall|c: &str| call_requires(read_payload, (c,)),
    ensures
        first_index_of(session@.nodes, node_id@) < 0 ==> r@
            == "Selected node was not found in session tree"@,
        first_index_of(session@.nodes, node_id@) >= 0 ==> shows_node(
            read_payload,
            session@.nodes[first_index_of(session@.nodes, node_id@)],
            r@,
        ),
{
    let i = match find_node_index(session, node_id) {
        Some(i) => i,
        None => {
            return "Selected node was not found in session tree".to_owned();
        },
    };
    let node = &session.nodes[i];
    let ghost n = node@;
    assert(session@.nodes[i as int] == n);
    let mut r = "Node: ".to_owned();
    append_str(&mut r, node.id.as_str());
    append_str(&mut r, "\nKind: ");
    append_str(&mut r, kind_label(node.kind));
    append_str(&mut r, "\nStatus: ");
    append_str(&mut r, status_label(node.status));
    append_str(&mut r, "\nLabel: ");
    append_str(&mut r, node.label.as_str());
    match &node.parent_id {
        Some(p) => {
            append_str(&mut r, "\nParent: ");
            append_str(&mut r, p.as_str());
        },
        None => {},
    }
    if node.children_ids.len() > 0 {
        append_str(&mut r, "\nChildren: ");
        let joined = join_ids(&node.children_ids);
        append_str(&mut r, joined.as_str());
    }
    append_str(&mut r, "\n");
    proof {
        let head = "Node: "@ + n.id + "\nKind: "@ + kind_name(n.kind) + "\nStatus: "@ + status_name(
            n.status,
        ) + "\nLabel: "@ + n.label;
        let with_parent = match n.parent_id {
            Some(p) => head + "\nParent: "@ + p,
            None => head,
        };
        let with_children = if n.children_ids.len() > 0 {
            with_parent + "\nChildren: "@ + comma_joined(n.children_ids)
        } else {
            with_parent
        };
        assert(r@ =~= with_children + "\n"@);
        assert(node_view_text(n, None) =~= r@ + "\n<node has no payload>"@);
        assert(forall|pb: (Seq<char>, Seq<char>)| #[trigger] node_view_text(n, Some(pb)) =~= r@ + ("\nPayload path: "@ + pb.0 + "\n---\n"@ + pb.1));
    }
    let ghost mid = r@;
    match &node.payload_ref {
        Some(rel) => {
            let rel_text = rel.as_str();
            let shown = read_payload(rel_text);
            append_str(&mut r, "\nPayload path: ");
            append_str(&mut r, shown.0.as_str());
            append_str(&mut r, "\n---\n");
            append_str(&mut r, shown.1.as_str());
            proof {
                assert(payload_read(read_payload, rel@, (shown.0@, shown.1@)));
                assert(r@ =~= mid + ("\nPayload path: "@ + shown.0@ + "\n---\n"@ + shown.1@));
                let sh = (shown.0@, shown.1@);
                assert(payload_read(read_payload, n.payload_ref->Some_0, sh));
                assert(r@ == node_view_text(n, Some(sh)));
                assert(shows_node(read_payload, n, r@));
            }
        },
        None => {
            append_str(&mut r, "\n<node has no payload>");
            assert(n.payload_ref is None);
        },
    }
    r
}

} // verus!
