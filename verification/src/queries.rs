//! Selection, neighbourhood queries and connection rules of the store.
use vstd::prelude::*;

use crate::store::{lemma_lookup_same_ids, lookup_hit_in_range, FlowState};
use crate::types::{new_edge, opt_chars, Connection, FlowEdge, FlowNode, HandleDef, HandleType};

verus! {

/// A node after "select all": selected if it is selectable, unchanged otherwise.
pub open spec fn select_node(n: FlowNode) -> FlowNode {
    if n.selectable {
        FlowNode { selected: true, ..n }
    } else {
        n
    }
}

/// An edge after "select all": selected if it is selectable, unchanged otherwise.
pub open spec fn select_edge(e: FlowEdge) -> FlowEdge {
    if e.selectable {
        FlowEdge { selected: true, ..e }
    } else {
        e
    }
}

/// For each edge into `id`, in edge order, the node that the index finds for
/// the edge's source, where the index holds that id.
pub open spec fn incomers_spec(
    nodes: Seq<FlowNode>,
    lookup: Map<Seq<char>, usize>,
    edges: Seq<FlowEdge>,
    id: Seq<char>,
) -> Seq<FlowNode>
    decreases edges.len(),
{
    if edges.len() == 0 {
        Seq::empty()
    } else {
        let r = incomers_spec(nodes, lookup, edges.drop_last(), id);
        let e = edges.last();
        if e.target@ == id && lookup.contains_key(e.source@) {
            r.push(nodes[lookup[e.source@] as int])
        } else {
            r
        }
    }
}

/// Every edge into `id` whose other end the index holds leads to a position
/// inside the nodes.
pub open spec fn incomers_in_range(
    nodes: Seq<FlowNode>,
    lookup: Map<Seq<char>, usize>,
    edges: Seq<FlowEdge>,
    id: Seq<char>,
) -> bool {
    forall|i: int|
        0 <= i < edges.len() && (#[trigger] edges[i]).target@ == id ==> lookup_hit_in_range(
            nodes,
            lookup,
            edges[i].source@,
        )
}

/// For each edge out of `id`, in edge order, the node that the index finds for
/// the edge's target, where the index holds that id.
pub open spec fn outgoers_spec(
    nodes: Seq<FlowNode>,
    lookup: Map<Seq<char>, usize>,
    edges: Seq<FlowEdge>,
    id: Seq<char>,
) -> Seq<FlowNode>
    decreases edges.len(),
{
    if edges.len() == 0 {
        Seq::empty()
    } else {
        let r = outgoers_spec(nodes, lookup, edges.drop_last(), id);
        let e = edges.last();
        if e.source@ == id && lookup.contains_key(e.target@) {
            r.push(nodes[lookup[e.target@] as int])
        } else {
            r
        }
    }
}

/// Every edge out of `id` whose other end the index holds leads to a position
/// inside the nodes.
pub open spec fn outgoers_in_range(
    nodes: Seq<FlowNode>,
    lookup: Map<Seq<char>, usize>,
    edges: Seq<FlowEdge>,
    id: Seq<char>,
) -> bool {
    forall|i: int|
        0 <= i < edges.len() && (#[trigger] edges[i]).source@ == id ==> lookup_hit_in_range(
            nodes,
            lookup,
            edges[i].target@,
        )
}

/// The edges that leave or enter `id`, in order.
pub open spec fn connected_spec(edges: Seq<FlowEdge>, id: Seq<char>) -> Seq<FlowEdge>
    decreases edges.len(),
{
    if edges.len() == 0 {
        Seq::empty()
    } else {
        let r = connected_spec(edges.drop_last(), id);
        let e = edges.last();
        if e.source@ == id || e.target@ == id {
            r.push(e)
        } else {
            r
        }
    }
}

/// The edge joins the same nodes through the same handles as the connection.
pub open spec fn same_connection(e: FlowEdge, c: Connection) -> bool {
    &&& e.source@ == c.source@
    &&& e.target@ == c.target@
    &&& opt_chars(e.source_handle) == opt_chars(c.source_handle)
    &&& opt_chars(e.target_handle) == opt_chars(c.target_handle)
}

/// The default connection rules: no edge from a node to itself, and no second
/// edge between the same handles.
pub open spec fn connection_allowed(edges: Seq<FlowEdge>, c: Connection) -> bool {
    &&& c.source@ != c.target@
    &&& !exists|i: int| 0 <= i < edges.len() && same_connection(#[trigger] edges[i], c)
}

/// The edge that a completed connection adds.
pub open spec fn edge_from_connection(c: Connection, edge_id: String) -> FlowEdge {
    FlowEdge {
        source_handle: c.source_handle,
        target_handle: c.target_handle,
        ..new_edge(edge_id, c.source, c.target)
    }
}

/// A handle that a connection dragged from a handle of type `from_type` may
/// snap to: one of the other type that accepts connections.
pub open spec fn snappable(h: HandleDef, from_type: HandleType) -> bool {
    h.handle_type != from_type && h.is_connectable
}

/// The pairs (node index, handle index) of the snappable handles of the node
/// at index `node`, in handle order.
pub open spec fn node_snap_candidates(node: int, handles: Seq<HandleDef>, from_type: HandleType) -> Seq<
    (usize, usize),
>
    decreases handles.len(),
{
    if handles.len() == 0 {
        Seq::empty()
    } else {
        let r = node_snap_candidates(node, handles.drop_last(), from_type);
        if snappable(handles.last(), from_type) {
            r.push((node as usize, (handles.len() - 1) as usize))
        } else {
            r
        }
    }
}

/// The handles a connection dragged from node `from_node` may snap to, as
/// (node index, handle index) pairs in node order, then handle order: those of
/// the visible nodes other than `from_node`.
pub open spec fn snap_candidates_spec(
    nodes: Seq<FlowNode>,
    from_node: Seq<char>,
    from_type: HandleType,
) -> Seq<(usize, usize)>
    decreases nodes.len(),
{
    if nodes.len() == 0 {
        Seq::empty()
    } else {
        let r = snap_candidates_spec(nodes.drop_last(), from_node, from_type);
        let n = nodes.last();
        if n.hidden || n.id@ == from_node {
            r
        } else {
            r + node_snap_candidates(nodes.len() - 1, n.handles@, from_type)
        }
    }
}

/// A completed connection, once added, is a duplicate: the same connection is
/// no longer allowed.
pub proof fn lemma_added_connection_not_allowed(edges: Seq<FlowEdge>, c: Connection, edge_id: String)
    ensures
        !connection_allowed(edges.push(edge_from_connection(c, edge_id)), c),
{
    let e = edges.push(edge_from_connection(c, edge_id));
    assert(same_connection(e[edges.len() as int], c));
}

/// After "select all", every selectable node and edge is selected, and nothing
/// else about any node or edge has changed.
pub proof fn lemma_select_all_selects(
    nodes: Seq<FlowNode>,
    edges: Seq<FlowEdge>,
    selected_nodes: Seq<FlowNode>,
    selected_edges: Seq<FlowEdge>,
)
    requires
        selected_nodes == nodes.map_values(|n: FlowNode| select_node(n)),
        selected_edges == edges.map_values(|e: FlowEdge| select_edge(e)),
    ensures
        forall|i: int|
            0 <= i < nodes.len() ==> (#[trigger] selected_nodes[i]).selected == (nodes[i].selected
                || nodes[i].selectable) && (FlowNode {
                selected: nodes[i].selected,
                ..selected_nodes[i]
            }) == nodes[i],
        forall|i: int|
            0 <= i < edges.len() ==> (#[trigger] selected_edges[i]).selected == (edges[i].selected
                || edges[i].selectable) && (FlowEdge {
                selected: edges[i].selected,
                ..selected_edges[i]
            }) == edges[i],
{
}

/// Every pair in `node_snap_candidates` names the node and a snappable handle of it.
proof fn lemma_node_snap_candidates(node: int, handles: Seq<HandleDef>, from_type: HandleType)
    requires
        0 <= node <= usize::MAX,
        handles.len() <= usize::MAX,
    ensures
        forall|k: int|
            0 <= k < node_snap_candidates(node, handles, from_type).len() ==> {
                let (i, h) = #[trigger] node_snap_candidates(node, handles, from_type)[k];
                &&& i as int == node
                &&& h < handles.len()
                &&& snappable(handles[h as int], from_type)
            },
    decreases handles.len(),
{
    if handles.len() > 0 {
        let d = handles.drop_last();
        lemma_node_snap_candidates(node, d, from_type);
        assert forall|k: int|
            0 <= k < node_snap_candidates(node, handles, from_type).len() implies {
            let (i, h) = #[trigger] node_snap_candidates(node, handles, from_type)[k];
            &&& i as int == node
            &&& h < handles.len()
            &&& snappable(handles[h as int], from_type)
        } by {
            let r = node_snap_candidates(node, d, from_type);
            if k < r.len() {
                let (i, h) = r[k];
                assert(handles[h as int] == d[h as int]);
            }
        }
    }
}

/// Every snap candidate names a visible node other than the one the
/// connection starts from, and a connectable handle of the other type on it.
pub proof fn lemma_snap_candidates_valid(
    nodes: Seq<FlowNode>,
    from_node: Seq<char>,
    from_type: HandleType,
)
    requires
        nodes.len() <= usize::MAX,
        forall|i: int| 0 <= i < nodes.len() ==> (#[trigger] nodes[i]).handles@.len() <= usize::MAX,
    ensures
        forall|k: int|
            0 <= k < snap_candidates_spec(nodes, from_node, from_type).len() ==> {
                let (i, h) = #[trigger] snap_candidates_spec(nodes, from_node, from_type)[k];
                &&& i < nodes.len()
                &&& !nodes[i as int].hidden
                &&& nodes[i as int].id@ != from_node
                &&& h < nodes[i as int].handles@.len()
                &&& snappable(nodes[i as int].handles@[h as int], from_type)
            },
    decreases nodes.len(),
{
    if nodes.len() > 0 {
        let d = nodes.drop_last();
        assert forall|i: int| 0 <= i < d.len() implies (#[trigger] d[i]).handles@.len()
            <= usize::MAX by {
            assert(d[i] == nodes[i]);
        }
        lemma_snap_candidates_valid(d, from_node, from_type);
        let n = nodes.last();
        lemma_node_snap_candidates(nodes.len() - 1, n.handles@, from_type);
        let r = snap_candidates_spec(d, from_node, from_type);
        assert forall|k: int|
            0 <= k < snap_candidates_spec(nodes, from_node, from_type).len() implies {
            let (i, h) = #[trigger] snap_candidates_spec(nodes, from_node, from_type)[k];
            &&& i < nodes.len()
            &&& !nodes[i as int].hidden
            &&& nodes[i as int].id@ != from_node
            &&& h < nodes[i as int].handles@.len()
            &&& snappable(nodes[i as int].handles@[h as int], from_type)
        } by {
            if k < r.len() {
                let (i, h) = r[k];
                assert(nodes[i as int] == d[i as int]);
            } else {
                let extra = node_snap_candidates(nodes.len() - 1, n.handles@, from_type);
                assert(snap_candidates_spec(nodes, from_node, from_type)[k] == extra[k - r.len()]);
            }
        }
    }
}

/// Adding a completed connection appends one edge and keeps the others: the
/// new edge has the given id, joins the connection's source and target through
/// its handles, and starts visible, selectable and not selected.
pub proof fn lemma_added_edge(edges: Seq<FlowEdge>, c: Connection, edge_id: String)
    ensures
        ({
            let after = edges.push(edge_from_connection(c, edge_id));
            let e = after[edges.len() as int];
            &&& after.len() == edges.len() + 1
            &&& forall|j: int| 0 <= j < edges.len() ==> #[trigger] after[j] == edges[j]
            &&& e.id == edge_id
            &&& e.source == c.source && e.target == c.target
            &&& e.source_handle == c.source_handle && e.target_handle == c.target_handle
            &&& !e.selected && e.selectable && !e.hidden
        }),
{
}

/// The connection rule in full: a connection is allowed exactly when its two
/// ends are different nodes and no existing edge joins the same source and
/// target through both the same source handle and the same target handle.
pub proof fn lemma_connection_allowed_iff(edges: Seq<FlowEdge>, c: Connection)
    ensures
        connection_allowed(edges, c) == (c.source@ != c.target@ && forall|i: int|
            0 <= i < edges.len() ==> !((#[trigger] edges[i]).source@ == c.source@
                && edges[i].target@ == c.target@ && opt_chars(edges[i].source_handle)
                == opt_chars(c.source_handle) && opt_chars(edges[i].target_handle) == opt_chars(
                c.target_handle))),
{
}

/// Every handle that a connection may snap to is a candidate: each connectable
/// handle of the other type, on a visible node other than the one the
/// connection starts from, appears among the snap candidates.
pub proof fn lemma_snap_candidates_complete(
    nodes: Seq<FlowNode>,
    from_node: Seq<char>,
    from_type: HandleType,
    i: int,
    h: int,
)
    requires
        0 <= i < nodes.len(),
        0 <= h < nodes[i].handles@.len(),
        !nodes[i].hidden,
        nodes[i].id@ != from_node,
        nodes[i].handles@[h].handle_type != from_type,
        nodes[i].handles@[h].is_connectable,
    ensures
        snap_candidates_spec(nodes, from_node, from_type).contains((i as usize, h as usize)),
    decreases nodes.len(),
{
    let d = nodes.drop_last();
    let r = snap_candidates_spec(d, from_node, from_type);
    if i < nodes.len() - 1 {
        assert(d[i] == nodes[i]);
        lemma_snap_candidates_complete(d, from_node, from_type, i, h);
        let w = choose|w: int| 0 <= w < r.len() && r[w] == (i as usize, h as usize);
        let n = nodes.last();
        if !(n.hidden || n.id@ == from_node) {
            let full = r + node_snap_candidates(nodes.len() - 1, n.handles@, from_type);
            assert(full[w] == r[w]);
        }
    } else {
        let n = nodes.last();
        lemma_node_snap_candidates_complete(i, n.handles@, from_type, h);
        let extra = node_snap_candidates(i, n.handles@, from_type);
        let w = choose|w: int| 0 <= w < extra.len() && extra[w] == (i as usize, h as usize);
        let full = r + extra;
        assert(full[r.len() + w] == extra[w]);
    }
}

/// Each snappable handle of a node appears among that node's candidates.
proof fn lemma_node_snap_candidates_complete(
    node: int,
    handles: Seq<HandleDef>,
    from_type: HandleType,
    h: int,
)
    requires
        0 <= h < handles.len(),
        snappable(handles[h], from_type),
    ensures
        node_snap_candidates(node, handles, from_type).contains((node as usize, h as usize)),
    decreases handles.len(),
{
    let d = handles.drop_last();
    let r = node_snap_candidates(node, d, from_type);
    if h < handles.len() - 1 {
        assert(d[h] == handles[h]);
        lemma_node_snap_candidates_complete(node, d, from_type, h);
        let w = choose|w: int| 0 <= w < r.len() && r[w] == (node as usize, h as usize);
        if snappable(handles.last(), from_type) {
            assert(r.push((node as usize, (handles.len() - 1) as usize))[w] == r[w]);
        }
    } else {
        assert(r.push((node as usize, (handles.len() - 1) as usize))[r.len() as int] == (
        node as usize,
        h as usize,
        ));
    }
}

/// The outgoers of `id` are exactly the nodes that its edges lead to: for each
/// edge out of `id` whose target the index holds, the node the index finds
/// for that target is an outgoer, and every outgoer is such a node.
pub proof fn lemma_outgoers_exact(
    nodes: Seq<FlowNode>,
    lookup: Map<Seq<char>, usize>,
    edges: Seq<FlowEdge>,
    id: Seq<char>,
)
    ensures
        forall|j: int|
            0 <= j < edges.len() && (#[trigger] edges[j]).source@ == id && lookup.contains_key(
                edges[j].target@,
            ) ==> outgoers_spec(nodes, lookup, edges, id).contains(
                nodes[lookup[edges[j].target@] as int],
            ),
        forall|k: int|
            0 <= k < outgoers_spec(nodes, lookup, edges, id).len() ==> exists|j: int|
                0 <= j < edges.len() && edges[j].source@ == id && lookup.contains_key(
                    edges[j].target@,
                ) && #[trigger] outgoers_spec(nodes, lookup, edges, id)[k] == nodes[lookup[edges[
                    j].target@] as int],
        outgoers_spec(nodes, lookup, edges, id).len() <= edges.len(),
    decreases edges.len(),
{
    if edges.len() > 0 {
        let d = edges.drop_last();
        lemma_outgoers_exact(nodes, lookup, d, id);
        let r = outgoers_spec(nodes, lookup, d, id);
        let full = outgoers_spec(nodes, lookup, edges, id);
        let e = edges.last();
        let hit = e.source@ == id && lookup.contains_key(e.target@);
        assert forall|j: int|
            0 <= j < edges.len() && (#[trigger] edges[j]).source@ == id && lookup.contains_key(
                edges[j].target@,
            ) implies full.contains(nodes[lookup[edges[j].target@] as int]) by {
            if j < edges.len() - 1 {
                assert(d[j] == edges[j]);
                let w = choose|w: int|
                    0 <= w < r.len() && r[w] == nodes[lookup[d[j].target@] as int];
                if hit {
                    assert(full[w] == r[w]);
                }
            } else {
                assert(full[r.len() as int] == nodes[lookup[e.target@] as int]);
            }
        }
        assert forall|k: int| 0 <= k < full.len() implies exists|j: int|
            0 <= j < edges.len() && edges[j].source@ == id && lookup.contains_key(
                edges[j].target@,
            ) && #[trigger] full[k] == nodes[lookup[edges[j].target@] as int] by {
            if k < r.len() {
                let j = choose|j: int|
                    0 <= j < d.len() && d[j].source@ == id && lookup.contains_key(d[j].target@)
                        && r[k] == nodes[lookup[d[j].target@] as int];
                assert(d[j] == edges[j]);
                assert(full[k] == r[k]);
            } else {
                assert(edges[edges.len() - 1] == e);
            }
        }
    }
}

/// The incomers of `id` are exactly the nodes that its edges come from: for
/// each edge into `id` whose source the index holds, the node the index finds
/// for that source is an incomer, and every incomer is such a node.
pub proof fn lemma_incomers_exact(
    nodes: Seq<FlowNode>,
    lookup: Map<Seq<char>, usize>,
    edges: Seq<FlowEdge>,
    id: Seq<char>,
)
    ensures
        forall|j: int|
            0 <= j < edges.len() && (#[trigger] edges[j]).target@ == id && lookup.contains_key(
                edges[j].source@,
            ) ==> incomers_spec(nodes, lookup, edges, id).contains(
                nodes[lookup[edges[j].source@] as int],
            ),
        forall|k: int|
            0 <= k < incomers_spec(nodes, lookup, edges, id).len() ==> exists|j: int|
                0 <= j < edges.len() && edges[j].target@ == id && lookup.contains_key(
                    edges[j].source@,
                ) && #[trigger] incomers_spec(nodes, lookup, edges, id)[k] == nodes[lookup[edges[
                    j].source@] as int],
        incomers_spec(nodes, lookup, edges, id).len() <= edges.len(),
    decreases edges.len(),
{
    if edges.len() > 0 {
        let d = edges.drop_last();
        lemma_incomers_exact(nodes, lookup, d, id);
        let r = incomers_spec(nodes, lookup, d, id);
        let full = incomers_spec(nodes, lookup, edges, id);
        let e = edges.last();
        let hit = e.target@ == id && lookup.contains_key(e.source@);
        assert forall|j: int|
            0 <= j < edges.len() && (#[trigger] edges[j]).target@ == id && lookup.contains_key(
                edges[j].source@,
            ) implies full.contains(nodes[lookup[edges[j].source@] as int]) by {
            if j < edges.len() - 1 {
                assert(d[j] == edges[j]);
                let w = choose|w: int|
                    0 <= w < r.len() && r[w] == nodes[lookup[d[j].source@] as int];
                if hit {
                    assert(full[w] == r[w]);
                }
            } else {
                assert(full[r.len() as int] == nodes[lookup[e.source@] as int]);
            }
        }
        assert forall|k: int| 0 <= k < full.len() implies exists|j: int|
            0 <= j < edges.len() && edges[j].target@ == id && lookup.contains_key(
                edges[j].source@,
            ) && #[trigger] full[k] == nodes[lookup[edges[j].source@] as int] by {
            if k < r.len() {
                let j = choose|j: int|
                    0 <= j < d.len() && d[j].target@ == id && lookup.contains_key(d[j].source@)
                        && r[k] == nodes[lookup[d[j].source@] as int];
                assert(d[j] == edges[j]);
                assert(full[k] == r[k]);
            } else {
                assert(edges[edges.len() - 1] == e);
            }
        }
    }
}

/// The connected edges of `id` are exactly the edges that leave or enter it:
/// each such edge is among them, and each of them is such an edge.
pub proof fn lemma_connected_exact(edges: Seq<FlowEdge>, id: Seq<char>)
    ensures
        forall|j: int|
            0 <= j < edges.len() && ((#[trigger] edges[j]).source@ == id || edges[j].target@ == id)
                ==> connected_spec(edges, id).contains(edges[j]),
        forall|k: int|
            0 <= k < connected_spec(edges, id).len() ==> (#[trigger] connected_spec(edges, id)[k]).source@
                == id || connected_spec(edges, id)[k].target@ == id,
        forall|k: int|
            0 <= k < connected_spec(edges, id).len() ==> edges.contains(
                #[trigger] connected_spec(edges, id)[k],
            ),
    decreases edges.len(),
{
    if edges.len() > 0 {
        let d = edges.drop_last();
        lemma_connected_exact(d, id);
        let r = connected_spec(d, id);
        let full = connected_spec(edges, id);
        let e = edges.last();
        let hit = e.source@ == id || e.target@ == id;
        assert forall|j: int|
            0 <= j < edges.len() && ((#[trigger] edges[j]).source@ == id || edges[j].target@ == id)
                implies full.contains(edges[j]) by {
            if j < edges.len() - 1 {
                assert(d[j] == edges[j]);
                let w = choose|w: int| 0 <= w < r.len() && r[w] == d[j];
                if hit {
                    assert(full[w] == r[w]);
                }
            } else {
                assert(full[r.len() as int] == e);
            }
        }
        assert forall|k: int| 0 <= k < full.len() implies edges.contains(#[trigger] full[k]) by {
            if k < r.len() {
                assert(full[k] == r[k]);
                let w = choose|w: int| 0 <= w < d.len() && d[w] == r[k];
                assert(edges[w] == d[w]);
            } else {
                assert(edges[edges.len() - 1] == e);
            }
        }
        assert forall|k: int| 0 <= k < full.len() implies (#[trigger] full[k]).source@ == id
            || full[k].target@ == id by {
            if k < r.len() {
                assert(full[k] == r[k]);
            }
        }
    }
}

impl FlowState {
    /// Select all nodes and edges that are selectable.
    pub fn select_all(&mut self)
        ensures
            final(self).nodes@ == old(self).nodes@.map_values(|n: FlowNode| select_node(n)),
            final(self).edges@ == old(self).edges@.map_values(|e: FlowEdge| select_edge(e)),
            final(self).node_lookup == old(self).node_lookup,
            final(self).undo_stack == old(self).undo_stack,
            final(self).redo_stack == old(self).redo_stack,
            old(self).lookup_ok() ==> final(self).lookup_ok(),
    {
        let mut i: usize = 0;
        while i < self.nodes.len()
            invariant
                i <= self.nodes.len(),
                self.nodes@.len() == old(self).nodes@.len(),
                forall|j: int|
                    0 <= j < i ==> #[trigger] self.nodes@[j] == select_node(old(self).nodes@[j]),
                forall|j: int| i <= j < self.nodes@.len() ==> #[trigger] self.nodes@[j] == old(
                    self,
                ).nodes@[j],
                self.edges == old(self).edges,
                self.node_lookup == old(self).node_lookup,
                self.undo_stack == old(self).undo_stack,
                self.redo_stack == old(self).redo_stack,
            decreases self.nodes.len() - i,
        {
            if self.nodes[i].selectable {
                self.nodes[i].selected = true;
            }
            i += 1;
        }
        let mut i: usize = 0;
        while i < self.edges.len()
            invariant
                i <= self.edges.len(),
                self.edges@.len() == old(self).edges@.len(),
                forall|j: int|
                    0 <= j < i ==> #[trigger] self.edges@[j] == select_edge(old(self).edges@[j]),
                forall|j: int| i <= j < self.edges@.len() ==> #[trigger] self.edges@[j] == old(
                    self,
                ).edges@[j],
                self.nodes@ == old(self).nodes@.map_values(|n: FlowNode| select_node(n)),
                self.node_lookup == old(self).node_lookup,
                self.undo_stack == old(self).undo_stack,
                self.redo_stack == old(self).redo_stack,
            decreases self.edges.len() - i,
        {
            if self.edges[i].selectable {
                self.edges[i].selected = true;
            }
            i += 1;
        }
        proof {
            assert(self.edges@ =~= old(self).edges@.map_values(|e: FlowEdge| select_edge(e)));
            assert forall|j: int| 0 <= j < self.nodes@.len() implies (
            #[trigger] self.nodes@[j]).id@ == old(self).nodes@[j].id@ by {}
            lemma_lookup_same_ids(self.nodes@, old(self).nodes@);
        }
    }

    /// Get nodes that have edges pointing TO the given node.
    pub fn get_incomers(&self, node_id: &String) -> (r: Vec<&FlowNode>)
        requires
            incomers_in_range(self.nodes@, self.node_lookup@, self.edges@, node_id@),
        ensures
            r@.map_values(|n: &FlowNode| *n) == incomers_spec(
                self.nodes@,
                self.node_lookup@,
                self.edges@,
                node_id@,
            ),
    {
        let mut r: Vec<&FlowNode> = Vec::new();
        let mut i: usize = 0;
        while i < self.edges.len()
            invariant
                i <= self.edges.len(),
                incomers_in_range(self.nodes@, self.node_lookup@, self.edges@, node_id@),
                r@.map_values(|n: &FlowNode| *n) == incomers_spec(
                    self.nodes@,
                    self.node_lookup@,
                    self.edges@.take(i as int),
                    node_id@,
                ),
            decreases self.edges.len() - i,
        {
            proof {
                assert(self.edges@.take(i + 1).drop_last() =~= self.edges@.take(i as int));
            }
            let e = &self.edges[i];
            if e.target == *node_id {
                if let Some(n) = self.get_node(&e.source) {
                    r.push(n);
                    proof {
                        assert(r@.map_values(|n: &FlowNode| *n) =~= incomers_spec(
                            self.nodes@,
                            self.node_lookup@,
                            self.edges@.take(i as int),
                            node_id@,
                        ).push(*n));
                    }
                }
            }
            i += 1;
        }
        proof {
            assert(self.edges@.take(self.edges@.len() as int) =~= self.edges@);
        }
        r
    }

    /// Get nodes that the given node has edges pointing TO.
    pub fn get_outgoers(&self, node_id: &String) -> (r: Vec<&FlowNode>)
        requires
            outgoers_in_range(self.nodes@, self.node_lookup@, self.edges@, node_id@),
        ensures
            r@.map_values(|n: &FlowNode| *n) == outgoers_spec(
                self.nodes@,
                self.node_lookup@,
                self.edges@,
                node_id@,
            ),
    {
        let mut r: Vec<&FlowNode> = Vec::new();
        let mut i: usize = 0;
        while i < self.edges.len()
            invariant
                i <= self.edges.len(),
                outgoers_in_range(self.nodes@, self.node_lookup@, self.edges@, node_id@),
                r@.map_values(|n: &FlowNode| *n) == outgoers_spec(
                    self.nodes@,
                    self.node_lookup@,
                    self.edges@.take(i as int),
                    node_id@,
                ),
            decreases self.edges.len() - i,
        {
            proof {
                assert(self.edges@.take(i + 1).drop_last() =~= self.edges@.take(i as int));
            }
            let e = &self.edges[i];
            if e.source == *node_id {
                if let Some(n) = self.get_node(&e.target) {
                    r.push(n);
                    proof {
                        assert(r@.map_values(|n: &FlowNode| *n) =~= outgoers_spec(
                            self.nodes@,
                            self.node_lookup@,
                            self.edges@.take(i as int),
                            node_id@,
                        ).push(*n));
                    }
                }
            }
            i += 1;
        }
        proof {
            assert(self.edges@.take(self.edges@.len() as int) =~= self.edges@);
        }
        r
    }

    /// Get all edges connected to a node (as source or target).
    pub fn get_connected_edges(&self, node_id: &String) -> (r: Vec<&FlowEdge>)
        ensures
            r@.map_values(|e: &FlowEdge| *e) == connected_spec(self.edges@, node_id@),
    {
        let mut r: Vec<&FlowEdge> = Vec::new();
        let mut i: usize = 0;
        while i < self.edges.len()
            invariant
                i <= self.edges.len(),
                r@.map_values(|e: &FlowEdge| *e) == connected_spec(
                    self.edges@.take(i as int),
                    node_id@,
                ),
            decreases self.edges.len() - i,
        {
            proof {
                assert(self.edges@.take(i + 1).drop_last() =~= self.edges@.take(i as int));
            }
            let e = &self.edges[i];
            if e.source == *node_id || e.target == *node_id {
                r.push(e);
                proof {
                    assert(r@.map_values(|e: &FlowEdge| *e) =~= connected_spec(
                        self.edges@.take(i as int),
                        node_id@,
                    ).push(*e));
                }
            }
            i += 1;
        }
        proof {
            assert(self.edges@.take(self.edges@.len() as int) =~= self.edges@);
        }
        r
    }

    /// Check if a connection is valid (default rules): no self-connections and
    /// no duplicate edges.
    pub fn is_valid_connection(&self, connection: &Connection) -> (r: bool)
        ensures
            r == connection_allowed(self.edges@, *connection),
    {
        if connection.source == connection.target {
            return false;
        }
        let mut i: usize = 0;
        while i < self.edges.len()
            invariant
                i <= self.edges.len(),
                forall|j: int| 0 <= j < i ==> !same_connection(#[trigger] self.edges@[j], *connection),
            decreases self.edges.len() - i,
        {
            let e = &self.edges[i];
            if e.source == connection.source && e.target == connection.target
                && crate::types::opt_string_eq(&e.source_handle, &connection.source_handle)
                && crate::types::opt_string_eq(&e.target_handle, &connection.target_handle) {
                return false;
            }
            i += 1;
        }
        true
    }

    /// Add an edge from a completed connection.
    pub fn add_edge_from_connection(&mut self, connection: &Connection, edge_id: String)
        ensures
            final(self).edges@ == old(self).edges@.push(edge_from_connection(*connection, edge_id)),
            final(self).nodes == old(self).nodes,
            final(self).node_lookup == old(self).node_lookup,
            final(self).undo_stack == old(self).undo_stack,
            final(self).redo_stack == old(self).redo_stack,
    {
        let mut edge = FlowEdge::new(edge_id, connection.source.clone(), connection.target.clone());
        if let Some(sh) = &connection.source_handle {
            edge.source_handle = Some(sh.clone());
        }
        if let Some(th) = &connection.target_handle {
            edge.target_handle = Some(th.clone());
        }
        self.edges.push(edge);
    }

    /// The handles that a connection dragged from a handle of type `from_type`
    /// on node `from_node` may snap to, as (node index, handle index) pairs:
    /// the connectable handles of the other type on the visible nodes other
    /// than `from_node`, in node order, then handle order. The nearest of them
    /// within the connection radius is the snap target.
    pub fn snap_candidates(&self, from_node: &String, from_type: HandleType) -> (r: Vec<
        (usize, usize),
    >)
        ensures
            r@ == snap_candidates_spec(self.nodes@, from_node@, from_type),
    {
        let mut r: Vec<(usize, usize)> = Vec::new();
        let mut i: usize = 0;
        while i < self.nodes.len()
            invariant
                i <= self.nodes.len(),
                r@ == snap_candidates_spec(self.nodes@.take(i as int), from_node@, from_type),
            decreases self.nodes.len() - i,
        {
            let node = &self.nodes[i];
            let ghost before = r@;
            proof {
                assert(self.nodes@.take(i + 1).drop_last() =~= self.nodes@.take(i as int));
            }
            if !node.hidden && node.id != *from_node {
                let mut h: usize = 0;
                while h < node.handles.len()
                    invariant
                        h <= node.handles.len(),
                        r@ == before + node_snap_candidates(
                            i as int,
                            node.handles@.take(h as int),
                            from_type,
                        ),
                    decreases node.handles.len() - h,
                {
                    proof {
                        assert(node.handles@.take(h + 1).drop_last() =~= node.handles@.take(
                            h as int,
                        ));
                    }
                    let handle = &node.handles[h];
                    if handle.handle_type != from_type && handle.is_connectable {
                        r.push((i, h));
                        proof {
                            assert(r@ =~= before + node_snap_candidates(
                                i as int,
                                node.handles@.take(h as int),
                                from_type,
                            ).push((i, h)));
                        }
                    }
                    h += 1;
                }
                proof {
                    assert(node.handles@.take(node.handles@.len() as int) =~= node.handles@);
                }
            } else {
                proof {
                    assert(r@ =~= before);
                }
            }
            i += 1;
        }
        proof {
            assert(self.nodes@.take(self.nodes@.len() as int) =~= self.nodes@);
        }
        r
    }
}

} // verus!
