//! Batches of node and edge changes, applied to the store.
//!
//! Each node change finds its node by id among the nodes as they stand when
//! the change comes: the index is brought up to date after every removal.
use vstd::prelude::*;

use crate::seqs::{
    first_match, lemma_first_match, lemma_first_match_is, lemma_first_match_none,
    lemma_last_match_same,
};
use crate::store::{
    has_id, id_index, lemma_id_index, lemma_lookup_node, lemma_lookup_same_ids, lookup_of,
    FlowState,
};
use crate::types::{EdgeChange, FlowEdge, FlowNode, NodeChange, Position};

verus! {

/// `cur` after the change `c`, which acts on the last node of `cur` with the
/// change's id (the one the index finds), or on nothing when no node has it.
pub open spec fn apply_node_change(cur: Seq<FlowNode>, c: NodeChange) -> Seq<FlowNode> {
    let i = id_index(cur, c.node_id());
    if i < 0 {
        cur
    } else {
        match c {
            NodeChange::Position { position, dragging, .. } => cur.update(
                i,
                FlowNode { position, dragging, ..cur[i] },
            ),
            NodeChange::Dimensions { width, height, .. } => cur.update(
                i,
                FlowNode { measured_width: Some(width), measured_height: Some(height), ..cur[i] },
            ),
            NodeChange::Select { selected, .. } => cur.update(i, FlowNode { selected, ..cur[i] }),
            NodeChange::Remove { .. } => cur.remove(i),
        }
    }
}

/// The nodes after the changes, applied one by one in order.
pub open spec fn apply_node_changes_spec(nodes: Seq<FlowNode>, changes: Seq<NodeChange>) -> Seq<
    FlowNode,
>
    decreases changes.len(),
{
    if changes.len() == 0 {
        nodes
    } else {
        apply_node_change(apply_node_changes_spec(nodes, changes.drop_last()), changes.last())
    }
}

/// No two nodes share an id.
pub open spec fn ids_distinct(nodes: Seq<FlowNode>) -> bool {
    forall|i: int, j: int| 0 <= i < j < nodes.len() ==> nodes[i].id@ != nodes[j].id@
}

/// The predicate "the edge's id is `id`".
pub open spec fn edge_has_id(id: Seq<char>) -> spec_fn(FlowEdge) -> bool {
    |e: FlowEdge| e.id@ == id
}

/// The edges whose id is not `id`, in order.
pub open spec fn edges_without(edges: Seq<FlowEdge>, id: Seq<char>) -> Seq<FlowEdge>
    decreases edges.len(),
{
    if edges.len() == 0 {
        Seq::empty()
    } else {
        let r = edges_without(edges.drop_last(), id);
        if edges.last().id@ == id {
            r
        } else {
            r.push(edges.last())
        }
    }
}

/// The edges after the change `c`: a selection change acts on the first edge
/// with the id; a removal drops every edge with the id.
pub open spec fn apply_edge_change(edges: Seq<FlowEdge>, c: EdgeChange) -> Seq<FlowEdge> {
    match c {
        EdgeChange::Select { id, selected } => {
            let i = first_match(edges, edge_has_id(id@));
            if i < 0 {
                edges
            } else {
                edges.update(i, FlowEdge { selected, ..edges[i] })
            }
        },
        EdgeChange::Remove { id } => edges_without(edges, id@),
    }
}

/// The edges after the changes, applied in order.
pub open spec fn apply_edge_changes_spec(edges: Seq<FlowEdge>, changes: Seq<EdgeChange>) -> Seq<
    FlowEdge,
>
    decreases changes.len(),
{
    if changes.len() == 0 {
        edges
    } else {
        apply_edge_change(apply_edge_changes_spec(edges, changes.drop_last()), changes.last())
    }
}

/// No edge that `edges_without` keeps has the id, and every edge without the
/// id is kept.
pub proof fn lemma_edges_without(edges: Seq<FlowEdge>, id: Seq<char>)
    ensures
        forall|j: int|
            0 <= j < edges_without(edges, id).len() ==> (#[trigger] edges_without(edges, id)[j]).id@
                != id,
        forall|j: int|
            0 <= j < edges.len() && (#[trigger] edges[j]).id@ != id ==> edges_without(
                edges,
                id,
            ).contains(edges[j]),
        edges_without(edges, id).len() <= edges.len(),
    decreases edges.len(),
{
    if edges.len() > 0 {
        let d = edges.drop_last();
        lemma_edges_without(d, id);
        let r = edges_without(d, id);
        assert forall|j: int|
            0 <= j < edges.len() && (#[trigger] edges[j]).id@ != id implies edges_without(
            edges,
            id,
        ).contains(edges[j]) by {
            if j < edges.len() - 1 {
                assert(edges[j] == d[j]);
                if edges.last().id@ != id {
                    let w = choose|w: int| 0 <= w < r.len() && r[w] == d[j];
                    assert(r.push(edges.last())[w] == d[j]);
                }
            } else {
                assert(r.push(edges.last())[r.len() as int] == edges[j]);
            }
        }
    }
}

/// No change of the batch removes a node.
pub open spec fn no_removals(changes: Seq<NodeChange>) -> bool {
    forall|k: int| 0 <= k < changes.len() ==> !(#[trigger] changes[k] is Remove)
}

/// A single change never adds a node, keeps the ids of the nodes it does not
/// remove, and removes at most one.
proof fn lemma_change_shape(cur: Seq<FlowNode>, c: NodeChange)
    ensures
        !(c is Remove) ==> apply_node_change(cur, c).len() == cur.len() && forall|j: int|
            0 <= j < cur.len() ==> (#[trigger] apply_node_change(cur, c)[j]).id@ == cur[j].id@,
        ids_distinct(cur) ==> ids_distinct(apply_node_change(cur, c)),
{
    lemma_id_index(cur, c.node_id());
    let after = apply_node_change(cur, c);
    let i = id_index(cur, c.node_id());
    if ids_distinct(cur) && i >= 0 {
        if c is Remove {
            assert forall|a: int, b: int| 0 <= a < b < after.len() implies after[a].id@
                != after[b].id@ by {
                let a0 = if a < i { a } else { a + 1 };
                let b0 = if b < i { b } else { b + 1 };
                assert(after[a] == cur[a0]);
                assert(after[b] == cur[b0]);
            }
        } else {
            assert forall|a: int, b: int| 0 <= a < b < after.len() implies after[a].id@
                != after[b].id@ by {
                assert(after[a].id@ == cur[a].id@);
                assert(after[b].id@ == cur[b].id@);
            }
        }
    }
}

/// A batch without removals keeps the number of nodes and every node's id.
proof fn lemma_no_removals_keep_ids(nodes: Seq<FlowNode>, changes: Seq<NodeChange>)
    requires
        no_removals(changes),
    ensures
        apply_node_changes_spec(nodes, changes).len() == nodes.len(),
        forall|j: int|
            0 <= j < nodes.len() ==> (#[trigger] apply_node_changes_spec(nodes, changes)[j]).id@
                == nodes[j].id@,
    decreases changes.len(),
{
    if changes.len() > 0 {
        let d = changes.drop_last();
        assert forall|k: int| 0 <= k < d.len() implies !(#[trigger] d[k] is Remove) by {
            assert(d[k] == changes[k]);
        }
        lemma_no_removals_keep_ids(nodes, d);
        assert(!(changes[changes.len() - 1] is Remove));
        lemma_change_shape(apply_node_changes_spec(nodes, d), changes.last());
    }
}

/// A batch without removals keeps the number of nodes, and the index that
/// agreed with the nodes before it agrees with them after it.
pub proof fn lemma_batch_without_removals(nodes: Seq<FlowNode>, changes: Seq<NodeChange>)
    requires
        no_removals(changes),
    ensures
        apply_node_changes_spec(nodes, changes).len() == nodes.len(),
        lookup_of(apply_node_changes_spec(nodes, changes)) == lookup_of(nodes),
{
    lemma_no_removals_keep_ids(nodes, changes);
    lemma_lookup_same_ids(apply_node_changes_spec(nodes, changes), nodes);
}

/// A batch keeps node ids distinct: when no two nodes share an id before it,
/// none do after it.
pub proof fn lemma_batch_keeps_ids_distinct(nodes: Seq<FlowNode>, changes: Seq<NodeChange>)
    requires
        ids_distinct(nodes),
    ensures
        ids_distinct(apply_node_changes_spec(nodes, changes)),
    decreases changes.len(),
{
    if changes.len() > 0 {
        lemma_batch_keeps_ids_distinct(nodes, changes.drop_last());
        lemma_change_shape(apply_node_changes_spec(nodes, changes.drop_last()), changes.last());
    }
}

/// What a position change writes is what the node then holds: the last node
/// with the id keeps its place and takes the new position and dragging state;
/// a change for an id that no node has changes nothing.
pub proof fn lemma_position_change_visible(
    nodes: Seq<FlowNode>,
    id: String,
    position: Position,
    dragging: bool,
)
    ensures
        ({
            let after = apply_node_changes_spec(
                nodes,
                seq![NodeChange::Position { id, position, dragging }],
            );
            let i = id_index(nodes, id@);
            &&& i >= 0 ==> id_index(after, id@) == i && after[i].position == position
                && after[i].dragging == dragging
            &&& i < 0 ==> after == nodes
        }),
{
    let c = NodeChange::Position { id, position, dragging };
    let changes = seq![c];
    assert(changes.drop_last() =~= Seq::<NodeChange>::empty());
    assert(apply_node_changes_spec(nodes, changes.drop_last()) == nodes);
    assert(changes.last() == c);
    let after = apply_node_changes_spec(nodes, changes);
    let i = id_index(nodes, id@);
    lemma_id_index(nodes, id@);
    if i >= 0 {
        assert(after == nodes.update(i, FlowNode { position, dragging, ..nodes[i] }));
        assert forall|j: int| 0 <= j < nodes.len() implies has_id(id@)(#[trigger] after[j])
            == has_id(id@)(nodes[j]) by {
            if j == i {
            }
        }
        lemma_last_match_same(after, has_id(id@), nodes, has_id(id@));
    }
}

/// A removal drops exactly the last node with the id, when one has it, and
/// changes nothing otherwise; when no two nodes share an id, no node has the
/// id afterwards.
pub proof fn lemma_remove_change(nodes: Seq<FlowNode>, id: String)
    ensures
        apply_node_changes_spec(nodes, seq![NodeChange::Remove { id }]) == (if id_index(nodes, id@)
            >= 0 {
            nodes.remove(id_index(nodes, id@))
        } else {
            nodes
        }),
        ids_distinct(nodes) ==> id_index(
            apply_node_changes_spec(nodes, seq![NodeChange::Remove { id }]),
            id@,
        ) < 0,
{
    let c = NodeChange::Remove { id };
    let changes = seq![c];
    assert(changes.drop_last() =~= Seq::<NodeChange>::empty());
    assert(apply_node_changes_spec(nodes, changes.drop_last()) == nodes);
    assert(changes.last() == c);
    let after = apply_node_changes_spec(nodes, changes);
    let i = id_index(nodes, id@);
    lemma_id_index(nodes, id@);
    lemma_id_index(after, id@);
    if ids_distinct(nodes) && id_index(after, id@) >= 0 {
        let k = id_index(after, id@);
        if i >= 0 {
            let k0 = if k < i { k } else { k + 1 };
            assert(after[k] == nodes[k0]);
            assert(nodes[k0].id@ == id@);
            assert(k0 != i);
        } else {
            assert(nodes[k].id@ == id@);
        }
    }
}

/// After a removal change, no edge has the id, and every edge with another id
/// is still there.
pub proof fn lemma_edge_removal(edges: Seq<FlowEdge>, id: String)
    ensures
        ({
            let after = apply_edge_changes_spec(edges, seq![EdgeChange::Remove { id }]);
            &&& forall|j: int| 0 <= j < after.len() ==> (#[trigger] after[j]).id@ != id@
            &&& forall|j: int|
                0 <= j < edges.len() && (#[trigger] edges[j]).id@ != id@ ==> after.contains(
                    edges[j],
                )
        }),
{
    let c = EdgeChange::Remove { id };
    let changes = seq![c];
    assert(changes.drop_last() =~= Seq::<EdgeChange>::empty());
    assert(apply_edge_changes_spec(edges, changes.drop_last()) == edges);
    assert(changes.last() == c);
    lemma_edges_without(edges, id@);
}

/// What a single node change does: when no node has the change's id, nothing
/// changes; otherwise the change acts on the last node `i` with that id. A
/// position, dimensions or selection change sets exactly the fields it names on
/// that node, to the values it carries, and leaves every other field and every
/// other node as it was; a removal deletes that node and keeps the others in
/// order.
pub proof fn lemma_node_change_effect(nodes: Seq<FlowNode>, c: NodeChange)
    ensures
        ({
            let after = apply_node_changes_spec(nodes, seq![c]);
            let i = id_index(nodes, c.node_id());
            &&& i < 0 ==> after == nodes
            &&& i >= 0 ==> 0 <= i < nodes.len() && nodes[i].id@ == c.node_id()
            &&& i >= 0 && !(c is Remove) ==> after.len() == nodes.len() && forall|j: int|
                0 <= j < nodes.len() && j != i ==> #[trigger] after[j] == nodes[j]
            &&& i >= 0 ==> match c {
                NodeChange::Position { position, dragging, .. } => {
                    &&& after[i].position == position
                    &&& after[i].dragging == dragging
                    &&& (FlowNode {
                        position: nodes[i].position,
                        dragging: nodes[i].dragging,
                        ..after[i]
                    }) == nodes[i]
                },
                NodeChange::Dimensions { width, height, .. } => {
                    &&& after[i].measured_width == Some(width)
                    &&& after[i].measured_height == Some(height)
                    &&& (FlowNode {
                        measured_width: nodes[i].measured_width,
                        measured_height: nodes[i].measured_height,
                        ..after[i]
                    }) == nodes[i]
                },
                NodeChange::Select { selected, .. } => {
                    &&& after[i].selected == selected
                    &&& (FlowNode { selected: nodes[i].selected, ..after[i] }) == nodes[i]
                },
                NodeChange::Remove { .. } => {
                    &&& after.len() == nodes.len() - 1
                    &&& forall|j: int| 0 <= j < i ==> #[trigger] after[j] == nodes[j]
                    &&& forall|j: int| i <= j < after.len() ==> #[trigger] after[j] == nodes[j + 1]
                },
            }
        }),
{
    let changes = seq![c];
    assert(changes.drop_last() =~= Seq::<NodeChange>::empty());
    assert(apply_node_changes_spec(nodes, changes.drop_last()) == nodes);
    assert(changes.last() == c);
    lemma_id_index(nodes, c.node_id());
}

/// What a single edge change does. A selection change sets `selected` on the
/// first edge with the id, to the value it carries, and leaves every other
/// field and every other edge as it was (nothing changes when no edge has the
/// id). A removal keeps, in order, exactly the edges whose id differs.
pub proof fn lemma_edge_change_effect(edges: Seq<FlowEdge>, c: EdgeChange)
    ensures
        ({
            let after = apply_edge_changes_spec(edges, seq![c]);
            match c {
                EdgeChange::Select { id, selected } => {
                    &&& after.len() == edges.len()
                    &&& (forall|j: int| 0 <= j < edges.len() ==> (#[trigger] edges[j]).id@ != id@)
                        ==> after == edges
                    &&& forall|i: int|
                        0 <= i < edges.len() && (#[trigger] edges[i]).id@ == id@ && (forall|j: int|
                            0 <= j < i ==> edges[j].id@ != id@) ==> {
                            &&& after[i].selected == selected
                            &&& (FlowEdge { selected: edges[i].selected, ..after[i] }) == edges[i]
                            &&& forall|j: int|
                                0 <= j < edges.len() && j != i ==> after[j] == edges[j]
                        }
                },
                EdgeChange::Remove { id } => {
                    &&& forall|j: int| 0 <= j < after.len() ==> (#[trigger] after[j]).id@ != id@
                    &&& forall|j: int|
                        0 <= j < edges.len() && (#[trigger] edges[j]).id@ != id@ ==> after.contains(
                            edges[j],
                        )
                    &&& after.len() <= edges.len()
                },
            }
        }),
{
    let changes = seq![c];
    assert(changes.drop_last() =~= Seq::<EdgeChange>::empty());
    assert(apply_edge_changes_spec(edges, changes.drop_last()) == edges);
    assert(changes.last() == c);
    match c {
        EdgeChange::Select { id, selected } => {
            let p = edge_has_id(id@);
            lemma_first_match(edges, p);
            let f = first_match(edges, p);
            if forall|j: int| 0 <= j < edges.len() ==> (#[trigger] edges[j]).id@ != id@ {
                lemma_first_match_none(edges, p);
            }
            assert forall|i: int|
                0 <= i < edges.len() && (#[trigger] edges[i]).id@ == id@ && (forall|j: int|
                    0 <= j < i ==> edges[j].id@ != id@) implies f == i by {
                lemma_first_match_is(edges, p, i);
            }
        },
        EdgeChange::Remove { id } => {
            lemma_edges_without(edges, id@);
        },
    }
}

/// A batch is its parts in order: applying `a` followed by `b` is applying `a`,
/// then applying `b` to the result.
pub proof fn lemma_node_batch_split(nodes: Seq<FlowNode>, a: Seq<NodeChange>, b: Seq<NodeChange>)
    ensures
        apply_node_changes_spec(nodes, a + b) == apply_node_changes_spec(
            apply_node_changes_spec(nodes, a),
            b,
        ),
    decreases b.len(),
{
    if b.len() == 0 {
        assert(a + b =~= a);
    } else {
        assert((a + b).drop_last() =~= a + b.drop_last());
        assert((a + b).last() == b.last());
        lemma_node_batch_split(nodes, a, b.drop_last());
    }
}

/// A batch of edge changes is its parts in order: applying `a` followed by `b`
/// is applying `a`, then applying `b` to the result.
pub proof fn lemma_edge_batch_split(edges: Seq<FlowEdge>, a: Seq<EdgeChange>, b: Seq<EdgeChange>)
    ensures
        apply_edge_changes_spec(edges, a + b) == apply_edge_changes_spec(
            apply_edge_changes_spec(edges, a),
            b,
        ),
    decreases b.len(),
{
    if b.len() == 0 {
        assert(a + b =~= a);
    } else {
        assert((a + b).drop_last() =~= a + b.drop_last());
        assert((a + b).last() == b.last());
        lemma_edge_batch_split(edges, a, b.drop_last());
    }
}

impl NodeChange {
    /// The id of the node that the change names.
    pub fn id(&self) -> (r: &String)
        ensures
            r@ == self.node_id(),
    {
        match self {
            NodeChange::Position { id, .. } => id,
            NodeChange::Dimensions { id, .. } => id,
            NodeChange::Select { id, .. } => id,
            NodeChange::Remove { id } => id,
        }
    }
}

impl FlowState {
    /// The position that the index holds for `id`, whether or not it is current.
    fn lookup_index(&self, id: &String) -> (r: Option<usize>)
        ensures
            match r {
                Some(i) => self.node_lookup@.contains_key(id@) && i == self.node_lookup@[id@],
                None => !self.node_lookup@.contains_key(id@),
            },
    {
        match self.node_lookup.get(id.as_str()) {
            Some(i) => Some(*i),
            None => None,
        }
    }

    /// Apply one change to the node that has its id now; the index is
    /// rebuilt after a removal.
    fn apply_one_node_change(&mut self, c: &NodeChange)
        requires
            old(self).lookup_ok(),
        ensures
            final(self).lookup_ok(),
            final(self).nodes@ == apply_node_change(old(self).nodes@, *c),
            final(self).edges == old(self).edges,
            final(self).undo_stack == old(self).undo_stack,
            final(self).redo_stack == old(self).redo_stack,
    {
        let ghost prev = self.nodes@;
        proof {
            assert(prev.len() == self.nodes.len());
            lemma_lookup_node(prev, c.node_id());
        }
        match c {
            NodeChange::Position { id, position, dragging } => {
                if let Some(i) = self.lookup_index(id) {
                    self.nodes[i].position = *position;
                    self.nodes[i].dragging = *dragging;
                }
            },
            NodeChange::Dimensions { id, width, height } => {
                if let Some(i) = self.lookup_index(id) {
                    self.nodes[i].measured_width = Some(*width);
                    self.nodes[i].measured_height = Some(*height);
                }
            },
            NodeChange::Select { id, selected } => {
                if let Some(i) = self.lookup_index(id) {
                    self.nodes[i].selected = *selected;
                }
            },
            NodeChange::Remove { id } => {
                if let Some(i) = self.lookup_index(id) {
                    self.nodes.remove(i);
                    self.rebuild_lookup();
                }
            },
        }
        proof {
            if !(*c is Remove) {
                assert forall|j: int| 0 <= j < self.nodes@.len() implies (
                #[trigger] self.nodes@[j]).id@ == prev[j].id@ by {}
                lemma_lookup_same_ids(self.nodes@, prev);
            }
        }
    }

    /// Apply a batch of node changes, one by one in order; each change acts on
    /// the node that has its id when the change comes.
    pub fn apply_node_changes(&mut self, changes: &[NodeChange])
        requires
            old(self).lookup_ok(),
        ensures
            final(self).lookup_ok(),
            final(self).nodes@ == apply_node_changes_spec(old(self).nodes@, changes@),
            final(self).edges == old(self).edges,
            final(self).undo_stack == old(self).undo_stack,
            final(self).redo_stack == old(self).redo_stack,
    {
        let mut k: usize = 0;
        while k < changes.len()
            invariant
                k <= changes.len(),
                self.lookup_ok(),
                self.nodes@ == apply_node_changes_spec(old(self).nodes@, changes@.take(k as int)),
                self.edges == old(self).edges,
                self.undo_stack == old(self).undo_stack,
                self.redo_stack == old(self).redo_stack,
            decreases changes.len() - k,
        {
            proof {
                assert(changes@.take(k + 1).drop_last() =~= changes@.take(k as int));
                assert(changes@.take(k + 1).last() == changes@[k as int]);
            }
            self.apply_one_node_change(&changes[k]);
            k += 1;
        }
        proof {
            assert(changes@.take(changes@.len() as int) =~= changes@);
        }
    }

    /// The position of the first edge with the id, if any.
    fn find_edge(&self, id: &String) -> (r: Option<usize>)
        ensures
            match r {
                Some(i) => i as int == first_match(self.edges@, edge_has_id(id@)),
                None => first_match(self.edges@, edge_has_id(id@)) < 0,
            },
    {
        let mut i: usize = 0;
        while i < self.edges.len()
            invariant
                i <= self.edges.len(),
                forall|j: int| 0 <= j < i ==> !edge_has_id(id@)(#[trigger] self.edges@[j]),
            decreases self.edges.len() - i,
        {
            if self.edges[i].id == *id {
                proof {
                    lemma_first_match_is(self.edges@, edge_has_id(id@), i as int);
                }
                return Some(i);
            }
            i += 1;
        }
        proof {
            lemma_first_match_none(self.edges@, edge_has_id(id@));
        }
        None
    }

    /// Drop every edge with the id, keeping the others in order.
    fn remove_edges_with_id(&mut self, id: &String)
        ensures
            final(self).edges@ == edges_without(old(self).edges@, id@),
            final(self).nodes == old(self).nodes,
            final(self).node_lookup == old(self).node_lookup,
            final(self).undo_stack == old(self).undo_stack,
            final(self).redo_stack == old(self).redo_stack,
    {
        let mut kept: Vec<FlowEdge> = Vec::new();
        let mut i: usize = 0;
        while i < self.edges.len()
            invariant
                i <= self.edges.len(),
                kept@ == edges_without(self.edges@.take(i as int), id@),
            decreases self.edges.len() - i,
        {
            proof {
                assert(self.edges@.take(i + 1).drop_last() =~= self.edges@.take(i as int));
            }
            if self.edges[i].id != *id {
                kept.push(self.edges[i].clone());
            }
            i += 1;
        }
        proof {
            assert(self.edges@.take(self.edges@.len() as int) =~= self.edges@);
        }
        self.edges = kept;
    }

    /// Apply a batch of edge changes.
    pub fn apply_edge_changes(&mut self, changes: &[EdgeChange])
        ensures
            final(self).edges@ == apply_edge_changes_spec(old(self).edges@, changes@),
            final(self).nodes == old(self).nodes,
            final(self).node_lookup == old(self).node_lookup,
            final(self).undo_stack == old(self).undo_stack,
            final(self).redo_stack == old(self).redo_stack,
    {
        let mut k: usize = 0;
        while k < changes.len()
            invariant
                k <= changes.len(),
                self.edges@ == apply_edge_changes_spec(old(self).edges@, changes@.take(k as int)),
                self.nodes == old(self).nodes,
                self.node_lookup == old(self).node_lookup,
                self.undo_stack == old(self).undo_stack,
                self.redo_stack == old(self).redo_stack,
            decreases changes.len() - k,
        {
            proof {
                assert(changes@.take(k + 1).drop_last() =~= changes@.take(k as int));
                assert(changes@.take(k + 1).last() == changes@[k as int]);
            }
            match &changes[k] {
                EdgeChange::Select { id, selected } => {
                    if let Some(i) = self.find_edge(id) {
                        proof {
                            lemma_first_match(self.edges@, edge_has_id(id@));
                        }
                        self.edges[i].selected = *selected;
                    }
                },
                EdgeChange::Remove { id } => {
                    self.remove_edges_with_id(id);
                },
            }
            k += 1;
        }
        proof {
            assert(changes@.take(changes@.len() as int) =~= changes@);
        }
    }
}

} // verus!
