//! The central state store of a flow graph: nodes, edges, an index from node
//! id to position, and undo/redo history.
use vstd::prelude::*;
use vstd::hash_map::StringHashMap;

use crate::history::{
    push_undo_model, redo_model, snapshot_of, undo_model, GraphSnapshot, History, MAX_HISTORY,
};
use crate::seqs::{last_match, lemma_last_match, lemma_last_match_same};
use crate::types::{FlowEdge, FlowNode};

verus! {

broadcast use vstd::hash_map::group_hash_map_axioms;

/// The predicate "the node's id is `id`".
pub open spec fn has_id(id: Seq<char>) -> spec_fn(FlowNode) -> bool {
    |n: FlowNode| n.id@ == id
}

/// The index of the last node whose id is `id`, or -1 when there is none.
/// Where ids repeat, the last node with the id is the one the index finds.
pub open spec fn id_index(nodes: Seq<FlowNode>, id: Seq<char>) -> int {
    last_match(nodes, has_id(id))
}

/// The index from node id to position that a list of nodes calls for.
pub open spec fn lookup_of(nodes: Seq<FlowNode>) -> Map<Seq<char>, usize> {
    Map::new(
        |k: Seq<char>| id_index(nodes, k) >= 0,
        |k: Seq<char>| id_index(nodes, k) as usize,
    )
}

/// The node at the position that `lookup` holds for `id`, if it holds one.
pub open spec fn lookup_node(nodes: Seq<FlowNode>, lookup: Map<Seq<char>, usize>, id: Seq<char>) -> Option<FlowNode> {
    if lookup.contains_key(id) {
        Some(nodes[lookup[id] as int])
    } else {
        None
    }
}

/// The position that `lookup` holds for `id`, if any, is inside the nodes.
pub open spec fn lookup_hit_in_range(nodes: Seq<FlowNode>, lookup: Map<Seq<char>, usize>, id: Seq<char>) -> bool {
    lookup.contains_key(id) ==> lookup[id] < nodes.len()
}

/// `id_index` finds the last node with the id, or reports that none has it.
pub proof fn lemma_id_index(nodes: Seq<FlowNode>, id: Seq<char>)
    ensures
        -1 <= id_index(nodes, id) < nodes.len(),
        id_index(nodes, id) >= 0 ==> nodes[id_index(nodes, id)].id@ == id,
        forall|j: int|
            id_index(nodes, id) < j < nodes.len() && 0 <= j ==> #[trigger] nodes[j].id@ != id,
{
    lemma_last_match(nodes, has_id(id));
    assert forall|j: int| id_index(nodes, id) < j < nodes.len() && 0 <= j implies #[trigger] nodes[j].id@
        != id by {
        assert(!has_id(id)(nodes[j]));
    }
}

/// Two node lists with the same ids, position by position, call for the same index.
pub proof fn lemma_lookup_same_ids(a: Seq<FlowNode>, b: Seq<FlowNode>)
    requires
        a.len() == b.len(),
        forall|j: int| 0 <= j < a.len() ==> (#[trigger] a[j]).id@ == b[j].id@,
    ensures
        lookup_of(a) == lookup_of(b),
{
    assert forall|k: Seq<char>| id_index(a, k) == id_index(b, k) by {
        assert forall|j: int| 0 <= j < a.len() implies has_id(k)(#[trigger] a[j]) == has_id(k)(
            b[j],
        ) by {
            assert(a[j].id@ == b[j].id@);
        }
        lemma_last_match_same(a, has_id(k), b, has_id(k));
    }
    assert(lookup_of(a) =~= lookup_of(b));
}

/// The index holds `id` exactly when some node has it, pointing at the last such node.
proof fn lemma_lookup_entry(nodes: Seq<FlowNode>, id: Seq<char>)
    requires
        nodes.len() <= usize::MAX,
    ensures
        lookup_of(nodes).contains_key(id) == (id_index(nodes, id) >= 0),
        id_index(nodes, id) >= 0 ==> lookup_of(nodes)[id] as int == id_index(nodes, id),
{
    lemma_id_index(nodes, id);
}

/// An index that agrees with the nodes finds, for every id, the last node with
/// that id, or nothing when no node has it.
pub proof fn lemma_lookup_node(nodes: Seq<FlowNode>, id: Seq<char>)
    requires
        nodes.len() <= usize::MAX,
    ensures
        lookup_hit_in_range(nodes, lookup_of(nodes), id),
        lookup_node(nodes, lookup_of(nodes), id) == (if id_index(nodes, id) >= 0 {
            Some(nodes[id_index(nodes, id)])
        } else {
            None
        }),
        lookup_of(nodes).contains_key(id) == (id_index(nodes, id) >= 0),
        lookup_of(nodes).contains_key(id) ==> lookup_of(nodes)[id] as int == id_index(nodes, id),
{
    lemma_lookup_entry(nodes, id);
    lemma_id_index(nodes, id);
}

/// Indexing one more node adds its id, pointing at its position.
proof fn lemma_lookup_extend(nodes: Seq<FlowNode>, i: int)
    requires
        0 <= i < nodes.len(),
    ensures
        lookup_of(nodes.take(i + 1)) == lookup_of(nodes.take(i)).insert(nodes[i].id@, i as usize),
{
    let t = nodes.take(i + 1);
    assert(t.drop_last() =~= nodes.take(i));
    assert(lookup_of(t) =~= lookup_of(nodes.take(i)).insert(nodes[i].id@, i as usize));
}

/// A snapshot of the graph, kept for undo and redo.
pub struct HistoryEntry {
    pub nodes: Vec<FlowNode>,
    pub edges: Vec<FlowEdge>,
}

impl HistoryEntry {
    pub open spec fn view(&self) -> GraphSnapshot {
        snapshot_of(self.nodes@, self.edges@)
    }
}

/// Copies of the nodes, equal to them as values.
fn copy_nodes(nodes: &Vec<FlowNode>) -> (r: Vec<FlowNode>)
    ensures
        r@.map_values(|n: FlowNode| n@) == nodes@.map_values(|n: FlowNode| n@),
{
    let r = nodes.clone();
    assert(r@.map_values(|n: FlowNode| n@) =~= nodes@.map_values(|n: FlowNode| n@));
    r
}

/// Copies of the edges, equal to them.
fn copy_edges(edges: &Vec<FlowEdge>) -> (r: Vec<FlowEdge>)
    ensures
        r@ == edges@,
{
    let r = edges.clone();
    assert(r@ =~= edges@);
    r
}

/// The central state store for a flow graph.
pub struct FlowState {
    pub nodes: Vec<FlowNode>,
    pub edges: Vec<FlowEdge>,
    pub node_lookup: StringHashMap<usize>,
    pub undo_stack: Vec<HistoryEntry>,
    pub redo_stack: Vec<HistoryEntry>,
}

impl FlowState {
    /// The index from node id to position, as it is held.
    pub open spec fn lookup_view(&self) -> Map<Seq<char>, usize> {
        self.node_lookup@
    }

    /// The snapshots that undo restores, most recent last.
    pub open spec fn undo_history(&self) -> Seq<GraphSnapshot> {
        self.undo_stack@.map_values(|e: HistoryEntry| e.view())
    }

    /// The snapshots that redo restores, most recent last.
    pub open spec fn redo_history(&self) -> Seq<GraphSnapshot> {
        self.redo_stack@.map_values(|e: HistoryEntry| e.view())
    }

    /// The index agrees with the nodes.
    pub open spec fn lookup_ok(&self) -> bool {
        self.lookup_view() == lookup_of(self.nodes@)
    }

    /// The current graph with its undo and redo stacks.
    pub open spec fn history(&self) -> History {
        History {
            current: snapshot_of(self.nodes@, self.edges@),
            undo: self.undo_history(),
            redo: self.redo_history(),
        }
    }

    /// The index agrees with the nodes, and the history holds at most
    /// `MAX_HISTORY` snapshots.
    pub open spec fn wf(&self) -> bool {
        self.lookup_ok() && self.history().bounded()
    }

    /// A store holding `nodes` and `edges`, with the index built and no history.
    pub fn new(nodes: Vec<FlowNode>, edges: Vec<FlowEdge>) -> (r: Self)
        ensures
            r.wf(),
            r.nodes == nodes,
            r.edges == edges,
            r.history().undo.len() == 0,
            r.history().redo.len() == 0,
    {
        let mut state = FlowState {
            nodes,
            edges,
            node_lookup: StringHashMap::new(),
            undo_stack: Vec::new(),
            redo_stack: Vec::new(),
        };
        state.rebuild_lookup();
        assert(state.undo_history() =~= Seq::<GraphSnapshot>::empty());
        assert(state.redo_history() =~= Seq::<GraphSnapshot>::empty());
        state
    }

    /// Rebuild the node lookup index.
    pub fn rebuild_lookup(&mut self)
        ensures
            final(self).lookup_ok(),
            final(self).nodes == old(self).nodes,
            final(self).edges == old(self).edges,
            final(self).undo_stack == old(self).undo_stack,
            final(self).redo_stack == old(self).redo_stack,
    {
        self.node_lookup.clear();
        let mut i: usize = 0;
        while i < self.nodes.len()
            invariant
                i <= self.nodes.len(),
                self.node_lookup@ == lookup_of(self.nodes@.take(i as int)),
                self.nodes == old(self).nodes,
                self.edges == old(self).edges,
                self.undo_stack == old(self).undo_stack,
                self.redo_stack == old(self).redo_stack,
            decreases self.nodes.len() - i,
        {
            let id = self.nodes[i].id.clone();
            proof {
                lemma_lookup_extend(self.nodes@, i as int);
            }
            self.node_lookup.insert(id, i);
            i += 1;
        }
        assert(self.nodes@.take(self.nodes@.len() as int) =~= self.nodes@);
    }

    /// Push the current state onto the undo stack. Call before destructive operations.
    pub fn push_undo(&mut self)
        ensures
            old(self).history().bounded() ==> final(self).history().bounded(),
            final(self).node_lookup == old(self).node_lookup,
            final(self).history() == push_undo_model(old(self).history()),
            final(self).nodes == old(self).nodes,
            final(self).edges == old(self).edges,
    {
        let entry = HistoryEntry { nodes: copy_nodes(&self.nodes), edges: copy_edges(&self.edges) };
        self.undo_stack.push(entry);
        self.redo_stack.clear();
        if self.undo_stack.len() > MAX_HISTORY {
            self.undo_stack.remove(0);
        }
        proof {
            let h = old(self).history();
            let pushed = h.undo.push(h.current);
            if pushed.len() > MAX_HISTORY {
                assert(self.undo_history() =~= pushed.drop_first());
            } else {
                assert(self.undo_history() =~= pushed);
            }
            assert(self.redo_history() =~= Seq::<GraphSnapshot>::empty());
        }
    }

    /// Undo the last operation. Returns true if undo was performed.
    pub fn undo(&mut self) -> (r: bool)
        ensures
            r ==> final(self).lookup_ok(),
            !r ==> final(self).node_lookup == old(self).node_lookup,
            old(self).history().bounded() ==> final(self).history().bounded(),
            r == (old(self).history().undo.len() > 0),
            final(self).history() == undo_model(old(self).history()),
            !r ==> final(self).nodes == old(self).nodes && final(self).edges == old(self).edges,
    {
        match self.undo_stack.pop() {
            Some(entry) => {
                let current = HistoryEntry {
                    nodes: copy_nodes(&self.nodes),
                    edges: copy_edges(&self.edges),
                };
                self.redo_stack.push(current);
                let HistoryEntry { nodes, edges } = entry;
                self.nodes = nodes;
                self.edges = edges;
                self.rebuild_lookup();
                proof {
                    let h = old(self).history();
                    assert(self.undo_history() =~= h.undo.drop_last());
                    assert(self.redo_history() =~= h.redo.push(h.current));
                }
                true
            },
            None => false,
        }
    }

    /// Redo the last undone operation. Returns true if redo was performed.
    pub fn redo(&mut self) -> (r: bool)
        ensures
            r ==> final(self).lookup_ok(),
            !r ==> final(self).node_lookup == old(self).node_lookup,
            old(self).history().bounded() ==> final(self).history().bounded(),
            r == (old(self).history().redo.len() > 0),
            final(self).history() == redo_model(old(self).history()),
            !r ==> final(self).nodes == old(self).nodes && final(self).edges == old(self).edges,
    {
        match self.redo_stack.pop() {
            Some(entry) => {
                let current = HistoryEntry {
                    nodes: copy_nodes(&self.nodes),
                    edges: copy_edges(&self.edges),
                };
                self.undo_stack.push(current);
                let HistoryEntry { nodes, edges } = entry;
                self.nodes = nodes;
                self.edges = edges;
                self.rebuild_lookup();
                proof {
                    let h = old(self).history();
                    assert(self.redo_history() =~= h.redo.drop_last());
                    assert(self.undo_history() =~= h.undo.push(h.current));
                }
                true
            },
            None => false,
        }
    }

    /// Get a node by ID: the node at the position that the index holds for the
    /// id. While the index agrees with the nodes, that is the last node with the id.
    pub fn get_node(&self, id: &String) -> (r: Option<&FlowNode>)
        requires
            lookup_hit_in_range(self.nodes@, self.node_lookup@, id@),
        ensures
            r matches Some(n) ==> lookup_node(self.nodes@, self.node_lookup@, id@) == Some(*n),
            r is None ==> lookup_node(self.nodes@, self.node_lookup@, id@) is None,
            self.lookup_ok() ==> match r {
                Some(n) => id_index(self.nodes@, id@) >= 0 && *n == self.nodes@[id_index(
                    self.nodes@,
                    id@,
                )],
                None => id_index(self.nodes@, id@) < 0,
            },
    {
        proof {
            if self.lookup_ok() {
                assert(self.nodes@.len() == self.nodes.len());
                lemma_lookup_node(self.nodes@, id@);
            }
        }
        match self.node_lookup.get(id.as_str()) {
            Some(i) => Some(&self.nodes[*i]),
            None => None,
        }
    }

    /// Get a mutable node by ID: the node at the position that the index holds
    /// for the id. While the index agrees with the nodes, that is the last node
    /// with the id.
    pub fn get_node_mut(&mut self, id: &String) -> (r: Option<&mut FlowNode>)
        requires
            lookup_hit_in_range(old(self).nodes@, old(self).node_lookup@, id@),
        ensures
            !old(self).node_lookup@.contains_key(id@) ==> r is None && final(self).nodes == old(
                self,
            ).nodes,
            old(self).node_lookup@.contains_key(id@) ==> (r matches Some(n) && *n == old(
                self,
            ).nodes@[old(self).node_lookup@[id@] as int] && final(self).nodes@ == old(
                self,
            ).nodes@.update(old(self).node_lookup@[id@] as int, *final(n))),
            old(self).lookup_ok() ==> (old(self).node_lookup@.contains_key(id@) == (id_index(
                old(self).nodes@,
                id@,
            ) >= 0) && (old(self).node_lookup@.contains_key(id@) ==> old(
                self,
            ).node_lookup@[id@] as int == id_index(old(self).nodes@, id@))),
            final(self).edges == old(self).edges,
            final(self).node_lookup == old(self).node_lookup,
            final(self).undo_stack == old(self).undo_stack,
            final(self).redo_stack == old(self).redo_stack,
    {
        proof {
            if self.lookup_ok() {
                assert(self.nodes@.len() == self.nodes.len());
                lemma_lookup_node(self.nodes@, id@);
            }
        }
        let found = match self.node_lookup.get(id.as_str()) {
            Some(i) => Some(*i),
            None => None,
        };
        match found {
            Some(i) => Some(&mut self.nodes[i]),
            None => None,
        }
    }

    /// Set all nodes, rebuilding the index.
    pub fn set_nodes(&mut self, nodes: Vec<FlowNode>)
        ensures
            final(self).lookup_ok(),
            final(self).nodes == nodes,
            final(self).edges == old(self).edges,
            final(self).undo_history() == old(self).undo_history(),
            final(self).redo_history() == old(self).redo_history(),
    {
        self.nodes = nodes;
        self.rebuild_lookup();
    }

    /// Set all edges.
    pub fn set_edges(&mut self, edges: Vec<FlowEdge>)
        ensures
            final(self).edges == edges,
            final(self).nodes == old(self).nodes,
            final(self).lookup_view() == old(self).lookup_view(),
            final(self).undo_history() == old(self).undo_history(),
            final(self).redo_history() == old(self).redo_history(),
    {
        self.edges = edges;
    }
}

} // verus!
