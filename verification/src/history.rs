//! Undo and redo as a mathematical model: the current graph and two stacks of
//! snapshots, with the laws that relate recording, undoing and redoing.
use vstd::prelude::*;

use crate::types::{FlowEdge, FlowNode, NodeView};

verus! {

/// The most snapshots that the undo and redo stacks hold together.
pub const MAX_HISTORY: usize = 100;

/// The nodes and edges of a graph at one moment.
pub struct GraphSnapshot {
    pub nodes: Seq<NodeView>,
    pub edges: Seq<FlowEdge>,
}

/// The current graph, the snapshots that undo restores (most recent last) and
/// the snapshots that redo restores (most recent last).
pub struct History {
    pub current: GraphSnapshot,
    pub undo: Seq<GraphSnapshot>,
    pub redo: Seq<GraphSnapshot>,
}

/// The snapshot of a list of nodes and a list of edges.
pub open spec fn snapshot_of(nodes: Seq<FlowNode>, edges: Seq<FlowEdge>) -> GraphSnapshot {
    GraphSnapshot { nodes: nodes.map_values(|n: FlowNode| n@), edges }
}

impl History {
    /// The two stacks hold at most `MAX_HISTORY` snapshots together.
    pub open spec fn bounded(self) -> bool {
        self.undo.len() + self.redo.len() <= MAX_HISTORY
    }
}

/// Recording: the current graph goes on the undo stack (the oldest snapshot
/// is dropped when the stack would exceed `MAX_HISTORY`), and the redo stack
/// is emptied.
pub open spec fn push_undo_model(h: History) -> History {
    History { current: h.current, undo: record(h.undo, h.current), redo: Seq::empty() }
}

/// The undo stack after `s` is recorded on it: `s` goes on top, and the oldest
/// snapshot is dropped when the stack would exceed `MAX_HISTORY`.
pub open spec fn record(undo: Seq<GraphSnapshot>, s: GraphSnapshot) -> Seq<GraphSnapshot> {
    let pushed = undo.push(s);
    if pushed.len() > MAX_HISTORY {
        pushed.drop_first()
    } else {
        pushed
    }
}

/// The undo stack after the snapshots are recorded on it in order.
pub open spec fn record_all(undo: Seq<GraphSnapshot>, snaps: Seq<GraphSnapshot>) -> Seq<
    GraphSnapshot,
>
    decreases snaps.len(),
{
    if snaps.len() == 0 {
        undo
    } else {
        record(record_all(undo, snaps.drop_last()), snaps.last())
    }
}

/// The history after undoing `k` times.
pub open spec fn undo_times(h: History, k: nat) -> History
    decreases k,
{
    if k == 0 {
        h
    } else {
        undo_model(undo_times(h, (k - 1) as nat))
    }
}

/// Undoing: the most recent undo snapshot becomes current and the graph it
/// replaces goes on the redo stack; nothing changes when there is nothing to undo.
pub open spec fn undo_model(h: History) -> History {
    if h.undo.len() == 0 {
        h
    } else {
        History { current: h.undo.last(), undo: h.undo.drop_last(), redo: h.redo.push(h.current) }
    }
}

/// Redoing: the most recent redo snapshot becomes current and the graph it
/// replaces goes on the undo stack; nothing changes when there is nothing to redo.
pub open spec fn redo_model(h: History) -> History {
    if h.redo.len() == 0 {
        h
    } else {
        History { current: h.redo.last(), undo: h.undo.push(h.current), redo: h.redo.drop_last() }
    }
}

/// Redo undoes an undo: when there is something to undo, undoing and then
/// redoing gives back the same graph and the same stacks.
pub proof fn lemma_redo_after_undo(h: History)
    requires
        h.undo.len() > 0,
    ensures
        redo_model(undo_model(h)) == h,
{
    assert(h.undo.drop_last().push(h.undo.last()) =~= h.undo);
    assert(h.redo.push(h.current).drop_last() =~= h.redo);
}

/// Undo undoes a redo: when there is something to redo, redoing and then
/// undoing gives back the same graph and the same stacks.
pub proof fn lemma_undo_after_redo(h: History)
    requires
        h.redo.len() > 0,
    ensures
        undo_model(redo_model(h)) == h,
{
    assert(h.redo.drop_last().push(h.redo.last()) =~= h.redo);
    assert(h.undo.push(h.current).drop_last() =~= h.undo);
}

/// Undo restores what was recorded: recording and then undoing gives back the
/// graph that was current when it was recorded, with that graph on the redo
/// stack alone; the undo stack is as before when it was not full.
pub proof fn lemma_undo_after_push_undo(h: History)
    ensures
        undo_model(push_undo_model(h)).current == h.current,
        undo_model(push_undo_model(h)).redo == seq![h.current],
        h.undo.len() < MAX_HISTORY ==> undo_model(push_undo_model(h)).undo == h.undo,
{
    assert(Seq::<GraphSnapshot>::empty().push(h.current) =~= seq![h.current]);
    if h.undo.len() < MAX_HISTORY {
        assert(h.undo.push(h.current).drop_last() =~= h.undo);
    }
}

/// Undo restores what was recorded, whatever changed in between: when the
/// graph was recorded from `h0` and then changed by operations that leave the
/// undo stack alone (giving `h1`), there is something to undo, and undoing
/// gives back the graph of `h0`.
pub proof fn lemma_undo_restores_recorded(h0: History, h1: History)
    requires
        h1.undo == push_undo_model(h0).undo,
    ensures
        h1.undo.len() > 0,
        undo_model(h1).current == h0.current,
{
}

/// Recording from an empty undo stack keeps the most recent `MAX_HISTORY`
/// snapshots, oldest first.
pub proof fn lemma_record_all_keeps_latest(snaps: Seq<GraphSnapshot>)
    ensures
        record_all(Seq::empty(), snaps) == snaps.subrange(
            if snaps.len() > MAX_HISTORY {
                snaps.len() - MAX_HISTORY
            } else {
                0
            },
            snaps.len() as int,
        ),
    decreases snaps.len(),
{
    if snaps.len() > 0 {
        let d = snaps.drop_last();
        lemma_record_all_keeps_latest(d);
        let n = snaps.len() as int;
        let lo_d = if d.len() > MAX_HISTORY { d.len() - MAX_HISTORY } else { 0 };
        let lo = if n > MAX_HISTORY { n - MAX_HISTORY } else { 0 };
        let pushed = d.subrange(lo_d, d.len() as int).push(snaps.last());
        assert(pushed =~= snaps.subrange(lo_d, n));
        if pushed.len() > MAX_HISTORY {
            assert(pushed.drop_first() =~= snaps.subrange(lo, n));
        }
    }
}

/// Undoing `k` times, with at least `k` snapshots to undo, makes the `k`-th
/// most recent snapshot current and leaves the older ones to undo.
pub proof fn lemma_undo_times(h: History, k: nat)
    requires
        k <= h.undo.len(),
    ensures
        undo_times(h, k).undo == h.undo.subrange(0, h.undo.len() - k),
        k > 0 ==> undo_times(h, k).current == h.undo[h.undo.len() - k],
    decreases k,
{
    if k > 0 {
        lemma_undo_times(h, (k - 1) as nat);
        let u = h.undo.subrange(0, h.undo.len() - (k - 1));
        assert(u.drop_last() =~= h.undo.subrange(0, h.undo.len() - k));
    } else {
        assert(h.undo.subrange(0, h.undo.len() as int) =~= h.undo);
    }
}

/// After recording `snaps` one by one from an empty history (the graph may
/// change between recordings, but nothing is undone or redone), at most
/// `MAX_HISTORY` undos succeed; undoing all of them makes the oldest kept
/// snapshot current, and one more undo has nothing to undo.
pub proof fn lemma_undo_after_recordings(h: History, snaps: Seq<GraphSnapshot>)
    requires
        h.undo == record_all(Seq::empty(), snaps),
        snaps.len() > 0,
    ensures
        h.undo.len() == if snaps.len() > MAX_HISTORY {
            MAX_HISTORY as int
        } else {
            snaps.len() as int
        },
        undo_times(h, h.undo.len()).current == snaps[if snaps.len() > MAX_HISTORY {
            snaps.len() - MAX_HISTORY
        } else {
            0
        }],
        undo_times(h, h.undo.len()).undo.len() == 0,
{
    lemma_record_all_keeps_latest(snaps);
    lemma_undo_times(h, h.undo.len());
}

/// Recording empties the redo stack, so there is nothing to redo after it.
pub proof fn lemma_push_undo_clears_redo(h: History)
    ensures
        redo_model(push_undo_model(h)) == push_undo_model(h),
        push_undo_model(h).redo.len() == 0,
{
}

/// Recording, undoing and redoing keep the history within `MAX_HISTORY` snapshots.
pub proof fn lemma_history_stays_bounded(h: History)
    requires
        h.bounded(),
    ensures
        push_undo_model(h).bounded(),
        undo_model(h).bounded(),
        redo_model(h).bounded(),
{
}

} // verus!
