//! Which side of a node an edge attaches to, and where along that side a
//! handle sits among the handles that share it.
use vstd::prelude::*;

use crate::seqs::{first_match, lemma_first_match, lemma_first_match_is, lemma_first_match_none};
use crate::types::{opt_chars, FlowNode, HandleDef, HandlePosition, HandleType};

verus! {

/// The predicate "the handle's id is `id`".
pub open spec fn handle_has_id(id: Seq<char>) -> spec_fn(HandleDef) -> bool {
    |h: HandleDef| opt_chars(h.id) == Some(id)
}

/// The predicate "the handle is of type `t`".
pub open spec fn handle_of_type(t: HandleType) -> spec_fn(HandleDef) -> bool {
    |h: HandleDef| h.handle_type == t
}

/// The side an edge end takes when the node declares no handle for it:
/// sources leave on the right, targets arrive on the left.
pub open spec fn default_side(t: HandleType) -> HandlePosition {
    match t {
        HandleType::Source => HandlePosition::Right,
        HandleType::Target => HandlePosition::Left,
    }
}

/// The side of the handle named `handle_id` if the node has one with that id;
/// otherwise the side of its first handle of type `t`; otherwise `default_side(t)`.
pub open spec fn handle_position_spec(
    handles: Seq<HandleDef>,
    handle_id: Option<Seq<char>>,
    t: HandleType,
) -> HandlePosition {
    let by_id = match handle_id {
        Some(id) => first_match(handles, handle_has_id(id)),
        None => -1,
    };
    if by_id >= 0 {
        handles[by_id].position
    } else {
        let by_type = first_match(handles, handle_of_type(t));
        if by_type >= 0 {
            handles[by_type].position
        } else {
            default_side(t)
        }
    }
}

/// The handles on side `side`, in order.
pub open spec fn same_side(handles: Seq<HandleDef>, side: HandlePosition) -> Seq<HandleDef>
    decreases handles.len(),
{
    if handles.len() == 0 {
        Seq::empty()
    } else {
        let r = same_side(handles.drop_last(), side);
        if handles.last().position == side {
            r.push(handles.last())
        } else {
            r
        }
    }
}

/// Where a handle sits on side `side`: its index among the handles on that side
/// (0 when it has no id or is not among them), and how many slots the side is
/// divided into (the number of handles there, at least 1).
pub open spec fn handle_slot_spec(
    handles: Seq<HandleDef>,
    handle_id: Option<Seq<char>>,
    side: HandlePosition,
) -> (usize, usize) {
    let on_side = same_side(handles, side);
    let count = if on_side.len() > 1 {
        on_side.len()
    } else {
        1
    };
    let index = match handle_id {
        Some(id) => {
            let k = first_match(on_side, handle_has_id(id));
            if k >= 0 {
                k
            } else {
                0
            }
        },
        None => 0,
    };
    (index as usize, count as usize)
}

/// `same_side` keeps no more handles than there are.
proof fn lemma_same_side_len(handles: Seq<HandleDef>, side: HandlePosition)
    ensures
        same_side(handles, side).len() <= handles.len(),
    decreases handles.len(),
{
    if handles.len() > 0 {
        lemma_same_side_len(handles.drop_last(), side);
    }
}

/// A handle's slot lies on its side: its index is below the number of slots,
/// so the handle sits strictly between the two ends of the side.
pub proof fn lemma_slot_within_side(
    handles: Seq<HandleDef>,
    handle_id: Option<Seq<char>>,
    side: HandlePosition,
)
    requires
        handles.len() <= usize::MAX,
    ensures
        handle_slot_spec(handles, handle_id, side).0 < handle_slot_spec(handles, handle_id, side).1,
        handle_slot_spec(handles, handle_id, side).1 >= 1,
{
    lemma_same_side_len(handles, side);
    if let Some(id) = handle_id {
        lemma_first_match(same_side(handles, side), handle_has_id(id));
    }
}

/// The predicate "the handle is on side `side`".
pub open spec fn on_side(side: HandlePosition) -> spec_fn(HandleDef) -> bool {
    |h: HandleDef| h.position == side
}

/// `same_side` keeps the handles on the side, in order.
proof fn lemma_same_side_is_filter(handles: Seq<HandleDef>, side: HandlePosition)
    ensures
        same_side(handles, side) == handles.filter(on_side(side)),
    decreases handles.len(),
{
    reveal(Seq::filter);
    if handles.len() > 0 {
        lemma_same_side_is_filter(handles.drop_last(), side);
    }
}

/// A handle with the id on the side, with none before it: the first match of
/// the id among the side's handles sits after the side's handles before it.
proof fn lemma_first_on_side(handles: Seq<HandleDef>, id: Seq<char>, side: HandlePosition, j: int)
    requires
        0 <= j < handles.len(),
        handles[j].position == side,
        opt_chars(handles[j].id) == Some(id),
        forall|m: int|
            0 <= m < j ==> !((#[trigger] handles[m]).position == side && opt_chars(handles[m].id)
                == Some(id)),
    ensures
        first_match(same_side(handles, side), handle_has_id(id)) == same_side(
            handles.take(j),
            side,
        ).len(),
    decreases handles.len(),
{
    let d = handles.drop_last();
    if j < handles.len() - 1 {
        assert forall|m: int|
            0 <= m < j implies !((#[trigger] d[m]).position == side && opt_chars(d[m].id) == Some(
            id,
        )) by {
            assert(d[m] == handles[m]);
        }
        assert(d[j] == handles[j]);
        lemma_first_on_side(d, id, side, j);
        assert(d.take(j) =~= handles.take(j));
        let r = same_side(d, side);
        if handles.last().position == side {
            assert(r.push(handles.last()).drop_last() =~= r);
        }
    } else {
        assert(handles.take(j) =~= d);
        assert forall|m: int| 0 <= m < d.len() implies !((#[trigger] d[m]).position == side
            && opt_chars(d[m].id) == Some(id)) by {
            assert(d[m] == handles[m]);
        }
        lemma_no_id_on_side(d, id, side);
        let r = same_side(d, side);
        assert(r.push(handles.last()).drop_last() =~= r);
    }
}

/// When no handle on the side has the id, no handle kept for the side matches it.
proof fn lemma_no_id_on_side(handles: Seq<HandleDef>, id: Seq<char>, side: HandlePosition)
    requires
        forall|m: int|
            0 <= m < handles.len() ==> !((#[trigger] handles[m]).position == side && opt_chars(
                handles[m].id,
            ) == Some(id)),
    ensures
        first_match(same_side(handles, side), handle_has_id(id)) < 0,
    decreases handles.len(),
{
    if handles.len() > 0 {
        let d = handles.drop_last();
        assert forall|m: int| 0 <= m < d.len() implies !((#[trigger] d[m]).position == side
            && opt_chars(d[m].id) == Some(id)) by {
            assert(d[m] == handles[m]);
        }
        lemma_no_id_on_side(d, id, side);
        let r = same_side(d, side);
        assert(!((handles[handles.len() - 1]).position == side && opt_chars(
            handles[handles.len() - 1].id,
        ) == Some(id)));
        if handles.last().position == side {
            assert(r.push(handles.last()).drop_last() =~= r);
        }
    }
}

/// Where a handle sits on its side, in terms of the node's handles: the side
/// has as many slots as it has handles (at least one); a handle named by id
/// takes the slot after the side's handles that come before the first handle
/// on the side with that id; a handle without an id, or with an id that no
/// handle on the side has, takes the first slot.
pub proof fn lemma_handle_slot_meaning(
    handles: Seq<HandleDef>,
    handle_id: Option<Seq<char>>,
    side: HandlePosition,
)
    requires
        handles.len() <= usize::MAX,
    ensures
        ({
            let (index, count) = handle_slot_spec(handles, handle_id, side);
            let n = handles.filter(on_side(side)).len();
            &&& count == if n > 1 {
                n
            } else {
                1
            }
            &&& forall|j: int|
                0 <= j < handles.len() && handle_id is Some && (#[trigger] handles[j]).position
                    == side && opt_chars(handles[j].id) == handle_id && (forall|m: int|
                    0 <= m < j ==> !(handles[m].position == side && opt_chars(handles[m].id)
                        == handle_id)) ==> index == handles.take(j).filter(on_side(side)).len()
            &&& (handle_id is None || forall|j: int|
                0 <= j < handles.len() ==> !((#[trigger] handles[j]).position == side
                    && opt_chars(handles[j].id) == handle_id)) ==> index == 0
        }),
{
    lemma_same_side_is_filter(handles, side);
    lemma_same_side_len(handles, side);
    if let Some(id) = handle_id {
        assert forall|j: int|
            0 <= j < handles.len() && (#[trigger] handles[j]).position == side && opt_chars(
                handles[j].id,
            ) == handle_id && (forall|m: int|
                0 <= m < j ==> !(handles[m].position == side && opt_chars(handles[m].id)
                    == handle_id)) implies handle_slot_spec(handles, handle_id, side).0
            == handles.take(j).filter(on_side(side)).len() by {
            lemma_first_on_side(handles, id, side, j);
            lemma_same_side_is_filter(handles.take(j), side);
            lemma_same_side_len(handles.take(j), side);
        }
        if forall|j: int|
            0 <= j < handles.len() ==> !((#[trigger] handles[j]).position == side && opt_chars(
                handles[j].id,
            ) == handle_id) {
            lemma_no_id_on_side(handles, id, side);
        }
    }
}

/// An edge end named by a handle id attaches to the side of the first handle
/// with that id.
pub proof fn lemma_position_of_named_handle(
    handles: Seq<HandleDef>,
    id: Seq<char>,
    t: HandleType,
    j: int,
)
    requires
        0 <= j < handles.len(),
        opt_chars(handles[j].id) == Some(id),
        forall|m: int| 0 <= m < j ==> opt_chars((#[trigger] handles[m]).id) != Some(id),
    ensures
        handle_position_spec(handles, Some(id), t) == handles[j].position,
{
    assert forall|m: int| 0 <= m < j implies !handle_has_id(id)(#[trigger] handles[m]) by {}
    lemma_first_match_is(handles, handle_has_id(id), j);
}

/// An edge end whose handle id no handle has (or that names none) attaches to
/// the side of the first handle of its type.
pub proof fn lemma_position_of_typed_handle(
    handles: Seq<HandleDef>,
    handle_id: Option<Seq<char>>,
    t: HandleType,
    j: int,
)
    requires
        forall|m: int|
            0 <= m < handles.len() && handle_id is Some ==> opt_chars((#[trigger] handles[m]).id)
                != handle_id,
        0 <= j < handles.len(),
        handles[j].handle_type == t,
        forall|m: int| 0 <= m < j ==> (#[trigger] handles[m]).handle_type != t,
    ensures
        handle_position_spec(handles, handle_id, t) == handles[j].position,
{
    if let Some(id) = handle_id {
        assert forall|m: int| 0 <= m < handles.len() implies !handle_has_id(id)(
            #[trigger] handles[m],
        ) by {}
        lemma_first_match_none(handles, handle_has_id(id));
    }
    assert forall|m: int| 0 <= m < j implies !handle_of_type(t)(#[trigger] handles[m]) by {}
    lemma_first_match_is(handles, handle_of_type(t), j);
}

/// An edge end with no matching handle by id and no handle of its type
/// attaches on the right for a source and on the left for a target.
pub proof fn lemma_position_without_handle(
    handles: Seq<HandleDef>,
    handle_id: Option<Seq<char>>,
    t: HandleType,
)
    requires
        forall|m: int|
            0 <= m < handles.len() && handle_id is Some ==> opt_chars((#[trigger] handles[m]).id)
                != handle_id,
        forall|m: int| 0 <= m < handles.len() ==> (#[trigger] handles[m]).handle_type != t,
    ensures
        handle_position_spec(handles, handle_id, t) == match t {
            HandleType::Source => HandlePosition::Right,
            HandleType::Target => HandlePosition::Left,
        },
{
    if let Some(id) = handle_id {
        assert forall|m: int| 0 <= m < handles.len() implies !handle_has_id(id)(
            #[trigger] handles[m],
        ) by {}
        lemma_first_match_none(handles, handle_has_id(id));
    }
    assert forall|m: int| 0 <= m < handles.len() implies !handle_of_type(t)(
        #[trigger] handles[m],
    ) by {}
    lemma_first_match_none(handles, handle_of_type(t));
}

/// The position of the first handle whose id is `id`.
fn find_handle_by_id(handles: &Vec<HandleDef>, id: &String) -> (r: Option<usize>)
    ensures
        match r {
            Some(i) => i as int == first_match(handles@, handle_has_id(id@)),
            None => first_match(handles@, handle_has_id(id@)) < 0,
        },
{
    let mut i: usize = 0;
    while i < handles.len()
        invariant
            i <= handles.len(),
            forall|j: int| 0 <= j < i ==> !handle_has_id(id@)(#[trigger] handles@[j]),
        decreases handles.len() - i,
    {
        let matches = match &handles[i].id {
            Some(h) => *h == *id,
            None => false,
        };
        if matches {
            proof {
                lemma_first_match_is(handles@, handle_has_id(id@), i as int);
            }
            return Some(i);
        }
        i += 1;
    }
    proof {
        lemma_first_match_none(handles@, handle_has_id(id@));
    }
    None
}

/// The position of the first handle of type `t`.
fn find_handle_by_type(handles: &Vec<HandleDef>, t: HandleType) -> (r: Option<usize>)
    ensures
        match r {
            Some(i) => i as int == first_match(handles@, handle_of_type(t)),
            None => first_match(handles@, handle_of_type(t)) < 0,
        },
{
    let mut i: usize = 0;
    while i < handles.len()
        invariant
            i <= handles.len(),
            forall|j: int| 0 <= j < i ==> !handle_of_type(t)(#[trigger] handles@[j]),
        decreases handles.len() - i,
    {
        if handles[i].handle_type == t {
            proof {
                lemma_first_match_is(handles@, handle_of_type(t), i as int);
            }
            return Some(i);
        }
        i += 1;
    }
    proof {
        lemma_first_match_none(handles@, handle_of_type(t));
    }
    None
}

/// Find the handle position for a given node and handle type: the side of the
/// handle with the given id, else of the first handle of the type, else the
/// default side for the type.
pub fn find_handle_position(
    node: &FlowNode,
    handle_id: &Option<String>,
    handle_type: HandleType,
) -> (r: HandlePosition)
    ensures
        r == handle_position_spec(node.handles@, opt_chars(*handle_id), handle_type),
{
    if let Some(id) = handle_id {
        if let Some(i) = find_handle_by_id(&node.handles, id) {
            proof {
                lemma_first_match(node.handles@, handle_has_id(id@));
            }
            return node.handles[i].position;
        }
    }
    match find_handle_by_type(&node.handles, handle_type) {
        Some(i) => {
            proof {
                lemma_first_match(node.handles@, handle_of_type(handle_type));
            }
            node.handles[i].position
        },
        None => match handle_type {
            HandleType::Source => HandlePosition::Right,
            HandleType::Target => HandlePosition::Left,
        },
    }
}

/// Where the handle `handle_id` sits on side `side` of the node: its index
/// among the handles on that side and the number of slots on the side. When
/// several handles share a side they are spread evenly, the handle at index
/// `i` of `n` slots sitting at `(i + 1) / (n + 1)` of the side's length.
pub fn handle_slot(node: &FlowNode, handle_id: &Option<String>, side: HandlePosition) -> (r: (
    usize,
    usize,
))
    ensures
        r == handle_slot_spec(node.handles@, opt_chars(*handle_id), side),
{
    let handles = &node.handles;
    let mut seen: usize = 0;
    let mut found: Option<usize> = None;
    let mut i: usize = 0;
    while i < handles.len()
        invariant
            i <= handles.len(),
            seen as int == same_side(handles@.take(i as int), side).len(),
            match *handle_id {
                Some(id) => match found {
                    Some(k) => k as int == first_match(
                        same_side(handles@.take(i as int), side),
                        handle_has_id(id@),
                    ),
                    None => first_match(same_side(handles@.take(i as int), side), handle_has_id(id@))
                        < 0,
                },
                None => found is None,
            },
        decreases handles.len() - i,
    {
        let ghost before = same_side(handles@.take(i as int), side);
        proof {
            assert(handles@.take(i + 1).drop_last() =~= handles@.take(i as int));
            lemma_same_side_len(handles@.take(i as int), side);
        }
        if handles[i].position == side {
            proof {
                let after = before.push(handles@[i as int]);
                assert(after.drop_last() =~= before);
                assert(same_side(handles@.take(i + 1), side) == after);
            }
            if found.is_none() {
                if let Some(id) = handle_id {
                    let matches = match &handles[i].id {
                        Some(h) => *h == *id,
                        None => false,
                    };
                    if matches {
                        found = Some(seen);
                    }
                }
            }
            seen += 1;
        }
        i += 1;
    }
    proof {
        assert(handles@.take(handles@.len() as int) =~= handles@);
        lemma_same_side_len(handles@, side);
    }
    let count = if seen > 1 {
        seen
    } else {
        1
    };
    let index = match found {
        Some(k) => k,
        None => 0,
    };
    proof {
        if let Some(id) = handle_id {
            lemma_first_match(same_side(handles@, side), handle_has_id(id@));
        }
    }
    (index, count)
}

} // verus!
