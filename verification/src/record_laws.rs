//! What a stored session says of the session, and what comes of it again.

use crate::engine;
use crate::engine::{EngineState, RespawnRequest};
use crate::ids::Uuid;
use crate::layout::Tree;
use crate::layout_laws::at;
use crate::operation_laws::{clients_stay, other_sessions_stay};
use crate::persistence;
use crate::persistence::{
    PaneRecord, PersistedLayoutNode, PersistedSessionRecord, PersistedWindowRecord, RecordError,
    SessionRecord, StructureError, WindowRecord,
};
use crate::ratio;
use crate::session::{PaneState, Session};
use vstd::prelude::*;

verus! {

/// Two trees have the same shape at a place: both a leaf, or both a split of
/// the same orientation with the same ratios, or neither has that place.
pub open spec fn alike_at<L, M>(a: Tree<L>, b: Tree<M>, path: Seq<bool>) -> bool {
    match (at(a, path), at(b, path)) {
        (None, None) => true,
        (Some(Tree::Leaf(_)), Some(Tree::Leaf(_))) => true,
        (
            Some(Tree::Split { orientation, first_ratio, second_ratio, .. }),
            Some(
                Tree::Split {
                    orientation: other_orientation,
                    first_ratio: other_first,
                    second_ratio: other_second,
                    ..
                },
            ),
        ) => orientation == other_orientation && first_ratio == other_first && second_ratio
            == other_second,
        _ => false,
    }
}

/// A tree over other leaves has the same shape everywhere, and at each leaf
/// what stands for the leaf.
pub proof fn lemma_other_leaves_same_shape<L, M>(
    tree: Tree<L>,
    f: spec_fn(L) -> M,
    path: Seq<bool>,
)
    ensures
        alike_at(tree, tree.map_leaves(f), path),
        at(tree, path) matches Some(Tree::Leaf(leaf)) ==> at(tree.map_leaves(f), path) == Some(
            Tree::Leaf(f(leaf)),
        ),
    decreases path.len(),
{
    if path.len() > 0 {
        if let Tree::Split { first, second, .. } = tree {
            lemma_other_leaves_same_shape(
                if path[0] {
                    *second
                } else {
                    *first
                },
                f,
                path.drop_first(),
            );
        }
    }
}

/// A session's record has the session's identifier, name and active window,
/// and its windows in order, each with its identifier and its name.
pub proof fn lemma_record_names_the_session(session: Session, panes: Map<Uuid, PaneState>)
    ensures
        ({
            let record = persistence::session_record(session, panes);
            &&& record.schema_version == 1
            &&& record.session_id == session.id
            &&& record.name == session.name
            &&& record.active_window_id == session.active_window_id
            &&& record.windows.len() == session.windows.len()
            &&& forall|i: int|
                0 <= i < session.windows.len() ==> {
                    &&& record.windows[i].id == (#[trigger] session.windows[i]).id
                    &&& record.windows[i].name == session.windows[i].name
                }
        }),
{
}

/// The record of each window has the shape of the window's layout, and where
/// the layout names a pane with a process, or one whose process has exited, it
/// says what the pane runs, where, and at what size.
pub proof fn lemma_record_describes_the_panes(
    session: Session,
    panes: Map<Uuid, PaneState>,
    window: int,
    path: Seq<bool>,
)
    requires
        0 <= window < session.windows.len(),
    ensures
        ({
            let layout = session.windows[window].layout;
            let stored = persistence::session_record(session, panes).windows[window].layout;
            &&& alike_at(layout, stored, path)
            &&& at(layout, path) matches Some(Tree::Leaf(id)) ==> (at(stored, path) matches Some(
                Tree::Leaf(record),
            ) && {
                &&& panes.contains_key(id) && (panes[id] matches PaneState::Dead(known)
                    && record == known) || record.pane_id == id
                &&& panes.contains_key(id) ==> match panes[id] {
                    PaneState::Live { command, cwd, rows, cols, .. } => {
                        &&& record.pane_id == id
                        &&& record.command == command
                        &&& record.cwd == cwd
                        &&& record.rows == rows
                        &&& record.cols == cols
                    },
                    PaneState::Dead(known) => record == known,
                }
                &&& !panes.contains_key(id) ==> record.command.len() == 0 && record.cwd.len() == 0
                    && record.rows == 0 && record.cols == 0
            })
        }),
{
    lemma_other_leaves_same_shape(
        session.windows[window].layout,
        |id: Uuid| persistence::record_of(id, panes),
        path,
    );
}

/// A session that comes back from its record has the identifier, the name and
/// the active window that the record says, and the recorded windows in order.
/// Each has the recorded shape, names the recorded panes and is of 24 rows and
/// 80 columns, for no client is attached to it.
pub proof fn lemma_session_comes_back_as_recorded(
    record: SessionRecord,
    window: int,
    path: Seq<bool>,
)
    requires
        0 <= window < record.windows.len(),
    ensures
        ({
            let session = engine::restored_session(record);
            let stored = record.windows[window];
            let now = session.windows[window];
            &&& session.id == record.session_id
            &&& session.name == record.name
            &&& session.active_window_id == record.active_window_id
            &&& session.windows.len() == record.windows.len()
            &&& now.id == stored.id
            &&& now.name == stored.name
            &&& now.rows == 24
            &&& now.cols == 80
            &&& alike_at(stored.layout, now.layout, path)
            &&& at(stored.layout, path) matches Some(Tree::Leaf(pane)) ==> at(now.layout, path)
                == Some(Tree::Leaf(pane.pane_id))
        }),
{
    lemma_other_leaves_same_shape(
        record.windows[window].layout,
        |pane: PaneRecord| pane.pane_id,
        path,
    );
}

/// Entering records makes each of their panes a dead one with a record of its
/// own, and leaves every other pane as it is.
pub proof fn lemma_recorded_panes_are_dead(
    panes: Map<Uuid, PaneState>,
    records: Seq<PaneRecord>,
    pane_id: Uuid,
)
    ensures
        ({
            let after = persistence::with_dead(panes, records);
            let recorded = exists|i: int|
                0 <= i < records.len() && (#[trigger] records[i]).pane_id == pane_id;
            &&& recorded ==> after.contains_key(pane_id) && (after[pane_id] matches PaneState::Dead(
                record,
            ) && record.pane_id == pane_id && records.contains(record))
            &&& !recorded ==> after.contains_key(pane_id) == panes.contains_key(pane_id) && (
            panes.contains_key(pane_id) ==> after[pane_id] == panes[pane_id])
        }),
    decreases records.len(),
{
    if records.len() > 0 {
        let rest = records.drop_last();
        lemma_recorded_panes_are_dead(panes, rest, pane_id);
        let after = persistence::with_dead(panes, records);
        if records.last().pane_id == pane_id {
            assert(records[records.len() - 1].pane_id == pane_id);
            assert(records.contains(records.last()));
        } else {
            if exists|i: int| 0 <= i < records.len() && (#[trigger] records[i]).pane_id == pane_id {
                let i = choose|i: int|
                    0 <= i < records.len() && (#[trigger] records[i]).pane_id == pane_id;
                assert(rest[i].pane_id == pane_id);
                let record = after[pane_id]->Dead_0;
                let j = choose|j: int| 0 <= j < rest.len() && rest[j] == record;
                assert(records[j] == record);
            }
            if exists|i: int| 0 <= i < rest.len() && (#[trigger] rest[i]).pane_id == pane_id {
                let i = choose|i: int|
                    0 <= i < rest.len() && (#[trigger] rest[i]).pane_id == pane_id;
                assert(records[i].pane_id == pane_id);
            }
        }
    }
}

/// The panes of a row of stored windows are the leaves of their layouts.
pub proof fn lemma_recorded_panes_are_the_leaves(windows: Seq<WindowRecord>, pane: PaneRecord)
    ensures
        engine::recorded_panes(windows).contains(pane) <==> exists|w: int|
            0 <= w < windows.len() && (#[trigger] windows[w]).layout.leaves().contains(pane),
    decreases windows.len(),
{
    if windows.len() > 0 {
        let rest = windows.drop_last();
        let front = engine::recorded_panes(rest);
        let back = windows.last().layout.leaves();
        let all = front + back;
        lemma_recorded_panes_are_the_leaves(rest, pane);
        if all.contains(pane) {
            let i = choose|i: int| 0 <= i < all.len() && all[i] == pane;
            if i < front.len() {
                assert(front[i] == pane);
                let w = choose|w: int|
                    0 <= w < rest.len() && (#[trigger] rest[w]).layout.leaves().contains(pane);
                assert(windows[w] == rest[w]);
            } else {
                assert(back[i - front.len()] == pane);
                assert(windows[windows.len() - 1].layout.leaves().contains(pane));
            }
        }
        if exists|w: int|
            0 <= w < windows.len() && (#[trigger] windows[w]).layout.leaves().contains(pane) {
            let w = choose|w: int|
                0 <= w < windows.len() && (#[trigger] windows[w]).layout.leaves().contains(pane);
            if w < rest.len() {
                assert(rest[w].layout.leaves().contains(pane));
                let i = choose|i: int| 0 <= i < front.len() && front[i] == pane;
                assert(all[i] == pane);
            } else {
                let i = choose|i: int| 0 <= i < back.len() && back[i] == pane;
                assert(all[front.len() + i] == pane);
            }
        }
    }
}

/// Loading one record enters its session and makes its panes dead ones.
/// Every other session and every pane that the record does not name stays.
pub proof fn lemma_loading_one_record(state: EngineState, record: SessionRecord, pane_id: Uuid)
    ensures
        ({
            let after = state.with_loaded(seq![record]);
            let named = exists|w: int, i: int|
                #![trigger record.windows[w].layout.leaves()[i]]
                0 <= w < record.windows.len() && 0 <= i < record.windows[w].layout.leaves().len()
                    && record.windows[w].layout.leaves()[i].pane_id == pane_id;
            &&& after.sessions.contains_key(record.session_id)
            &&& after.sessions[record.session_id] == engine::restored_session(record)
            &&& other_sessions_stay(state, after, record.session_id)
            &&& named ==> after.panes.contains_key(pane_id) && (after.panes[pane_id]
                matches PaneState::Dead(pane) && pane.pane_id == pane_id)
            &&& !named ==> after.panes.contains_key(pane_id) == state.panes.contains_key(pane_id)
                && (state.panes.contains_key(pane_id) ==> after.panes[pane_id]
                == state.panes[pane_id])
            &&& clients_stay(state, after)
        }),
{
    let records = engine::recorded_panes(record.windows);
    let one = seq![record];
    assert(one.drop_last() =~= seq![]);
    assert(state.with_loaded(one.drop_last()) == state);
    lemma_recorded_panes_are_dead(state.panes, records, pane_id);
    if exists|i: int| 0 <= i < records.len() && (#[trigger] records[i]).pane_id == pane_id {
        let i = choose|i: int| 0 <= i < records.len() && (#[trigger] records[i]).pane_id == pane_id;
        assert(records.contains(records[i]));
        lemma_recorded_panes_are_the_leaves(record.windows, records[i]);
        let w = choose|w: int|
            0 <= w < record.windows.len()
                && (#[trigger] record.windows[w]).layout.leaves().contains(records[i]);
        let leaves = record.windows[w].layout.leaves();
        let j = choose|j: int| 0 <= j < leaves.len() && leaves[j] == records[i];
        assert(record.windows[w].layout.leaves()[j].pane_id == pane_id);
    }
    if exists|w: int, i: int|
        #![trigger record.windows[w].layout.leaves()[i]]
        0 <= w < record.windows.len() && 0 <= i < record.windows[w].layout.leaves().len()
            && record.windows[w].layout.leaves()[i].pane_id == pane_id {
        let (w, i) = choose|w: int, i: int|
            #![trigger record.windows[w].layout.leaves()[i]]
            0 <= w < record.windows.len() && 0 <= i < record.windows[w].layout.leaves().len()
                && record.windows[w].layout.leaves()[i].pane_id == pane_id;
        let pane = record.windows[w].layout.leaves()[i];
        assert(record.windows[w].layout.leaves().contains(pane));
        lemma_recorded_panes_are_the_leaves(record.windows, pane);
        let j = choose|j: int| 0 <= j < records.len() && records[j] == pane;
        assert(records[j].pane_id == pane_id);
    }
}

/// Loading records in two goes is loading them in one.
pub proof fn lemma_loading_in_two_goes(
    state: EngineState,
    front: Seq<SessionRecord>,
    back: Seq<SessionRecord>,
)
    ensures
        state.with_loaded(front + back) == state.with_loaded(front).with_loaded(back),
    decreases back.len(),
{
    if back.len() == 0 {
        assert(front + back =~= front);
    } else {
        assert((front + back).drop_last() =~= front + back.drop_last());
        lemma_loading_in_two_goes(state, front, back.drop_last());
    }
}

/// A pane that was stored while it had a process, exited or not, and is loaded
/// and then revived runs the same command in the same directory, at the size
/// that it had, or with two rows or ten columns where it had fewer.
pub proof fn lemma_pane_starts_as_it_was_stored(
    panes: Map<Uuid, PaneState>,
    later: Map<Uuid, PaneState>,
    pane_id: Uuid,
    request: RespawnRequest,
)
    requires
        panes.contains_key(pane_id),
        panes[pane_id] is Live,
        request.follows(
            pane_id,
            persistence::with_dead(
                later,
                seq![persistence::record_of(pane_id, panes)],
            )[pane_id]->Dead_0,
        ),
    ensures
        request.pane_id == pane_id,
        request.command@ == panes[pane_id]->command,
        request.cwd@ == panes[pane_id]->cwd,
        request.rows >= 2,
        request.cols >= 10,
        panes[pane_id]->rows >= 2 ==> request.rows == panes[pane_id]->rows,
        panes[pane_id]->rows < 2 ==> request.rows == 2,
        panes[pane_id]->cols >= 10 ==> request.cols == panes[pane_id]->cols,
        panes[pane_id]->cols < 10 ==> request.cols == 10,
{
    let records = seq![persistence::record_of(pane_id, panes)];
    lemma_recorded_panes_are_dead(later, records, pane_id);
    assert(records[0].pane_id == pane_id);
}

/// The next pane to be started is dead, none that stands between it and the
/// place where the search starts is, and if there is none the search is over.
pub proof fn lemma_next_dead_is_the_first(
    panes: Map<Uuid, PaneState>,
    pane_ids: Seq<Uuid>,
    from: int,
)
    requires
        0 <= from <= pane_ids.len(),
    ensures
        ({
            let found = engine::next_dead(panes, pane_ids, from);
            &&& from <= found <= pane_ids.len()
            &&& found < pane_ids.len() ==> panes.contains_key(pane_ids[found])
                && panes[pane_ids[found]] is Dead
            &&& forall|i: int|
                from <= i < found ==> !(panes.contains_key(#[trigger] pane_ids[i])
                    && panes[pane_ids[i]] is Dead)
        }),
    decreases pane_ids.len() - from,
{
    if from < pane_ids.len() && !(panes.contains_key(pane_ids[from])
        && panes[pane_ids[from]] is Dead) {
        lemma_next_dead_is_the_first(panes, pane_ids, from + 1);
    }
}

/// What stands at a place of a stored layout, where each step of the way says
/// which child to go to.
pub open spec fn part(node: PersistedLayoutNode, path: Seq<int>) -> Option<PersistedLayoutNode>
    decreases path.len(),
{
    if path.len() == 0 {
        Some(node)
    } else {
        match node {
            PersistedLayoutNode::Leaf { .. } => None,
            PersistedLayoutNode::Split { children, .. } => if 0 <= path[0] < children@.len() {
                part(children@[path[0]].0, path.drop_first())
            } else {
                None
            },
        }
    }
}

/// What is wrong with a split by itself, whatever its children are.
pub open spec fn broken(node: PersistedLayoutNode) -> Option<StructureError> {
    match node {
        PersistedLayoutNode::Leaf { .. } => None,
        PersistedLayoutNode::Split { children, .. } => if children@.len() == 2 {
            if ratio::complementary(children@[0].1, children@[1].1) {
                None
            } else {
                Some(StructureError::RatioSum { first: children@[0].1, second: children@[1].1 })
            }
        } else {
            Some(StructureError::ChildCount { count: children@.len() as usize })
        },
    }
}

/// Whether nothing is wrong with any split of a stored layout.
pub open spec fn sound(node: PersistedLayoutNode) -> bool {
    forall|path: Seq<int>|
        sound_part(#[trigger] part(node, path))
}

/// Whether nothing is wrong with what stands at a place by itself, if anything
/// stands there.
pub open spec fn sound_part(found: Option<PersistedLayoutNode>) -> bool {
    found matches Some(node) ==> broken(node) is None
}

/// A stored layout is accepted exactly if nothing is wrong with any of its
/// splits.
pub proof fn lemma_accepted_if_every_split_is_sound(node: PersistedLayoutNode)
    ensures
        node.fault() is None <==> sound(node),
    decreases node,
{
    if let PersistedLayoutNode::Split { children, .. } = node {
        let root = Seq::<int>::empty();
        assert(part(node, root) == Some(node));
        if children@.len() == 2 {
            lemma_accepted_if_every_split_is_sound(children@[0].0);
            lemma_accepted_if_every_split_is_sound(children@[1].0);
            assert forall|c: int, path: Seq<int>| 0 <= c < 2 implies part(
                children@[c].0,
                path,
            ) == #[trigger] part(node, seq![c] + path) by {
                assert((seq![c] + path).drop_first() =~= path);
                assert((seq![c] + path)[0] == c);
            }
            if sound(node) {
                assert forall|path: Seq<int>|
                    sound_part(#[trigger] part(children@[0].0, path)) by {
                    assert(part(children@[0].0, path) == part(node, seq![0int] + path));
                }
                assert forall|path: Seq<int>|
                    sound_part(#[trigger] part(children@[1].0, path)) by {
                    assert(part(children@[1].0, path) == part(node, seq![1int] + path));
                }
            }
            if node.fault() is None {
                assert forall|path: Seq<int>|
                    sound_part(#[trigger] part(node, path)) by {
                    if path.len() > 0 && 0 <= path[0] < 2 {
                        assert(part(children@[path[0]].0, path.drop_first()) == part(node, path));
                    }
                }
            }
        }
    } else {
        assert forall|path: Seq<int>| sound_part(#[trigger] part(node, path)) by {}
    }
}

/// What is reported of a stored layout is wrong with a split of it, and that
/// split comes first: nothing is wrong with a split above it, nor anywhere in
/// the first child of one whose second child it stands in. The result is where
/// it stands.
pub proof fn lemma_the_first_fault_is_reported(node: PersistedLayoutNode) -> (path: Seq<int>)
    requires
        node.fault() is Some,
    ensures
        part(node, path) matches Some(found) && broken(found) == node.fault(),
        forall|k: int|
            0 <= k < path.len() ==> ((#[trigger] part(node, path.take(k))) matches Some(above)
                && broken(above) is None),
        forall|k: int|
            0 <= k < path.len() && path[k] != 0 ==> path[k] == 1 && ((#[trigger] part(
                node,
                path.take(k).push(0),
            )) matches Some(before) && sound(before)),
    decreases node,
{
    let root = Seq::<int>::empty();
    assert(part(node, root) == Some(node));
    match node {
        PersistedLayoutNode::Leaf { .. } => root,
        PersistedLayoutNode::Split { children, .. } => {
            if broken(node) is Some {
                root
            } else {
                let c: int = if children@[0].0.fault() is Some {
                    0
                } else {
                    1
                };
                let rest = lemma_the_first_fault_is_reported(children@[c].0);
                let path = seq![c] + rest;
                assert(path.drop_first() =~= rest);
                assert(part(node, path) == part(children@[c].0, rest));
                assert forall|k: int| 0 <= k < path.len() implies ((#[trigger] part(
                    node,
                    path.take(k),
                )) matches Some(above) && broken(above) is None) by {
                    if k == 0 {
                        assert(path.take(0) =~= root);
                    } else {
                        assert(path.take(k).drop_first() =~= rest.take(k - 1));
                        assert(part(node, path.take(k)) == part(
                            children@[c].0,
                            rest.take(k - 1),
                        ));
                    }
                }
                assert forall|k: int| 0 <= k < path.len() && path[k] != 0 implies path[k] == 1 && ((
                #[trigger] part(node, path.take(k).push(0))) matches Some(before) && sound(
                    before,
                )) by {
                    let before = path.take(k).push(0);
                    if k == 0 {
                        assert(before.drop_first() =~= root);
                        assert(part(children@[0].0, root) == Some(children@[0].0));
                        lemma_accepted_if_every_split_is_sound(children@[0].0);
                    } else {
                        assert(path[k] == rest[k - 1]);
                        assert(before.drop_first() =~= rest.take(k - 1).push(0));
                        assert(part(node, before) == part(
                            children@[c].0,
                            rest.take(k - 1).push(0),
                        ));
                    }
                }
                path
            }
        },
    }
}

/// A record is accepted exactly if it is of version 1 and nothing is wrong with
/// any split of any window. One of another version is refused for that, whatever
/// its windows are.
pub proof fn lemma_what_records_are_accepted(record: PersistedSessionRecord)
    ensures
        record.refusal() is None <==> record.schema_version == 1 && forall|w: int|
            0 <= w < record.windows@.len() ==> sound((#[trigger] record.windows@[w]).layout),
        record.schema_version != 1 ==> record.refusal() == Some(
            RecordError::UnknownVersion { found: record.schema_version },
        ),
{
    lemma_windows_fault(record.windows@);
}

/// Of the windows of a record that is refused for their shape, the first one
/// that has a fault is reported. The result is its place.
pub proof fn lemma_the_first_faulty_window_is_reported(record: PersistedSessionRecord) -> (w: int)
    requires
        record.schema_version == 1,
        record.refusal() is Some,
    ensures
        0 <= w < record.windows@.len(),
        record.windows@[w].layout.fault() matches Some(fault) && record.refusal() == Some(
            RecordError::Structure(fault),
        ),
        forall|v: int| 0 <= v < w ==> sound((#[trigger] record.windows@[v]).layout),
{
    lemma_first_faulty(record.windows@)
}

proof fn lemma_windows_fault(windows: Seq<PersistedWindowRecord>)
    ensures
        persistence::windows_fault(windows) is None <==> forall|w: int|
            0 <= w < windows.len() ==> sound((#[trigger] windows[w]).layout),
    decreases windows.len(),
{
    if windows.len() > 0 {
        let rest = windows.drop_first();
        lemma_accepted_if_every_split_is_sound(windows[0].layout);
        lemma_windows_fault(rest);
        if windows[0].layout.fault() is None {
            if persistence::windows_fault(rest) is None {
                assert forall|w: int| 0 <= w < windows.len() implies sound(
                    (#[trigger] windows[w]).layout,
                ) by {
                    if w > 0 {
                        assert(windows[w] == rest[w - 1]);
                    }
                }
            } else {
                let v = choose|v: int| 0 <= v < rest.len() && !sound((#[trigger] rest[v]).layout);
                assert(windows[v + 1] == rest[v]);
            }
        }
    }
}

proof fn lemma_first_faulty(windows: Seq<PersistedWindowRecord>) -> (w: int)
    requires
        persistence::windows_fault(windows) is Some,
    ensures
        0 <= w < windows.len(),
        windows[w].layout.fault() == persistence::windows_fault(windows),
        forall|v: int| 0 <= v < w ==> sound((#[trigger] windows[v]).layout),
    decreases windows.len(),
{
    if windows[0].layout.fault() is Some {
        0
    } else {
        let rest = windows.drop_first();
        let w = lemma_first_faulty(rest);
        lemma_accepted_if_every_split_is_sound(windows[0].layout);
        assert forall|v: int| 0 <= v < w + 1 implies sound((#[trigger] windows[v]).layout) by {
            if v > 0 {
                assert(windows[v] == rest[v - 1]);
            }
        }
        w + 1
    }
}

} // verus!
