//! What holds of the engine as a whole: layouts and panes stay consistent, and
//! a stored session comes back as it was.

use crate::engine;
use crate::engine::EngineState;
use crate::ids::Uuid;
use crate::layout;
use crate::layout::{Orientation, Tree};
use crate::layout_laws;
use crate::persistence;
use crate::persistence::{
    PaneRecord, PersistedLayoutNode, PersistedSessionRecord, SessionRecord, WindowRecord,
};
use crate::session;
use crate::session::{PaneState, Session, Window};
use vstd::prelude::*;

verus! {

/// How many leaves of the session's windows name the pane.
pub open spec fn leaves_naming(session: Session, pane_id: Uuid) -> nat {
    layout::occurrences(session.pane_ids(), pane_id)
}

impl EngineState {
    /// Layouts and panes agree: every pane has exactly one leaf in exactly one
    /// session, and every leaf names a pane that is known.
    pub open spec fn consistent(self) -> bool {
        &&& forall|session_id: Uuid, pane_id: Uuid|
            #![trigger leaves_naming(self.sessions[session_id], pane_id)]
            self.sessions.contains_key(session_id) ==> leaves_naming(
                self.sessions[session_id],
                pane_id,
            ) <= 1
        &&& forall|one: Uuid, other: Uuid, pane_id: Uuid|
            #![trigger self.holder(one, pane_id), self.holder(other, pane_id)]
            self.holder(one, pane_id) && self.holder(other, pane_id) ==> one == other
        &&& forall|pane_id: Uuid| #[trigger]
            self.panes.contains_key(pane_id) <==> exists|session_id: Uuid| #[trigger]
                self.holder(session_id, pane_id)
    }
}

proof fn lemma_count_concat(a: Seq<Uuid>, b: Seq<Uuid>, id: Uuid)
    ensures
        layout::occurrences(a + b, id) == layout::occurrences(a, id) + layout::occurrences(b, id),
{
    vstd::seq_lib::lemma_multiset_commutative(a, b);
}

proof fn lemma_count_contains(ids: Seq<Uuid>, id: Uuid)
    ensures
        ids.contains(id) <==> layout::occurrences(ids, id) > 0,
{
    vstd::seq_lib::to_multiset_contains(ids, id);
}

proof fn lemma_count_empty(id: Uuid)
    ensures
        layout::occurrences(Seq::<Uuid>::empty(), id) == 0,
{
    lemma_count_contains(Seq::<Uuid>::empty(), id);
}

proof fn lemma_count_single(a: Uuid, id: Uuid)
    ensures
        layout::occurrences(seq![a], id) == if a == id {
            1nat
        } else {
            0nat
        },
{
    lemma_count_empty(id);
    assert(seq![a] =~= Seq::<Uuid>::empty().push(a));
    vstd::seq_lib::to_multiset_build(Seq::<Uuid>::empty(), a);
}

/// A session holds a pane exactly if its windows' leaves name it.
pub proof fn lemma_holds_what_it_names(session: Session, pane_id: Uuid)
    ensures
        session.holds(pane_id) <==> leaves_naming(session, pane_id) > 0,
{
    lemma_windows_name(session.windows, pane_id);
}

proof fn lemma_windows_name(windows: Seq<Window>, pane_id: Uuid)
    ensures
        (exists|i: int|
            0 <= i < windows.len() && (#[trigger] windows[i]).layout.leaves().contains(pane_id))
            <==> layout::occurrences(session::pane_ids_of(windows), pane_id) > 0,
    decreases windows.len(),
{
    if windows.len() == 0 {
        lemma_count_empty(pane_id);
    } else {
        let rest = windows.drop_last();
        lemma_windows_name(rest, pane_id);
        lemma_count_concat(session::pane_ids_of(rest), windows.last().layout.leaves(), pane_id);
        lemma_count_contains(windows.last().layout.leaves(), pane_id);
        if exists|i: int|
            0 <= i < windows.len() && (#[trigger] windows[i]).layout.leaves().contains(pane_id) {
            let i = choose|i: int|
                0 <= i < windows.len() && (#[trigger] windows[i]).layout.leaves().contains(pane_id);
            if i < rest.len() {
                assert(rest[i].layout.leaves().contains(pane_id));
            }
        }
        if exists|i: int|
            0 <= i < rest.len() && (#[trigger] rest[i]).layout.leaves().contains(pane_id) {
            let i = choose|i: int|
                0 <= i < rest.len() && (#[trigger] rest[i]).layout.leaves().contains(pane_id);
            assert(windows[i].layout.leaves().contains(pane_id));
        }
        if windows.last().layout.leaves().contains(pane_id) {
            assert(windows[windows.len() - 1].layout.leaves().contains(pane_id));
        }
    }
}

proof fn lemma_update_window(windows: Seq<Window>, index: int, window: Window, pane_id: Uuid)
    requires
        0 <= index < windows.len(),
    ensures
        layout::occurrences(session::pane_ids_of(windows.update(index, window)), pane_id)
            + layout::occurrences(windows[index].layout.leaves(), pane_id) == layout::occurrences(
            session::pane_ids_of(windows),
            pane_id,
        ) + layout::occurrences(window.layout.leaves(), pane_id),
    decreases windows.len(),
{
    let after = windows.update(index, window);
    let rest = windows.drop_last();
    lemma_count_concat(session::pane_ids_of(rest), windows.last().layout.leaves(), pane_id);
    lemma_count_concat(
        session::pane_ids_of(after.drop_last()),
        after.last().layout.leaves(),
        pane_id,
    );
    if index < rest.len() {
        lemma_update_window(rest, index, window, pane_id);
        assert(after.drop_last() =~= rest.update(index, window));
    } else {
        assert(after.drop_last() =~= rest);
    }
}

proof fn lemma_remove_window(windows: Seq<Window>, index: int, pane_id: Uuid)
    requires
        0 <= index < windows.len(),
    ensures
        layout::occurrences(session::pane_ids_of(windows.remove(index)), pane_id)
            + layout::occurrences(windows[index].layout.leaves(), pane_id) == layout::occurrences(
            session::pane_ids_of(windows),
            pane_id,
        ),
    decreases windows.len(),
{
    let after = windows.remove(index);
    let rest = windows.drop_last();
    lemma_count_concat(session::pane_ids_of(rest), windows.last().layout.leaves(), pane_id);
    if index < rest.len() {
        lemma_remove_window(rest, index, pane_id);
        assert(after.drop_last() =~= rest.remove(index));
        assert(after.last() == windows.last());
        lemma_count_concat(
            session::pane_ids_of(after.drop_last()),
            after.last().layout.leaves(),
            pane_id,
        );
    } else {
        assert(after =~= rest);
    }
}

proof fn lemma_push_window(windows: Seq<Window>, window: Window, pane_id: Uuid)
    ensures
        layout::occurrences(session::pane_ids_of(windows.push(window)), pane_id)
            == layout::occurrences(session::pane_ids_of(windows), pane_id) + layout::occurrences(
            window.layout.leaves(),
            pane_id,
        ),
{
    assert(windows.push(window).drop_last() =~= windows);
    lemma_count_concat(session::pane_ids_of(windows), window.layout.leaves(), pane_id);
}

/// Removing a pane takes one leaf that names it, and no other.
proof fn lemma_without_takes_one(tree: Tree<Uuid>, pane_id: Uuid, id: Uuid)
    requires
        tree.leaves().contains(pane_id),
    ensures
        match tree.without(pane_id) {
            None => tree.leaves() == seq![pane_id],
            Some(rest) => layout::occurrences(rest.leaves(), id) + if id == pane_id {
                1nat
            } else {
                0nat
            } == layout::occurrences(tree.leaves(), id),
        },
    decreases tree,
{
    match tree {
        Tree::Leaf(leaf) => {
            assert(tree.leaves()[0] == leaf);
        },
        Tree::Split { first, second, .. } => {
            let a = first.leaves();
            let b = second.leaves();
            lemma_count_concat(a, b, id);
            lemma_count_concat(a, b, pane_id);
            lemma_count_contains(a + b, pane_id);
            lemma_count_contains(a, pane_id);
            lemma_count_contains(b, pane_id);
            lemma_count_single(pane_id, id);
            assert(Tree::Leaf(pane_id).leaves() == seq![pane_id]);
            if *first == Tree::Leaf(pane_id) || *second == Tree::Leaf(pane_id) {
            } else if a.contains(pane_id) {
                lemma_without_takes_one(*first, pane_id, id);
                if let Some(rest) = first.without(pane_id) {
                    lemma_count_concat(rest.leaves(), b, id);
                }
            } else {
                lemma_without_takes_one(*second, pane_id, id);
                if let Some(rest) = second.without(pane_id) {
                    lemma_count_concat(a, rest.leaves(), id);
                }
            }
        },
    }
}

proof fn lemma_window_of(session: Session, pane_id: Uuid)
    requires
        session.holds(pane_id),
    ensures
        0 <= session.window_of(pane_id) < session.windows.len(),
        session.windows[session.window_of(pane_id)].layout.leaves().contains(pane_id),
{
    let i = choose|i: int|
        0 <= i < session.windows.len() && (#[trigger] session.windows[i]).layout.leaves().contains(
            pane_id,
        );
    lemma_first_holding(session.windows, pane_id, i);
}

proof fn lemma_first_holding(windows: Seq<Window>, pane_id: Uuid, i: int)
    requires
        0 <= i < windows.len(),
        windows[i].layout.leaves().contains(pane_id),
    ensures
        0 <= session::first_holding(windows, pane_id) < windows.len(),
        windows[session::first_holding(windows, pane_id)].layout.leaves().contains(pane_id),
    decreases windows.len(),
{
    if !windows[0].layout.leaves().contains(pane_id) {
        assert(windows.drop_first()[i - 1] == windows[i]);
        lemma_first_holding(windows.drop_first(), pane_id, i - 1);
    }
}

/// How many leaves of this session name the pane; none if there is no such
/// session.
spec fn naming_in(state: EngineState, session_id: Uuid, pane_id: Uuid) -> nat {
    if state.sessions.contains_key(session_id) {
        leaves_naming(state.sessions[session_id], pane_id)
    } else {
        0
    }
}

/// Whether a session other than this one holds the pane.
spec fn held_elsewhere(state: EngineState, session_id: Uuid, pane_id: Uuid) -> bool {
    exists|other: Uuid| other != session_id && #[trigger] state.holder(other, pane_id)
}

/// Whether the two states have the same sessions but for this one.
spec fn same_elsewhere(before: EngineState, after: EngineState, session_id: Uuid) -> bool {
    forall|other: Uuid|
        #![trigger before.sessions.contains_key(other)]
        #![trigger after.sessions.contains_key(other)]
        other != session_id ==> (before.sessions.contains_key(other)
            <==> after.sessions.contains_key(other)) && (before.sessions.contains_key(other)
            ==> before.sessions[other] == after.sessions[other])
}

/// A change to one session and to the panes keeps the state consistent if the
/// session then names each of its panes once, names none of another session's,
/// and the panes follow.
proof fn lemma_one_session_changed(before: EngineState, after: EngineState, session_id: Uuid)
    requires
        before.consistent(),
        same_elsewhere(before, after, session_id),
        forall|pane_id: Uuid| #[trigger]
            naming_in(after, session_id, pane_id) <= 1 && (naming_in(after, session_id, pane_id) > 0
                ==> !held_elsewhere(before, session_id, pane_id)),
        forall|pane_id: Uuid| #[trigger]
            after.panes.contains_key(pane_id) <==> naming_in(after, session_id, pane_id) > 0
                || held_elsewhere(before, session_id, pane_id),
    ensures
        after.consistent(),
{
    assert forall|other: Uuid, pane_id: Uuid| #[trigger]
        after.holder(other, pane_id) <==> (if other == session_id {
            naming_in(after, session_id, pane_id) > 0
        } else {
            before.holder(other, pane_id)
        }) by {
        if other == session_id && after.sessions.contains_key(other) {
            lemma_holds_what_it_names(after.sessions[other], pane_id);
        }
    }
    assert forall|id: Uuid, pane_id: Uuid|
        #![trigger leaves_naming(after.sessions[id], pane_id)]
        after.sessions.contains_key(id) implies leaves_naming(after.sessions[id], pane_id) <= 1 by {
        if id == session_id {
            assert(naming_in(after, session_id, pane_id) <= 1);
        } else {
            assert(before.sessions[id] == after.sessions[id]);
            assert(leaves_naming(before.sessions[id], pane_id) <= 1);
        }
    }
    assert forall|one: Uuid, other: Uuid, pane_id: Uuid|
        #![trigger after.holder(one, pane_id), after.holder(other, pane_id)]
        after.holder(one, pane_id) && after.holder(other, pane_id) implies one == other by {
        assert(naming_in(after, session_id, pane_id) > 0 ==> !held_elsewhere(
            before,
            session_id,
            pane_id,
        ));
        if one != session_id {
            assert(before.holder(one, pane_id));
        }
        if other != session_id {
            assert(before.holder(other, pane_id));
        }
    }
    assert forall|pane_id: Uuid| #[trigger]
        after.panes.contains_key(pane_id) <==> exists|id: Uuid| #[trigger]
            after.holder(id, pane_id) by {
        if naming_in(after, session_id, pane_id) > 0 {
            assert(after.holder(session_id, pane_id));
        }
        if held_elsewhere(before, session_id, pane_id) {
            let other = choose|other: Uuid|
                other != session_id && #[trigger] before.holder(other, pane_id);
            assert(after.holder(other, pane_id));
        }
        if exists|id: Uuid| #[trigger] after.holder(id, pane_id) {
            let id = choose|id: Uuid| #[trigger] after.holder(id, pane_id);
            if id != session_id {
                assert(before.holder(id, pane_id));
            }
        }
    }
}

/// What consistency says of one pane.
proof fn lemma_consistent_pane(state: EngineState, session_id: Uuid, pane_id: Uuid)
    requires
        state.consistent(),
    ensures
        naming_in(state, session_id, pane_id) <= 1,
        naming_in(state, session_id, pane_id) > 0 <==> state.holder(session_id, pane_id),
        state.panes.contains_key(pane_id) <==> naming_in(state, session_id, pane_id) > 0
            || held_elsewhere(state, session_id, pane_id),
        naming_in(state, session_id, pane_id) > 0 ==> !held_elsewhere(state, session_id, pane_id),
{
    if state.sessions.contains_key(session_id) {
        lemma_holds_what_it_names(state.sessions[session_id], pane_id);
        assert(leaves_naming(state.sessions[session_id], pane_id) <= 1);
    }
    if held_elsewhere(state, session_id, pane_id) {
        let other = choose|other: Uuid| other != session_id && #[trigger] state.holder(other, pane_id);
        assert(state.holder(other, pane_id));
        assert(state.panes.contains_key(pane_id));
    }
    if state.holder(session_id, pane_id) {
        assert(state.panes.contains_key(pane_id));
    }
    if state.panes.contains_key(pane_id) {
        let id = choose|id: Uuid| #[trigger] state.holder(id, pane_id);
        assert(state.holder(id, pane_id));
    }
}

/// An engine starts out consistent.
pub proof fn lemma_initial_is_consistent()
    ensures
        EngineState::initial().consistent(),
{
}

/// In a consistent state only one session holds a pane, so that what an
/// operation on the pane does is settled.
pub proof fn lemma_one_holder(state: EngineState, one: Uuid, other: Uuid, pane_id: Uuid)
    requires
        state.consistent(),
        state.holder(one, pane_id),
        state.holder(other, pane_id),
    ensures
        one == other,
{
}

/// Opening a session on a new pane keeps the state consistent.
pub proof fn lemma_new_session_keeps_consistent(
    state: EngineState,
    id: Uuid,
    name: Seq<char>,
    window_id: Uuid,
    pane_id: Uuid,
    pane: PaneState,
)
    requires
        state.consistent(),
        !state.sessions.contains_key(id),
        !state.panes.contains_key(pane_id),
    ensures
        state.with_session(id, name, window_id, pane_id, pane).consistent(),
{
    let after = state.with_session(id, name, window_id, pane_id, pane);
    let windows = after.sessions[id].windows;
    assert(windows.drop_last() =~= seq![]);
    assert(session::pane_ids_of(windows.drop_last()) =~= seq![]);
    assert(session::pane_ids_of(windows) =~= seq![pane_id]);
    assert forall|p: Uuid| {
        &&& #[trigger] naming_in(after, id, p) == if p == pane_id {
            1nat
        } else {
            0nat
        }
        &&& after.panes.contains_key(p) <==> p == pane_id || held_elsewhere(state, id, p)
    } by {
        lemma_count_single(pane_id, p);
        lemma_consistent_pane(state, id, p);
    }
    lemma_consistent_pane(state, id, pane_id);
    assert forall|p: Uuid| #[trigger]
        after.panes.contains_key(p) <==> naming_in(after, id, p) > 0 || held_elsewhere(
            state,
            id,
            p,
        ) by {
        assert(naming_in(after, id, p) >= 0);
    }
    lemma_one_session_changed(state, after, id);
}

/// Opening a window on a new pane keeps the state consistent.
pub proof fn lemma_new_window_keeps_consistent(
    state: EngineState,
    session_id: Uuid,
    window_id: Uuid,
    pane_id: Uuid,
    pane: PaneState,
)
    requires
        state.consistent(),
        state.sessions.contains_key(session_id),
        !state.panes.contains_key(pane_id),
    ensures
        state.with_window(session_id, window_id, pane_id, pane).consistent(),
{
    let after = state.with_window(session_id, window_id, pane_id, pane);
    let windows = state.sessions[session_id].windows;
    let window = after.sessions[session_id].windows.last();
    assert forall|p: Uuid| #[trigger]
        naming_in(after, session_id, p) == naming_in(state, session_id, p) + if p == pane_id {
            1nat
        } else {
            0nat
        } by {
        lemma_push_window(windows, window, p);
        lemma_count_single(pane_id, p);
        assert(window.layout.leaves() == seq![pane_id]);
    }
    lemma_consistent_pane(state, session_id, pane_id);
    assert forall|p: Uuid| #[trigger]
        after.panes.contains_key(p) <==> naming_in(after, session_id, p) > 0 || (
        state.panes.contains_key(p) && naming_in(state, session_id, p) == 0) by {
        lemma_consistent_pane(state, session_id, p);
        assert(naming_in(after, session_id, p) >= 0);
    }
    assert forall|p: Uuid| #[trigger] naming_in(after, session_id, p) <= 1 by {
        lemma_consistent_pane(state, session_id, p);
    }
    lemma_changed_counts(state, after, session_id);
}

/// As before, where what is known of each pane follows the count of its leaves.
proof fn lemma_changed_counts(before: EngineState, after: EngineState, session_id: Uuid)
    requires
        before.consistent(),
        same_elsewhere(before, after, session_id),
        forall|p: Uuid| #[trigger] naming_in(after, session_id, p) <= 1,
        forall|p: Uuid|
            #![trigger naming_in(after, session_id, p)]
            naming_in(after, session_id, p) > 0 ==> naming_in(before, session_id, p) > 0
                || !before.panes.contains_key(p),
        forall|p: Uuid| #[trigger]
            after.panes.contains_key(p) <==> naming_in(after, session_id, p) > 0 || (
            before.panes.contains_key(p) && naming_in(before, session_id, p) == 0),
    ensures
        after.consistent(),
{
    assert forall|p: Uuid| #[trigger]
        naming_in(after, session_id, p) <= 1 && (naming_in(after, session_id, p) > 0
            ==> !held_elsewhere(before, session_id, p)) by {
        lemma_consistent_pane(before, session_id, p);
    }
    assert forall|p: Uuid| #[trigger]
        after.panes.contains_key(p) <==> naming_in(after, session_id, p) > 0 || held_elsewhere(
            before,
            session_id,
            p,
        ) by {
        lemma_consistent_pane(before, session_id, p);
        assert(naming_in(after, session_id, p) <= 1);
    }
    lemma_one_session_changed(before, after, session_id);
}

/// Splitting a pane with a new one keeps the state consistent.
pub proof fn lemma_split_keeps_consistent(
    state: EngineState,
    session_id: Uuid,
    pane_id: Uuid,
    orientation: Orientation,
    new_pane_id: Uuid,
    new_pane: PaneState,
)
    requires
        state.consistent(),
        state.holder(session_id, pane_id),
        !state.panes.contains_key(new_pane_id),
    ensures
        state.with_split(session_id, pane_id, orientation, new_pane_id, new_pane).consistent(),
{
    let after = state.with_split(session_id, pane_id, orientation, new_pane_id, new_pane);
    let session = state.sessions[session_id];
    let index = session.window_of(pane_id);
    lemma_window_of(session, pane_id);
    let window = session.windows[index];
    let split = after.sessions[session_id].windows[index];
    assert(split.layout == window.layout.nested(pane_id, orientation, new_pane_id));
    lemma_one_leaf_in_window(state, session_id, pane_id);
    layout_laws::lemma_split_adds_one_leaf(window.layout, pane_id, orientation, new_pane_id);
    assert forall|p: Uuid| #[trigger]
        naming_in(after, session_id, p) == naming_in(state, session_id, p) + if p == new_pane_id {
            1nat
        } else {
            0nat
        } by {
        lemma_update_window(session.windows, index, split, p);
    }
    lemma_consistent_pane(state, session_id, new_pane_id);
    assert forall|p: Uuid| #[trigger]
        after.panes.contains_key(p) <==> naming_in(after, session_id, p) > 0 || (
        state.panes.contains_key(p) && naming_in(state, session_id, p) == 0) by {
        lemma_consistent_pane(state, session_id, p);
        assert(naming_in(after, session_id, p) >= 0);
    }
    assert forall|p: Uuid| #[trigger] naming_in(after, session_id, p) <= 1 by {
        lemma_consistent_pane(state, session_id, p);
    }
    lemma_changed_counts(state, after, session_id);
}

/// In a consistent state the window that holds a pane has one leaf for it.
pub proof fn lemma_one_leaf_in_window(state: EngineState, session_id: Uuid, pane_id: Uuid)
    requires
        state.consistent(),
        state.holder(session_id, pane_id),
    ensures
        layout::occurrences(state.window_holding(session_id, pane_id).layout.leaves(), pane_id)
            == 1,
{
    let session = state.sessions[session_id];
    lemma_window_of(session, pane_id);
    let index = session.window_of(pane_id);
    lemma_count_contains(session.windows[index].layout.leaves(), pane_id);
    lemma_remove_window(session.windows, index, pane_id);
    lemma_consistent_pane(state, session_id, pane_id);
}

/// Closing a pane keeps the state consistent.
pub proof fn lemma_close_keeps_consistent(state: EngineState, session_id: Uuid, pane_id: Uuid)
    requires
        state.consistent(),
        state.holder(session_id, pane_id),
    ensures
        state.without_pane(session_id, pane_id).consistent(),
{
    let after = state.without_pane(session_id, pane_id);
    let session = state.sessions[session_id];
    let now = state.session_without_pane(session_id, pane_id);
    let index = session.window_of(pane_id);
    lemma_window_of(session, pane_id);
    let window = session.windows[index];
    assert forall|p: Uuid| #[trigger]
        naming_in(after, session_id, p) + if p == pane_id {
            1nat
        } else {
            0nat
        } == naming_in(state, session_id, p) by {
        lemma_without_takes_one(window.layout, pane_id, p);
        match window.layout.without(pane_id) {
            Some(rest) => {
                lemma_update_window(session.windows, index, Window { layout: rest, ..window }, p);
            },
            None => {
                lemma_remove_window(session.windows, index, p);
                lemma_count_single(pane_id, p);
            },
        }
        if now.windows.len() == 0 {
            assert(now.windows =~= seq![]);
            lemma_count_empty(p);
        }
    }
    assert forall|p: Uuid| #[trigger]
        after.panes.contains_key(p) <==> naming_in(after, session_id, p) > 0 || (
        state.panes.contains_key(p) && naming_in(state, session_id, p) == 0) by {
        lemma_consistent_pane(state, session_id, p);
        assert(naming_in(after, session_id, p) >= 0);
    }
    assert forall|p: Uuid| #[trigger] naming_in(after, session_id, p) <= 1 by {
        lemma_consistent_pane(state, session_id, p);
    }
    assert forall|p: Uuid| #[trigger] naming_in(after, session_id, p) > 0 implies naming_in(
        state,
        session_id,
        p,
    ) > 0 by {}
    lemma_changed_counts(state, after, session_id);
}

/// Killing a session keeps the state consistent.
pub proof fn lemma_kill_keeps_consistent(state: EngineState, session_id: Uuid)
    requires
        state.consistent(),
        state.sessions.contains_key(session_id),
    ensures
        state.without_session(session_id).consistent(),
{
    let after = state.without_session(session_id);
    let ids = state.sessions[session_id].pane_ids();
    assert forall|p: Uuid| #[trigger]
        after.panes.contains_key(p) <==> naming_in(after, session_id, p) > 0 || (
        state.panes.contains_key(p) && naming_in(state, session_id, p) == 0) by {
        lemma_count_contains(ids, p);
        assert(ids.to_set().contains(p) <==> ids.contains(p)) by {
            broadcast use vstd::seq_lib::group_seq_properties;

        }
    }
    lemma_changed_counts(state, after, session_id);
}

/// What is known of panes may change as long as none is added or dropped.
pub proof fn lemma_same_layouts_keep_consistent(before: EngineState, after: EngineState)
    requires
        before.consistent(),
        after.sessions == before.sessions,
        after.panes.dom() == before.panes.dom(),
    ensures
        after.consistent(),
{
    assert forall|id: Uuid, pane_id: Uuid| #[trigger]
        after.holder(id, pane_id) == before.holder(id, pane_id) by {}
    assert forall|pane_id: Uuid| #[trigger]
        after.panes.contains_key(pane_id) <==> exists|id: Uuid| #[trigger]
            after.holder(id, pane_id) by {
        assert(before.panes.contains_key(pane_id) <==> after.panes.dom().contains(pane_id));
        if before.panes.contains_key(pane_id) {
            let id = choose|id: Uuid| #[trigger] before.holder(id, pane_id);
            assert(after.holder(id, pane_id));
        }
        if exists|id: Uuid| #[trigger] after.holder(id, pane_id) {
            let id = choose|id: Uuid| #[trigger] after.holder(id, pane_id);
            assert(before.holder(id, pane_id));
        }
    }
}

/// Noting a viewport, a client's departure, a pane's size or exit, or a revived
/// pane keeps the state consistent.
pub proof fn lemma_notes_keep_consistent(
    state: EngineState,
    window_id: Uuid,
    client_id: u64,
    pane_id: Uuid,
    rows: u16,
    cols: u16,
    pane: PaneState,
)
    requires
        state.consistent(),
    ensures
        state.with_viewport(window_id, client_id, rows, cols).consistent(),
        state.without_viewport(window_id, client_id).consistent(),
        state.with_pane_size(pane_id, rows, cols).consistent(),
        state.with_pane_exited(pane_id).consistent(),
        state.panes.contains_key(pane_id) ==> (EngineState {
            panes: state.panes.insert(pane_id, pane),
            ..state
        }).consistent(),
{
    lemma_same_layouts_keep_consistent(
        state,
        state.with_viewport(window_id, client_id, rows, cols),
    );
    lemma_same_layouts_keep_consistent(state, state.without_viewport(window_id, client_id));
    let resized = state.with_pane_size(pane_id, rows, cols);
    assert(resized.panes.dom() =~= state.panes.dom());
    lemma_same_layouts_keep_consistent(state, resized);
    let exited = state.with_pane_exited(pane_id);
    assert(exited.panes.dom() =~= state.panes.dom());
    lemma_same_layouts_keep_consistent(state, exited);
    if state.panes.contains_key(pane_id) {
        let revived = EngineState { panes: state.panes.insert(pane_id, pane), ..state };
        assert(revived.panes.dom() =~= state.panes.dom());
        lemma_same_layouts_keep_consistent(state, revived);
    }
}

/// Giving a window another size keeps the state consistent.
pub proof fn lemma_resize_keeps_consistent(
    state: EngineState,
    session_id: Uuid,
    index: int,
    window_id: Uuid,
    rows: u16,
    cols: u16,
)
    requires
        state.consistent(),
        state.window_at(session_id, index, window_id),
    ensures
        state.with_window_size(session_id, index, rows, cols).consistent(),
{
    let after = state.with_window_size(session_id, index, rows, cols);
    let windows = state.sessions[session_id].windows;
    let window = after.sessions[session_id].windows[index];
    assert forall|p: Uuid| #[trigger]
        naming_in(after, session_id, p) == naming_in(state, session_id, p) by {
        lemma_update_window(windows, index, window, p);
    }
    assert forall|p: Uuid| #[trigger]
        after.panes.contains_key(p) <==> naming_in(after, session_id, p) > 0 || (
        state.panes.contains_key(p) && naming_in(state, session_id, p) == 0) by {
        lemma_consistent_pane(state, session_id, p);
        assert(naming_in(after, session_id, p) >= 0);
    }
    assert forall|p: Uuid| #[trigger] naming_in(after, session_id, p) <= 1 by {
        lemma_consistent_pane(state, session_id, p);
    }
    lemma_changed_counts(state, after, session_id);
}

/// Killing a session leaves every other session as it is, with its panes.
pub proof fn lemma_kill_spares_others(
    state: EngineState,
    session_id: Uuid,
    other: Uuid,
    pane_id: Uuid,
)
    requires
        state.consistent(),
        state.sessions.contains_key(session_id),
        other != session_id,
        state.holder(other, pane_id),
    ensures
        state.without_session(session_id).sessions[other] == state.sessions[other],
        state.without_session(session_id).panes.contains_key(pane_id),
        state.without_session(session_id).panes[pane_id] == state.panes[pane_id],
{
    let ids = state.sessions[session_id].pane_ids();
    lemma_consistent_pane(state, session_id, pane_id);
    lemma_count_contains(ids, pane_id);
    assert(ids.to_set().contains(pane_id) <==> ids.contains(pane_id)) by {
        broadcast use vstd::seq_lib::group_seq_properties;

    }
}

/// Closing a pane leaves every other pane as it is.
pub proof fn lemma_close_spares_others(
    state: EngineState,
    session_id: Uuid,
    pane_id: Uuid,
    other: Uuid,
    other_pane: Uuid,
)
    requires
        state.consistent(),
        state.holder(session_id, pane_id),
        state.holder(other, other_pane),
        other_pane != pane_id,
    ensures
        ({
            let after = state.without_pane(session_id, pane_id);
            &&& after.holder(other, other_pane)
            &&& after.panes.contains_key(other_pane)
            &&& after.panes[other_pane] == state.panes[other_pane]
        }),
{
    let after = state.without_pane(session_id, pane_id);
    lemma_close_keeps_consistent(state, session_id, pane_id);
    assert(state.panes.contains_key(other_pane));
    let id = choose|id: Uuid| #[trigger] after.holder(id, other_pane);
    assert(after.panes.contains_key(other_pane));
    if other != session_id {
        assert(after.sessions[other] == state.sessions[other]);
    } else {
        if id != session_id {
            assert(state.holder(id, other_pane));
        }
    }
}

/// Storing a layout and restoring it gives the layout back.
pub proof fn lemma_layout_survives_storing(tree: Tree<Uuid>, panes: Map<Uuid, PaneState>)
    requires
        persistence::filed(panes),
    ensures
        persistence::restored(persistence::recorded(tree, panes)) == tree,
    decreases tree,
{
    if let Tree::Split { first, second, .. } = tree {
        lemma_layout_survives_storing(*first, panes);
        lemma_layout_survives_storing(*second, panes);
    }
}

/// Storing a session and loading it again gives the session back: the same
/// windows in the same order, with the same layouts and the same active one.
/// Only the windows' sizes start over.
pub proof fn lemma_session_survives_storing(state: EngineState, session_id: Uuid)
    requires
        state.sessions.contains_key(session_id),
        persistence::filed(state.panes),
    ensures
        ({
            let session = state.sessions[session_id];
            let back = engine::restored_session(persistence::session_record(session, state.panes));
            &&& back.id == session.id
            &&& back.name == session.name
            &&& back.active_window_id == session.active_window_id
            &&& back.windows.len() == session.windows.len()
            &&& forall|i: int|
                0 <= i < session.windows.len() ==> #[trigger] back.windows[i] == (Window {
                    rows: engine::DEFAULT_ROWS,
                    cols: engine::DEFAULT_COLS,
                    ..session.windows[i]
                })
        }),
{
    let session = state.sessions[session_id];
    let back = engine::restored_session(persistence::session_record(session, state.panes));
    assert forall|i: int| 0 <= i < session.windows.len() implies #[trigger] back.windows[i] == (
    Window {
        rows: engine::DEFAULT_ROWS,
        cols: engine::DEFAULT_COLS,
        ..session.windows[i]
    }) by {
        lemma_layout_survives_storing(session.windows[i].layout, state.panes);
    }
}

proof fn lemma_recorded_leaves(tree: Tree<Uuid>, panes: Map<Uuid, PaneState>)
    ensures
        persistence::recorded(tree, panes).leaves() == tree.leaves().map_values(
            |id: Uuid| persistence::record_of(id, panes),
        ),
    decreases tree,
{
    let record = |id: Uuid| persistence::record_of(id, panes);
    match tree {
        Tree::Leaf(leaf) => {
            assert(seq![record(leaf)] =~= seq![leaf].map_values(record));
        },
        Tree::Split { first, second, .. } => {
            lemma_recorded_leaves(*first, panes);
            lemma_recorded_leaves(*second, panes);
            assert((first.leaves() + second.leaves()).map_values(record) =~= first.leaves().map_values(
                record,
            ) + second.leaves().map_values(record));
        },
    }
}

proof fn lemma_recorded_panes(windows: Seq<Window>, panes: Map<Uuid, PaneState>)
    ensures
        engine::recorded_panes(
            windows.map_values(|w: Window| persistence::window_record(w, panes)),
        ) == session::pane_ids_of(windows).map_values(
            |id: Uuid| persistence::record_of(id, panes),
        ),
    decreases windows.len(),
{
    let record = |id: Uuid| persistence::record_of(id, panes);
    let stored = windows.map_values(|w: Window| persistence::window_record(w, panes));
    if windows.len() == 0 {
        assert(engine::recorded_panes(stored) =~= session::pane_ids_of(windows).map_values(record));
    } else {
        lemma_recorded_panes(windows.drop_last(), panes);
        lemma_recorded_leaves(windows.last().layout, panes);
        assert(stored.drop_last() =~= windows.drop_last().map_values(
            |w: Window| persistence::window_record(w, panes),
        ));
        assert(session::pane_ids_of(windows).map_values(record) =~= session::pane_ids_of(
            windows.drop_last(),
        ).map_values(record) + windows.last().layout.leaves().map_values(record));
    }
}

proof fn lemma_with_dead_entry(
    table: Map<Uuid, PaneState>,
    ids: Seq<Uuid>,
    panes: Map<Uuid, PaneState>,
    pane_id: Uuid,
)
    requires
        ids.contains(pane_id),
        persistence::filed(panes),
    ensures
        ({
            let after = persistence::with_dead(
                table,
                ids.map_values(|id: Uuid| persistence::record_of(id, panes)),
            );
            after.contains_key(pane_id) && after[pane_id] == PaneState::Dead(
                persistence::record_of(pane_id, panes),
            )
        }),
    decreases ids.len(),
{
    let record = |id: Uuid| persistence::record_of(id, panes);
    let records = ids.map_values(record);
    assert(records.drop_last() =~= ids.drop_last().map_values(record));
    if ids.last() != pane_id {
        let i = choose|i: int| 0 <= i < ids.len() && ids[i] == pane_id;
        assert(ids.drop_last()[i] == pane_id);
        lemma_with_dead_entry(table, ids.drop_last(), panes, pane_id);
    }
}

/// Each pane of a stored session comes back dead, with what is needed to start
/// it again: what it ran, where, and at what size. A pane that was dead when the
/// session was stored comes back exactly as it was.
pub proof fn lemma_panes_survive_storing(
    state: EngineState,
    session_id: Uuid,
    into: EngineState,
    pane_id: Uuid,
)
    requires
        state.holder(session_id, pane_id),
        persistence::filed(state.panes),
    ensures
        ({
            let record = persistence::session_record(state.sessions[session_id], state.panes);
            let after = into.with_loaded(seq![record]);
            &&& after.panes.contains_key(pane_id)
            &&& after.panes[pane_id] == PaneState::Dead(
                persistence::record_of(pane_id, state.panes),
            )
            &&& state.panes.contains_key(pane_id) && state.panes[pane_id] is Dead
                ==> after.panes[pane_id] == state.panes[pane_id]
        }),
{
    let session = state.sessions[session_id];
    let record = persistence::session_record(session, state.panes);
    let records = seq![record];
    assert(records.drop_last() =~= seq![]);
    assert(into.with_loaded(records.drop_last()) == into);
    lemma_holds_what_it_names(session, pane_id);
    lemma_count_contains(session.pane_ids(), pane_id);
    lemma_recorded_panes(session.windows, state.panes);
    lemma_with_dead_entry(into.panes, session.pane_ids(), state.panes, pane_id);
}

/// Whether the table has each of these records for its pane.
spec fn has_dead(table: Map<Uuid, PaneState>, records: Seq<PaneRecord>) -> bool {
    forall|i: int|
        0 <= i < records.len() ==> table.contains_key((#[trigger] records[i]).pane_id)
            && table[records[i].pane_id] == PaneState::Dead(records[i])
}

proof fn lemma_with_dead_has_all(table: Map<Uuid, PaneState>, records: Seq<PaneRecord>)
    requires
        distinct(records),
    ensures
        has_dead(persistence::with_dead(table, records), records),
    decreases records.len(),
{
    if records.len() > 0 {
        let rest = records.drop_last();
        lemma_with_dead_has_all(table, rest);
        assert forall|i: int| 0 <= i < records.len() implies persistence::with_dead(
            table,
            records,
        ).contains_key((#[trigger] records[i]).pane_id) && persistence::with_dead(
            table,
            records,
        )[records[i].pane_id] == PaneState::Dead(records[i]) by {
            if i < rest.len() {
                assert(rest[i] == records[i]);
                assert(records[i].pane_id != records[records.len() - 1].pane_id);
            }
        }
    }
}

proof fn lemma_recording_what_is_there(tree: Tree<PaneRecord>, table: Map<Uuid, PaneState>)
    requires
        has_dead(table, tree.leaves()),
    ensures
        persistence::recorded(persistence::restored(tree), table) == tree,
    decreases tree,
{
    match tree {
        Tree::Leaf(record) => {
            assert(tree.leaves()[0] == record);
        },
        Tree::Split { first, second, .. } => {
            let all = tree.leaves();
            let left = first.leaves();
            let right = second.leaves();
            assert forall|i: int| 0 <= i < left.len() implies table.contains_key(
                (#[trigger] left[i]).pane_id,
            ) && table[left[i].pane_id] == PaneState::Dead(left[i]) by {
                assert(all[i] == left[i]);
            }
            assert forall|i: int| 0 <= i < right.len() implies table.contains_key(
                (#[trigger] right[i]).pane_id,
            ) && table[right[i].pane_id] == PaneState::Dead(right[i]) by {
                assert(all[left.len() + i] == right[i]);
            }
            lemma_recording_what_is_there(*first, table);
            lemma_recording_what_is_there(*second, table);
        },
    }
}

/// Whether no two of the records are of the same pane.
pub open spec fn distinct(records: Seq<PaneRecord>) -> bool {
    forall|i: int, j: int|
        0 <= i < j < records.len() ==> (#[trigger] records[i]).pane_id != (
        #[trigger] records[j]).pane_id
}

/// Loading a stored layout and storing it again gives the same layout, with the
/// same record at every leaf, whatever panes were known before.
pub proof fn lemma_stored_layout_survives_loading(
    node: PersistedLayoutNode,
    panes: Map<Uuid, PaneState>,
)
    requires
        node.wf(),
        distinct(node.tree().leaves()),
    ensures
        persistence::recorded(
            persistence::restored(node.tree()),
            persistence::with_dead(panes, node.tree().leaves()),
        ) == node.tree(),
{
    lemma_with_dead_has_all(panes, node.tree().leaves());
    lemma_recording_what_is_there(
        node.tree(),
        persistence::with_dead(panes, node.tree().leaves()),
    );
}

proof fn lemma_window_in_records(windows: Seq<WindowRecord>, w: int, i: int) -> (at: int)
    requires
        0 <= w < windows.len(),
        0 <= i < windows[w].layout.leaves().len(),
    ensures
        0 <= at < engine::recorded_panes(windows).len(),
        engine::recorded_panes(windows)[at] == windows[w].layout.leaves()[i],
    decreases windows.len(),
{
    let before = engine::recorded_panes(windows.drop_last());
    if w == windows.len() - 1 {
        before.len() + i
    } else {
        lemma_window_in_records(windows.drop_last(), w, i)
    }
}

/// Loading a stored session and storing it again, with none of its panes revived,
/// gives the same record: everything that a revival needs is still there.
pub proof fn lemma_stored_session_survives_loading(state: EngineState, record: SessionRecord)
    requires
        record.schema_version == persistence::CURRENT_SCHEMA_VERSION,
        distinct(engine::recorded_panes(record.windows)),
    ensures
        ({
            let after = state.with_loaded(seq![record]);
            &&& after.sessions.contains_key(record.session_id)
            &&& persistence::session_record(after.sessions[record.session_id], after.panes)
                == record
        }),
{
    let records = seq![record];
    assert(records.drop_last() =~= seq![]);
    assert(state.with_loaded(records.drop_last()) == state);
    let after = state.with_loaded(records);
    let all = engine::recorded_panes(record.windows);
    lemma_with_dead_has_all(state.panes, all);
    let again = persistence::session_record(after.sessions[record.session_id], after.panes);
    assert forall|w: int| 0 <= w < record.windows.len() implies #[trigger] again.windows[w]
        == record.windows[w] by {
        let leaves = record.windows[w].layout.leaves();
        assert forall|i: int| 0 <= i < leaves.len() implies after.panes.contains_key(
            (#[trigger] leaves[i]).pane_id,
        ) && after.panes[leaves[i].pane_id] == PaneState::Dead(leaves[i]) by {
            let at = lemma_window_in_records(record.windows, w, i);
            assert(all[at] == leaves[i]);
        }
        lemma_recording_what_is_there(record.windows[w].layout, after.panes);
    }
    assert(again.windows =~= record.windows);
}

proof fn lemma_recorded_balanced(tree: Tree<Uuid>, panes: Map<Uuid, PaneState>)
    ensures
        persistence::recorded(tree, panes).balanced() == tree.balanced(),
    decreases tree,
{
    if let Tree::Split { first, second, .. } = tree {
        lemma_recorded_balanced(*first, panes);
        lemma_recorded_balanced(*second, panes);
    }
}

/// What is stored of a session whose ratios add up passes validation.
pub proof fn lemma_stored_session_is_valid(
    record: PersistedSessionRecord,
    session: Session,
    panes: Map<Uuid, PaneState>,
)
    requires
        record.wf(),
        record@ == persistence::session_record(session, panes),
        forall|i: int|
            0 <= i < session.windows.len() ==> (#[trigger] session.windows[i]).layout.balanced(),
    ensures
        record.refusal() is None,
{
    let stored = record.windows@;
    assert(record@.windows.len() == stored.len());
    assert(record@.windows.len() == session.windows.len());
    assert forall|i: int| 0 <= i < stored.len() implies (#[trigger] stored[i]).layout.fault()
        is None by {
        assert(record@.windows[i] == stored[i]@);
        assert(record@.windows[i] == persistence::window_record(session.windows[i], panes));
        assert(session.windows[i].layout.balanced());
        lemma_recorded_balanced(session.windows[i].layout, panes);
        stored[i].layout.lemma_faultless();
    }
    lemma_no_fault(stored);
}

proof fn lemma_no_fault(windows: Seq<persistence::PersistedWindowRecord>)
    requires
        forall|i: int| 0 <= i < windows.len() ==> (#[trigger] windows[i]).layout.fault() is None,
    ensures
        persistence::windows_fault(windows) is None,
    decreases windows.len(),
{
    if windows.len() > 0 {
        let rest = windows.drop_first();
        assert forall|i: int| 0 <= i < rest.len() implies (#[trigger] rest[i]).layout.fault()
            is None by {
            assert(rest[i] == windows[i + 1]);
        }
        lemma_no_fault(rest);
    }
}

proof fn lemma_restored_leaves(tree: Tree<PaneRecord>)
    ensures
        persistence::restored(tree).leaves() == tree.leaves().map_values(
            |record: PaneRecord| record.pane_id,
        ),
    decreases tree,
{
    let name = |record: PaneRecord| record.pane_id;
    match tree {
        Tree::Leaf(leaf) => {
            assert(seq![leaf.pane_id] =~= seq![leaf].map_values(name));
        },
        Tree::Split { first, second, .. } => {
            lemma_restored_leaves(*first);
            lemma_restored_leaves(*second);
            assert((first.leaves() + second.leaves()).map_values(name) =~= first.leaves().map_values(
                name,
            ) + second.leaves().map_values(name));
        },
    }
}

proof fn lemma_restored_panes(windows: Seq<WindowRecord>)
    ensures
        session::pane_ids_of(windows.map_values(|w: WindowRecord| engine::restored_window(w)))
            == engine::recorded_panes(windows).map_values(|record: PaneRecord| record.pane_id),
    decreases windows.len(),
{
    let name = |record: PaneRecord| record.pane_id;
    let back = windows.map_values(|w: WindowRecord| engine::restored_window(w));
    if windows.len() == 0 {
        assert(session::pane_ids_of(back) =~= engine::recorded_panes(windows).map_values(name));
    } else {
        lemma_restored_panes(windows.drop_last());
        lemma_restored_leaves(windows.last().layout);
        assert(back.drop_last() =~= windows.drop_last().map_values(
            |w: WindowRecord| engine::restored_window(w),
        ));
        assert(engine::recorded_panes(windows).map_values(name) =~= engine::recorded_panes(
            windows.drop_last(),
        ).map_values(name) + windows.last().layout.leaves().map_values(name));
    }
}

proof fn lemma_with_dead_domain(table: Map<Uuid, PaneState>, records: Seq<PaneRecord>, id: Uuid)
    ensures
        persistence::with_dead(table, records).contains_key(id) <==> table.contains_key(id)
            || records.map_values(|record: PaneRecord| record.pane_id).contains(id),
    decreases records.len(),
{
    let name = |record: PaneRecord| record.pane_id;
    let ids = records.map_values(name);
    if records.len() > 0 {
        lemma_with_dead_domain(table, records.drop_last(), id);
        let rest = records.drop_last().map_values(name);
        assert(ids.drop_last() =~= rest);
        assert(ids =~= rest.push(records.last().pane_id));
        vstd::seq_lib::lemma_seq_contains_after_push(rest, records.last().pane_id, id);
        if rest.contains(id) {
            let i = choose|i: int| 0 <= i < rest.len() && rest[i] == id;
            assert(ids[i] == id);
        }
        if records.last().pane_id == id {
            assert(ids[ids.len() - 1] == id);
        }
        if ids.contains(id) && id != records.last().pane_id {
            let i = choose|i: int| 0 <= i < ids.len() && ids[i] == id;
            assert(rest[i] == id);
        }
    }
}

/// Loading a stored session keeps the state consistent if neither the session
/// nor any of its panes is known yet, and its leaves name each pane once.
pub proof fn lemma_load_keeps_consistent(state: EngineState, record: SessionRecord)
    requires
        state.consistent(),
        !state.sessions.contains_key(record.session_id),
        engine::restored_session(record).pane_ids().no_duplicates(),
        forall|pane_id: Uuid|
            engine::restored_session(record).pane_ids().contains(pane_id)
                ==> !#[trigger] state.panes.contains_key(pane_id),
    ensures
        state.with_loaded(seq![record]).consistent(),
{
    let records = seq![record];
    let after = state.with_loaded(records);
    assert(records.drop_last() =~= seq![]);
    assert(state.with_loaded(records.drop_last()) == state);
    let session_id = record.session_id;
    let ids = engine::restored_session(record).pane_ids();
    lemma_restored_panes(record.windows);
    ids.lemma_multiset_has_no_duplicates();
    assert forall|p: Uuid| #[trigger]
        naming_in(after, session_id, p) <= 1 && (naming_in(after, session_id, p) > 0
            <==> ids.contains(p)) by {
        lemma_count_contains(ids, p);
    }
    assert forall|p: Uuid| #[trigger] naming_in(after, session_id, p) > 0 implies naming_in(
        state,
        session_id,
        p,
    ) > 0 || !state.panes.contains_key(p) by {
        assert(ids.contains(p));
    }
    assert forall|p: Uuid| #[trigger]
        after.panes.contains_key(p) <==> naming_in(after, session_id, p) > 0 || (
        state.panes.contains_key(p) && naming_in(state, session_id, p) == 0) by {
        lemma_with_dead_domain(state.panes, engine::recorded_panes(record.windows), p);
        assert(naming_in(after, session_id, p) <= 1);
    }
    lemma_changed_counts(state, after, session_id);
}

/// Whether every split of every window gives its children proper shares that
/// add up to one.
pub open spec fn proportioned(session: Session) -> bool {
    forall|i: int|
        0 <= i < session.windows.len() ==> (#[trigger] session.windows[i]).layout.proper()
            && session.windows[i].layout.balanced()
}

impl EngineState {
    /// Whether that holds of every session.
    pub open spec fn proportioned(self) -> bool {
        forall|session_id: Uuid| #[trigger]
            self.sessions.contains_key(session_id) ==> proportioned(self.sessions[session_id])
    }
}

/// Every operation keeps the ratios of every split proper and adding up to one.
pub proof fn lemma_operations_keep_proportions(
    state: EngineState,
    session_id: Uuid,
    name: Seq<char>,
    window_id: Uuid,
    index: int,
    pane_id: Uuid,
    orientation: Orientation,
    new_pane_id: Uuid,
    pane: PaneState,
    rows: u16,
    cols: u16,
)
    requires
        state.proportioned(),
    ensures
        state.with_session(session_id, name, window_id, pane_id, pane).proportioned(),
        state.sessions.contains_key(session_id) ==> state.with_window(
            session_id,
            window_id,
            pane_id,
            pane,
        ).proportioned(),
        state.holder(session_id, pane_id) ==> state.with_split(
            session_id,
            pane_id,
            orientation,
            new_pane_id,
            pane,
        ).proportioned(),
        state.holder(session_id, pane_id) ==> state.without_pane(
            session_id,
            pane_id,
        ).proportioned(),
        state.without_session(session_id).proportioned(),
        state.window_at(session_id, index, window_id) ==> state.with_window_size(
            session_id,
            index,
            rows,
            cols,
        ).proportioned(),
{
    if state.sessions.contains_key(session_id) {
        assert(proportioned(state.sessions[session_id]));
    }
    if state.holder(session_id, pane_id) {
        let session = state.sessions[session_id];
        lemma_window_of(session, pane_id);
        let at = session.window_of(pane_id);
        let window = session.windows[at];
        layout_laws::lemma_split_keeps_ratios(window.layout, pane_id, orientation, new_pane_id);
        layout_laws::lemma_remove_keeps_ratios(window.layout, pane_id);
        let split = state.with_split(session_id, pane_id, orientation, new_pane_id, pane);
        assert(proportioned(split.sessions[session_id]));
        let now = state.session_without_pane(session_id, pane_id);
        assert forall|i: int| 0 <= i < now.windows.len() implies (
        #[trigger] now.windows[i]).layout.proper() && now.windows[i].layout.balanced() by {
            if window.layout.without(pane_id) is None {
                assert(now.windows[i] == session.windows[if i < at {
                    i
                } else {
                    i + 1
                }]);
            } else if i != at {
                assert(now.windows[i] == session.windows[i]);
            }
        }
        assert(proportioned(now));
    }
}

/// Where layouts and panes agree and ratios are proper, every pane can be split
/// or the split refused, and every window resized: nothing is out of range.
pub proof fn lemma_sound_state_allows_everything(
    state: EngineState,
    pane_id: Uuid,
    orientation: Orientation,
    window_id: Uuid,
)
    requires
        state.consistent(),
        state.proportioned(),
    ensures
        state.can_try_split(pane_id, orientation),
        state.can_resize(window_id),
{
    assert forall|session_id: Uuid| #[trigger]
        state.holder(session_id, pane_id) implies state.can_try_split_in(
        session_id,
        pane_id,
        orientation,
    ) by {
        lemma_window_of(state.sessions[session_id], pane_id);
        assert(proportioned(state.sessions[session_id]));
        let window = state.window_holding(session_id, pane_id);
        layout_laws::lemma_proper_layout_fits(
            window.layout,
            window.rows as int,
            window.cols as int,
        );
        lemma_one_leaf_in_window(state, session_id, pane_id);
        let ids = window.layout.leaves();
        assert forall|i: int, j: int|
            0 <= i < ids.len() && 0 <= j < ids.len() && #[trigger] ids[i] == pane_id
                && #[trigger] ids[j] == pane_id implies i == j by {
            if i != j {
                layout::lemma_two_places(ids, i, j);
            }
        }
    }
    assert forall|session_id: Uuid, index: int, rows: u16, cols: u16|
        #![trigger state.window_at(session_id, index, window_id), state.effective_size(window_id, rows, cols)]
        state.window_at(session_id, index, window_id) && state.effective_size(
            window_id,
            rows,
            cols,
        ) implies state.sessions[session_id].windows[index].layout.fits(
        rows as int,
        cols as int,
    ) by {
        assert(proportioned(state.sessions[session_id]));
        layout_laws::lemma_proper_layout_fits(
            state.sessions[session_id].windows[index].layout,
            rows as int,
            cols as int,
        );
    }
}

} // verus!
