//! What each operation of the engine does to the windows, the panes and the
//! clients, and what it leaves alone.

use crate::engine;
use crate::engine::{
    ClosePaneOutcome, EngineState, RevivalState, ReviveOutcome, SplitOutcome, WindowOutcome, WindowResize,
};
use crate::ids::Uuid;
use crate::layout;
use crate::layout::{Orientation, Rect, Tree};
use crate::session;
use crate::session::{PaneState, Session, Window};
use crate::snapshot::is_running;
use crate::text;
use vstd::prelude::*;

verus! {

/// Whether every session but this one is as it was, there or not.
pub open spec fn other_sessions_stay(
    before: EngineState,
    after: EngineState,
    session_id: Uuid,
) -> bool {
    forall|id: Uuid|
        id != session_id ==> {
            &&& #[trigger] after.sessions.contains_key(id) == before.sessions.contains_key(id)
            &&& before.sessions.contains_key(id) ==> after.sessions[id] == before.sessions[id]
        }
}

/// Whether every pane but this one is as it was, there or not.
pub open spec fn other_panes_stay(before: EngineState, after: EngineState, pane_id: Uuid) -> bool {
    forall|id: Uuid|
        id != pane_id ==> {
            &&& #[trigger] after.panes.contains_key(id) == before.panes.contains_key(id)
            &&& before.panes.contains_key(id) ==> after.panes[id] == before.panes[id]
        }
}

/// Whether the clients are as they were.
pub open spec fn clients_stay(before: EngineState, after: EngineState) -> bool {
    after.viewports == before.viewports && after.next_client_id == before.next_client_id
}

/// A new session has one window, named 0, of 24 rows and 80 columns, with one
/// pane that fills it. That window is the active one. Nothing else changes.
pub proof fn lemma_new_session_has_one_window(
    state: EngineState,
    id: Uuid,
    name: Seq<char>,
    window_id: Uuid,
    pane_id: Uuid,
    pane: PaneState,
)
    ensures
        ({
            let after = state.with_session(id, name, window_id, pane_id, pane);
            let session = after.sessions[id];
            &&& after.sessions.contains_key(id)
            &&& session.id == id
            &&& session.name == name
            &&& session.windows.len() == 1
            &&& session.windows[0].id == window_id
            &&& session.windows[0].name == seq!['0']
            &&& session.windows[0].layout == Tree::Leaf(pane_id)
            &&& session.windows[0].rows == 24
            &&& session.windows[0].cols == 80
            &&& session.active_window_id == window_id
            &&& after.panes.contains_key(pane_id)
            &&& after.panes[pane_id] == pane
            &&& other_sessions_stay(state, after, id)
            &&& other_panes_stay(state, after, pane_id)
            &&& clients_stay(state, after)
        }),
{
    reveal_with_fuel(text::decimal, 2);
}

/// A new window stands behind the windows that are there, which stay as they
/// are. Its name is the number of windows before it, in decimal. It has 24 rows
/// and 80 columns and one pane, and it is the active one.
pub proof fn lemma_new_window_comes_last(
    state: EngineState,
    session_id: Uuid,
    window_id: Uuid,
    pane_id: Uuid,
    pane: PaneState,
)
    requires
        state.sessions.contains_key(session_id),
    ensures
        ({
            let after = state.with_window(session_id, window_id, pane_id, pane);
            let was = state.sessions[session_id];
            let now = after.sessions[session_id];
            let count = was.windows.len();
            &&& after.sessions.contains_key(session_id)
            &&& now.id == was.id
            &&& now.name == was.name
            &&& now.windows.len() == count + 1
            &&& forall|i: int| 0 <= i < count ==> now.windows[i] == #[trigger] was.windows[i]
            &&& now.windows[count as int].id == window_id
            &&& text::place_value(now.windows[count as int].name) == count
            &&& now.windows[count as int].name[0] == '0' ==> count == 0
            &&& now.windows[count as int].layout == Tree::Leaf(pane_id)
            &&& now.windows[count as int].rows == 24
            &&& now.windows[count as int].cols == 80
            &&& now.active_window_id == window_id
            &&& after.panes.contains_key(pane_id)
            &&& after.panes[pane_id] == pane
            &&& other_sessions_stay(state, after, session_id)
            &&& other_panes_stay(state, after, pane_id)
            &&& clients_stay(state, after)
        }),
{
    text::lemma_decimal_stands_for_the_number(state.sessions[session_id].windows.len());
}

/// The window that is taken to hold a pane names it, and no window before it
/// does.
pub proof fn lemma_pane_is_in_the_first_window_that_names_it(session: Session, pane_id: Uuid)
    requires
        session.holds(pane_id),
    ensures
        0 <= session.window_of(pane_id) < session.windows.len(),
        session.windows[session.window_of(pane_id)].layout.leaves().contains(pane_id),
        forall|i: int|
            0 <= i < session.window_of(pane_id)
                ==> !(#[trigger] session.windows[i]).layout.leaves().contains(pane_id),
{
    let i = choose|i: int|
        0 <= i < session.windows.len() && (#[trigger] session.windows[i]).layout.leaves().contains(
            pane_id,
        );
    lemma_first_of(session.windows, pane_id, i);
}

proof fn lemma_first_of(windows: Seq<Window>, pane_id: Uuid, i: int)
    requires
        0 <= i < windows.len(),
        windows[i].layout.leaves().contains(pane_id),
    ensures
        0 <= session::first_holding(windows, pane_id) < windows.len(),
        windows[session::first_holding(windows, pane_id)].layout.leaves().contains(pane_id),
        forall|j: int|
            0 <= j < session::first_holding(windows, pane_id)
                ==> !(#[trigger] windows[j]).layout.leaves().contains(pane_id),
    decreases windows.len(),
{
    if !windows[0].layout.leaves().contains(pane_id) {
        let rest = windows.drop_first();
        assert(rest[i - 1] == windows[i]);
        lemma_first_of(rest, pane_id, i - 1);
        assert forall|j: int|
            0 <= j < session::first_holding(
                windows,
                pane_id,
            ) implies !(#[trigger] windows[j]).layout.leaves().contains(pane_id) by {
            if j > 0 {
                assert(rest[j - 1] == windows[j]);
            }
        }
    }
}

/// A split changes the layout of one window and nothing else of the session:
/// not the other windows, nor any name, identifier or size, nor which window is
/// active. The new pane is known afterwards, and no other pane is touched.
pub proof fn lemma_split_changes_one_layout(
    state: EngineState,
    session_id: Uuid,
    pane_id: Uuid,
    orientation: Orientation,
    new_pane_id: Uuid,
    new_pane: PaneState,
)
    requires
        state.holder(session_id, pane_id),
    ensures
        ({
            let after = state.with_split(session_id, pane_id, orientation, new_pane_id, new_pane);
            let was = state.sessions[session_id];
            let now = after.sessions[session_id];
            &&& after.sessions.contains_key(session_id)
            &&& now.id == was.id
            &&& now.name == was.name
            &&& now.active_window_id == was.active_window_id
            &&& now.windows.len() == was.windows.len()
            &&& forall|i: int|
                0 <= i < was.windows.len() ==> {
                    let old_window = #[trigger] was.windows[i];
                    let new_window = now.windows[i];
                    &&& new_window.id == old_window.id
                    &&& new_window.name == old_window.name
                    &&& new_window.rows == old_window.rows
                    &&& new_window.cols == old_window.cols
                    &&& i == was.window_of(pane_id) || new_window.layout == old_window.layout
                }
            &&& after.panes.contains_key(new_pane_id)
            &&& after.panes[new_pane_id] == new_pane
            &&& other_sessions_stay(state, after, session_id)
            &&& other_panes_stay(state, after, new_pane_id)
            &&& clients_stay(state, after)
        }),
{
    lemma_pane_is_in_the_first_window_that_names_it(state.sessions[session_id], pane_id);
}

/// Closing a pane of a window that has others changes that window's layout and
/// nothing else of the session. The pane is forgotten, and no other pane is
/// touched.
pub proof fn lemma_close_changes_one_layout(state: EngineState, session_id: Uuid, pane_id: Uuid)
    requires
        state.holder(session_id, pane_id),
        state.window_holding(session_id, pane_id).layout != Tree::Leaf(pane_id),
    ensures
        ({
            let after = state.without_pane(session_id, pane_id);
            let was = state.sessions[session_id];
            let now = after.sessions[session_id];
            &&& after.sessions.contains_key(session_id)
            &&& now.id == was.id
            &&& now.name == was.name
            &&& now.active_window_id == was.active_window_id
            &&& now.windows.len() == was.windows.len()
            &&& forall|i: int|
                0 <= i < was.windows.len() ==> {
                    let old_window = #[trigger] was.windows[i];
                    let new_window = now.windows[i];
                    &&& new_window.id == old_window.id
                    &&& new_window.name == old_window.name
                    &&& new_window.rows == old_window.rows
                    &&& new_window.cols == old_window.cols
                    &&& i == was.window_of(pane_id) || new_window.layout == old_window.layout
                }
            &&& !after.panes.contains_key(pane_id)
            &&& other_sessions_stay(state, after, session_id)
            &&& other_panes_stay(state, after, pane_id)
            &&& clients_stay(state, after)
        }),
{
    lemma_pane_is_in_the_first_window_that_names_it(state.sessions[session_id], pane_id);
    let window = state.window_holding(session_id, pane_id);
    lemma_others_remain(window.layout, pane_id);
}

proof fn lemma_others_remain(tree: Tree<Uuid>, pane_id: Uuid)
    ensures
        tree.without(pane_id) is None <==> tree == Tree::Leaf(pane_id),
    decreases tree,
{
    match tree {
        Tree::Leaf(_) => {},
        Tree::Split { first, second, .. } => {
            lemma_others_remain(*first, pane_id);
            lemma_others_remain(*second, pane_id);
        },
    }
}

/// Closing the last pane of a window closes the window: the windows after it
/// move up by one, the rest stay as they are, and the first window that is left
/// becomes the active one. With its last window the session closes too.
pub proof fn lemma_close_of_the_last_pane_closes_the_window(
    state: EngineState,
    session_id: Uuid,
    pane_id: Uuid,
)
    requires
        state.holder(session_id, pane_id),
        state.window_holding(session_id, pane_id).layout == Tree::Leaf(pane_id),
    ensures
        ({
            let after = state.without_pane(session_id, pane_id);
            let was = state.sessions[session_id];
            let now = after.sessions[session_id];
            let gone = was.window_of(pane_id);
            &&& after.sessions.contains_key(session_id) <==> was.windows.len() > 1
            &&& was.windows.len() > 1 ==> {
                &&& now.id == was.id
                &&& now.name == was.name
                &&& now.windows.len() == was.windows.len() - 1
                &&& forall|i: int| 0 <= i < gone ==> now.windows[i] == #[trigger] was.windows[i]
                &&& forall|i: int|
                    gone < i < was.windows.len() ==> now.windows[i - 1]
                        == #[trigger] was.windows[i]
                &&& now.active_window_id == now.windows[0].id
            }
            &&& !after.panes.contains_key(pane_id)
            &&& other_sessions_stay(state, after, session_id)
            &&& other_panes_stay(state, after, pane_id)
            &&& clients_stay(state, after)
        }),
{
    lemma_pane_is_in_the_first_window_that_names_it(state.sessions[session_id], pane_id);
    lemma_others_remain(Tree::Leaf(pane_id), pane_id);
}

/// Killing a session takes it away with every pane that a window of it names,
/// and touches nothing else.
pub proof fn lemma_kill_takes_the_session_and_its_panes(state: EngineState, session_id: Uuid)
    requires
        state.sessions.contains_key(session_id),
    ensures
        ({
            let after = state.without_session(session_id);
            &&& !after.sessions.contains_key(session_id)
            &&& other_sessions_stay(state, after, session_id)
            &&& forall|id: Uuid| #[trigger]
                after.panes.contains_key(id) <==> state.panes.contains_key(id)
                    && !state.sessions[session_id].holds(id)
            &&& forall|id: Uuid| #[trigger]
                after.panes.contains_key(id) ==> after.panes[id] == state.panes[id]
            &&& clients_stay(state, after)
        }),
{
    let session = state.sessions[session_id];
    let after = state.without_session(session_id);
    assert forall|id: Uuid| #[trigger]
        after.panes.contains_key(id) <==> state.panes.contains_key(id) && !session.holds(id) by {
        lemma_named_where_held(session, id);
    }
}

/// A session's panes are those that its windows' layouts name.
pub proof fn lemma_named_where_held(session: Session, pane_id: Uuid)
    ensures
        session.pane_ids().contains(pane_id) <==> exists|w: int|
            0 <= w < session.windows.len() && (#[trigger] session.windows[w]).layout.leaves().contains(
                pane_id,
            ),
        session.holds(pane_id) <==> session.pane_ids().contains(pane_id),
        session.pane_ids().to_set().contains(pane_id) <==> session.pane_ids().contains(pane_id),
{
    lemma_names(session.windows, pane_id);
}

proof fn lemma_names(windows: Seq<Window>, pane_id: Uuid)
    ensures
        session::pane_ids_of(windows).contains(pane_id) <==> exists|w: int|
            0 <= w < windows.len() && (#[trigger] windows[w]).layout.leaves().contains(pane_id),
    decreases windows.len(),
{
    if windows.len() > 0 {
        let rest = windows.drop_last();
        let front = session::pane_ids_of(rest);
        let back = windows.last().layout.leaves();
        lemma_names(rest, pane_id);
        let all = front + back;
        if all.contains(pane_id) {
            let i = choose|i: int| 0 <= i < all.len() && all[i] == pane_id;
            if i < front.len() {
                assert(front[i] == pane_id);
                let w = choose|w: int|
                    0 <= w < rest.len() && (#[trigger] rest[w]).layout.leaves().contains(pane_id);
                assert(windows[w] == rest[w]);
            } else {
                assert(back[i - front.len()] == pane_id);
                assert(windows[windows.len() - 1].layout.leaves().contains(pane_id));
            }
        }
        if exists|w: int|
            0 <= w < windows.len() && (#[trigger] windows[w]).layout.leaves().contains(pane_id) {
            let w = choose|w: int|
                0 <= w < windows.len() && (#[trigger] windows[w]).layout.leaves().contains(pane_id);
            if w < rest.len() {
                assert(rest[w].layout.leaves().contains(pane_id));
                let i = choose|i: int| 0 <= i < front.len() && front[i] == pane_id;
                assert(all[i] == pane_id);
            } else {
                let i = choose|i: int| 0 <= i < back.len() && back[i] == pane_id;
                assert(all[front.len() + i] == pane_id);
            }
        }
    }
}

/// The panes whose processes are killed with a session are those of its panes
/// that run, each once, in the order of the panes.
pub proof fn lemma_every_running_pane_is_killed_once(panes: Map<Uuid, PaneState>, ids: Seq<Uuid>)
    ensures
        ({
            let kills = engine::running_of(panes, ids);
            &&& kills.no_duplicates()
            &&& forall|id: Uuid| #[trigger]
                kills.contains(id) <==> ids.contains(id) && is_running(panes, id)
            &&& ids.no_duplicates() ==> kills == ids.filter(|id: Uuid| is_running(panes, id))
        }),
    decreases ids.len(),
{
    let wanted = |id: Uuid| is_running(panes, id);
    let kills = engine::running_of(panes, ids);
    reveal(Seq::filter);
    if ids.len() > 0 {
        let rest = ids.drop_last();
        let last = ids.last();
        let before = engine::running_of(panes, rest);
        lemma_every_running_pane_is_killed_once(panes, rest);
        assert(ids =~= rest.push(last));
        assert forall|id: Uuid| #[trigger]
            kills.contains(id) <==> ids.contains(id) && is_running(panes, id) by {
            assert(ids.contains(id) <==> rest.contains(id) || id == last) by {
                if ids.contains(id) {
                    let i = choose|i: int| 0 <= i < ids.len() && ids[i] == id;
                    if i < rest.len() {
                        assert(rest[i] == id);
                    }
                }
                if rest.contains(id) {
                    let i = choose|i: int| 0 <= i < rest.len() && rest[i] == id;
                    assert(ids[i] == id);
                }
                assert(ids[ids.len() - 1] == last);
            }
            assert(before.contains(id) <==> rest.contains(id) && is_running(panes, id));
            if kills.len() > before.len() {
                assert(kills =~= before.push(last));
                if before.contains(id) {
                    let i = choose|i: int| 0 <= i < before.len() && before[i] == id;
                    assert(kills[i] == id);
                }
                assert(kills[before.len() as int] == last);
                if kills.contains(id) {
                    let i = choose|i: int| 0 <= i < kills.len() && kills[i] == id;
                    if i < before.len() {
                        assert(before[i] == id);
                    }
                }
            }
        }
        assert(kills.no_duplicates()) by {
            if kills.len() > before.len() {
                assert(!before.contains(last)) by {
                    assert(before.contains(last) ==> rest.contains(last));
                }
                assert(kills =~= before.push(last));
            }
        }
        if ids.no_duplicates() {
            assert(rest.no_duplicates());
            assert(!rest.contains(last)) by {
                if rest.contains(last) {
                    let i = choose|i: int| 0 <= i < rest.len() && rest[i] == last;
                    assert(ids[i] == ids[ids.len() - 1]);
                }
            }
        }
    }
}

/// A window has in each dimension the least size that an attached client
/// reports: no client sees less than it reports, and some client reports just
/// that. Without a client it has 24 rows and 80 columns.
pub proof fn lemma_window_fits_every_client(
    state: EngineState,
    window_id: Uuid,
    rows: u16,
    cols: u16,
    client_id: u64,
)
    requires
        state.effective_size(window_id, rows, cols),
    ensures
        ({
            let attached = |client: u64|
                state.viewports.contains_key(window_id)
                    && state.viewports[window_id].contains_key(client);
            let reported = |client: u64| state.viewports[window_id][client];
            &&& attached(client_id) ==> rows <= reported(client_id).0 && cols <= reported(
                client_id,
            ).1
            &&& (exists|c: u64| #[trigger] attached(c)) ==> (exists|c: u64|
                #[trigger] attached(c) && reported(c).0 == rows) && (exists|c: u64|
                #[trigger] attached(c) && reported(c).1 == cols)
            &&& (forall|c: u64| !#[trigger] attached(c)) ==> rows == 24 && cols == 80
        }),
{
    let attached = |client: u64|
        state.viewports.contains_key(window_id) && state.viewports[window_id].contains_key(client);
    if state.viewports.contains_key(window_id) {
        let clients = state.viewports[window_id];
        if clients != Map::<u64, (u16, u16)>::empty() {
            assert(exists|c: u64| #[trigger] clients.contains_key(c) && clients[c].0 == rows);
            let c = choose|c: u64| #[trigger] clients.contains_key(c) && clients[c].0 == rows;
            assert(attached(c));
            let d = choose|d: u64| #[trigger] clients.contains_key(d) && clients[d].1 == cols;
            assert(attached(d));
        } else {
            assert forall|c: u64| !#[trigger] attached(c) by {}
        }
    }
}

/// A client's report is what is known of it afterwards, and no other client's
/// report changes. When the client leaves, only its own report goes.
pub proof fn lemma_reports_are_kept_apart(
    state: EngineState,
    window_id: Uuid,
    client_id: u64,
    rows: u16,
    cols: u16,
    other_window: Uuid,
    other: u64,
)
    ensures
        ({
            let known = |s: EngineState, w: Uuid, c: u64|
                if s.viewports.contains_key(w) && s.viewports[w].contains_key(c) {
                    Some(s.viewports[w][c])
                } else {
                    None
                };
            let after = state.with_viewport(window_id, client_id, rows, cols);
            let left = state.without_viewport(window_id, client_id);
            &&& known(after, window_id, client_id) == Some((rows, cols))
            &&& known(left, window_id, client_id) is None
            &&& other_window != window_id || other != client_id ==> known(
                after,
                other_window,
                other,
            ) == known(state, other_window, other)
            &&& other_window != window_id || other != client_id ==> known(
                left,
                other_window,
                other,
            ) == known(state, other_window, other)
            &&& after.sessions == state.sessions && after.panes == state.panes
                && after.next_client_id == state.next_client_id
            &&& left.sessions == state.sessions && left.panes == state.panes
                && left.next_client_id == state.next_client_id
        }),
{
}

/// Giving a window a size changes the two numbers and nothing else.
pub proof fn lemma_resize_changes_the_size_alone(
    state: EngineState,
    session_id: Uuid,
    index: int,
    window_id: Uuid,
    rows: u16,
    cols: u16,
)
    requires
        state.window_at(session_id, index, window_id),
    ensures
        ({
            let after = state.with_window_size(session_id, index, rows, cols);
            let was = state.sessions[session_id];
            let now = after.sessions[session_id];
            &&& was.windows[index].id == window_id
            &&& after.sessions.contains_key(session_id)
            &&& now.id == was.id
            &&& now.name == was.name
            &&& now.active_window_id == was.active_window_id
            &&& now.windows.len() == was.windows.len()
            &&& forall|i: int|
                0 <= i < was.windows.len() && i != index ==> now.windows[i]
                    == #[trigger] was.windows[i]
            &&& now.windows[index].id == was.windows[index].id
            &&& now.windows[index].name == was.windows[index].name
            &&& now.windows[index].layout == was.windows[index].layout
            &&& now.windows[index].rows == rows
            &&& now.windows[index].cols == cols
            &&& other_sessions_stay(state, after, session_id)
            &&& after.panes == state.panes
            &&& clients_stay(state, after)
        }),
{
}

/// The panes that are told of a new size are the live ones among those placed,
/// each with the rectangle that is its own.
pub proof fn lemma_live_panes_get_their_rectangles(
    panes: Map<Uuid, PaneState>,
    geometry: Seq<(Uuid, Rect)>,
    entry: (Uuid, Rect),
)
    ensures
        engine::live_rects(panes, geometry).contains(entry) <==> geometry.contains(entry)
            && panes.contains_key(entry.0) && panes[entry.0] is Live,
{
    let live = |e: (Uuid, Rect)| panes.contains_key(e.0) && panes[e.0] is Live;
    broadcast use Seq::lemma_filter_pred, Seq::lemma_filter_contains;

    let told = geometry.filter(live);
    assert(engine::live_rects(panes, geometry) == told);
    if told.contains(entry) {
        let i = choose|i: int| 0 <= i < told.len() && told[i] == entry;
        assert(live(told[i]));
        geometry.lemma_filter_contains_rev(live, entry);
    }
    if geometry.contains(entry) && live(entry) {
        let i = choose|i: int| 0 <= i < geometry.len() && geometry[i] == entry;
        geometry.lemma_filter_contains(live, i);
    }
}

/// The panes are told of their sizes in the order in which they are placed.
pub proof fn lemma_panes_are_told_in_order(
    panes: Map<Uuid, PaneState>,
    front: Seq<(Uuid, Rect)>,
    back: Seq<(Uuid, Rect)>,
)
    ensures
        engine::live_rects(panes, front + back) == engine::live_rects(panes, front)
            + engine::live_rects(panes, back),
{
    Seq::filter_distributes_over_add(
        front,
        back,
        |e: (Uuid, Rect)| panes.contains_key(e.0) && panes[e.0] is Live,
    );
}

/// Noting a live pane's size or end changes just that of it: what it runs, and
/// where, stays. A pane without a process stays as it is, and so does every
/// other pane and the rest of the state.
pub proof fn lemma_notes_touch_one_pane(state: EngineState, pane_id: Uuid, rows: u16, cols: u16)
    ensures
        ({
            let resized = state.with_pane_size(pane_id, rows, cols);
            let ended = state.with_pane_exited(pane_id);
            &&& state.panes.contains_key(pane_id) ==> match state.panes[pane_id] {
                PaneState::Live { command, cwd, rows: old_rows, cols: old_cols, exited } => {
                    &&& resized.panes[pane_id] == (PaneState::Live {
                        command,
                        cwd,
                        rows,
                        cols,
                        exited,
                    })
                    &&& ended.panes[pane_id] == (PaneState::Live {
                        command,
                        cwd,
                        rows: old_rows,
                        cols: old_cols,
                        exited: true,
                    })
                },
                PaneState::Dead(_) => {
                    &&& resized.panes[pane_id] == state.panes[pane_id]
                    &&& ended.panes[pane_id] == state.panes[pane_id]
                },
            }
            &&& !is_running(ended.panes, pane_id)
            &&& is_running(resized.panes, pane_id) == is_running(state.panes, pane_id)
            &&& resized.panes.contains_key(pane_id) == state.panes.contains_key(pane_id)
            &&& ended.panes.contains_key(pane_id) == state.panes.contains_key(pane_id)
            &&& other_panes_stay(state, resized, pane_id)
            &&& other_panes_stay(state, ended, pane_id)
            &&& resized.sessions == state.sessions && ended.sessions == state.sessions
            &&& clients_stay(state, resized) && clients_stay(state, ended)
        }),
{
}

/// A pane is found live if its process runs, dead if it is known and none runs, and
/// not at all if it is not known.
pub proof fn lemma_what_is_found_of_a_pane(state: EngineState, pane_id: Uuid)
    ensures
        state.lookup(pane_id) is Live <==> is_running(state.panes, pane_id),
        state.lookup(pane_id) is Unknown <==> !state.panes.contains_key(pane_id),
        state.lookup(pane_id) is Dead <==> state.panes.contains_key(pane_id) && !is_running(
            state.panes,
            pane_id,
        ),
{
}

/// A split is reported with the session that holds both panes now, in the window
/// that is named, and with what is to be stored of that session.
pub proof fn lemma_what_a_split_reports(
    before: EngineState,
    after: EngineState,
    outcome: SplitOutcome,
    pane_id: Uuid,
    orientation: Orientation,
    new_pane_id: Uuid,
    new_pane: PaneState,
) -> (index: int)
    requires
        engine::split_up(before, after, outcome, pane_id, orientation, new_pane_id, new_pane),
        before.sessions[outcome.session.id].id == outcome.session.id,
    ensures
        ({
            let session = after.sessions[outcome.session.id];
            &&& after.sessions.contains_key(outcome.session.id)
            &&& 0 <= index < session.windows.len()
            &&& session.windows[index].id == outcome.window_id
            &&& session.windows[index].layout.leaves().contains(pane_id)
            &&& session.windows[index].layout.leaves().contains(new_pane_id)
            &&& outcome.session@.id == outcome.record@.session_id == session.id
            &&& outcome.session@.name == session.name
            &&& outcome.record@.name == session.name
            &&& outcome.session@.windows.len() == outcome.record@.windows.len()
                == session.windows.len()
        }),
{
    let session_id = outcome.session.id;
    let was = before.sessions[session_id];
    lemma_pane_is_in_the_first_window_that_names_it(was, pane_id);
    let index = was.window_of(pane_id);
    lemma_both_are_there(was.windows[index].layout, pane_id, orientation, new_pane_id);
    index
}

proof fn lemma_both_are_there(
    tree: Tree<Uuid>,
    pane_id: Uuid,
    orientation: Orientation,
    new_pane: Uuid,
)
    requires
        tree.leaves().contains(pane_id),
    ensures
        tree.nested(pane_id, orientation, new_pane).leaves().contains(pane_id),
        tree.nested(pane_id, orientation, new_pane).leaves().contains(new_pane),
    decreases tree,
{
    let split = tree.nested(pane_id, orientation, new_pane);
    match tree {
        Tree::Leaf(id) => {
            let i = choose|i: int| 0 <= i < tree.leaves().len() && tree.leaves()[i] == pane_id;
            assert(id == pane_id);
            assert(split.leaves() =~= seq![pane_id] + seq![new_pane]) by {
                assert(Tree::Leaf(new_pane).leaves() =~= seq![new_pane]);
                assert(tree.leaves() =~= seq![pane_id]);
            }
            assert(split.leaves()[0] == pane_id);
            assert(split.leaves()[1] == new_pane);
        },
        Tree::Split { first, second, .. } => {
            let a = first.leaves();
            let b = second.leaves();
            let i = choose|i: int| 0 <= i < tree.leaves().len() && tree.leaves()[i] == pane_id;
            let c = first.nested(pane_id, orientation, new_pane).leaves();
            let d = second.nested(pane_id, orientation, new_pane).leaves();
            assert(split.leaves() == c + d);
            if i < a.len() {
                assert(a[i] == pane_id);
                lemma_both_are_there(*first, pane_id, orientation, new_pane);
                let j = choose|j: int| 0 <= j < c.len() && c[j] == pane_id;
                let k = choose|k: int| 0 <= k < c.len() && c[k] == new_pane;
                assert(split.leaves()[j] == pane_id);
                assert(split.leaves()[k] == new_pane);
            } else {
                assert(b[i - a.len()] == pane_id);
                lemma_both_are_there(*second, pane_id, orientation, new_pane);
                let j = choose|j: int| 0 <= j < d.len() && d[j] == pane_id;
                let k = choose|k: int| 0 <= k < d.len() && d[k] == new_pane;
                assert(split.leaves()[c.len() + j] == pane_id);
                assert(split.leaves()[c.len() + k] == new_pane);
            }
        },
    }
}

/// A close is reported as what it was: the process is to be killed if it ran; the
/// window is reported closed if this was its only pane, and to its watchers if it was
/// not; the session is reported closed if it is gone, and is pictured and stored if it
/// is not.
pub proof fn lemma_what_a_close_reports(
    before: EngineState,
    after: EngineState,
    outcome: ClosePaneOutcome,
    session_id: Uuid,
    pane_id: Uuid,
)
    requires
        before.holder(session_id, pane_id),
        engine::closed(before, after, outcome, session_id, pane_id),
    ensures
        ({
            let was = before.sessions[session_id];
            let window = before.window_holding(session_id, pane_id);
            let alone = window.layout == Tree::Leaf(pane_id);
            &&& outcome.kill <==> is_running(before.panes, pane_id)
            &&& outcome.window_closed is Some <==> alone
            &&& outcome.changed_window is Some <==> !alone
            &&& outcome.window_closed matches Some(closed) ==> closed.0 == window.id && closed.1@
                == window.name
            &&& outcome.changed_window matches Some(id) ==> id == window.id
            &&& outcome.session_closed is Some <==> !after.sessions.contains_key(session_id)
            &&& outcome.session_closed is Some <==> alone && was.windows.len() == 1
            &&& outcome.session_closed matches Some(closed) ==> closed.0 == session_id && closed.1@
                == was.name
            &&& outcome.session is Some <==> after.sessions.contains_key(session_id)
            &&& outcome.record is Some <==> after.sessions.contains_key(session_id)
            &&& outcome.session matches Some(session) ==> session@.id == was.id && session@.name
                == was.name && session@.windows.len() == after.sessions[session_id].windows.len()
            &&& outcome.record matches Some(record) ==> record@.session_id == was.id
                && record@.name == was.name && record@.active_window_id
                == after.sessions[session_id].active_window_id && record@.windows.len()
                == after.sessions[session_id].windows.len()
        }),
{
    lemma_pane_is_in_the_first_window_that_names_it(before.sessions[session_id], pane_id);
    lemma_others_remain(before.window_holding(session_id, pane_id).layout, pane_id);
}

/// A window that is opened is reported with its session, which has one window more
/// than before, the new one active.
pub proof fn lemma_what_opening_a_window_reports(
    before: EngineState,
    after: EngineState,
    outcome: WindowOutcome,
    session_id: Uuid,
    window_id: Uuid,
    pane_id: Uuid,
    pane: PaneState,
)
    requires
        engine::opened(before, after, outcome, session_id, window_id, pane_id, pane),
    ensures
        ({
            let count = before.sessions[session_id].windows.len();
            &&& outcome.session@.id == outcome.record@.session_id == before.sessions[session_id].id
            &&& outcome.session@.windows.len() == outcome.record@.windows.len() == count + 1
            &&& outcome.session@.windows[count as int].id == outcome.record@.windows[count as int].id
                == window_id
            &&& outcome.record@.active_window_id == window_id
        }),
{
}

/// A session is revived from its first pane on, unless one of its panes has a process
/// or had one since it was loaded: then it is live already, and there is nothing to be
/// done.
pub proof fn lemma_how_a_revival_starts(state: EngineState, session_id: Uuid)
    ensures
        ({
            let session = state.sessions[session_id];
            let start = state.revival_of(session_id);
            &&& start.pane_ids == session.pane_ids()
            &&& start.revived == 0
            &&& start.already_live <==> exists|pane_id: Uuid| #[trigger]
                session.holds(pane_id) && state.panes.contains_key(pane_id)
                    && state.panes[pane_id] is Live
            &&& start.already_live ==> start.next == start.pane_ids.len()
            &&& !start.already_live ==> start.next == 0
        }),
{
    let session = state.sessions[session_id];
    let ids = session.pane_ids();
    let start = state.revival_of(session_id);
    if start.already_live {
        let i = choose|i: int|
            0 <= i < ids.len() && state.panes.contains_key(#[trigger] ids[i])
                && state.panes[ids[i]] is Live;
        lemma_named_where_held(session, ids[i]);
        assert(ids.contains(ids[i]));
        assert(session.holds(ids[i]));
    }
    if exists|pane_id: Uuid| #[trigger]
        session.holds(pane_id) && state.panes.contains_key(pane_id) && state.panes[pane_id] is Live {
        let pane_id = choose|pane_id: Uuid| #[trigger]
            session.holds(pane_id) && state.panes.contains_key(pane_id)
                && state.panes[pane_id] is Live;
        lemma_named_where_held(session, pane_id);
        let i = choose|i: int| 0 <= i < ids.len() && ids[i] == pane_id;
        assert(state.panes.contains_key(ids[i]));
    }
}

/// Identifiers of clients are handed out one after the other, from one on; after the
/// last there is comes nought. Nothing else changes.
pub proof fn lemma_client_ids_go_up_by_one(state: EngineState)
    ensures
        EngineState::initial().next_client_id == 1,
        state.next_client_id < u64::MAX ==> state.with_client().next_client_id
            == state.next_client_id + 1,
        state.next_client_id == u64::MAX ==> state.with_client().next_client_id == 0,
        state.with_client().sessions == state.sessions,
        state.with_client().panes == state.panes,
        state.with_client().viewports == state.viewports,
{
}

/// A client that reports a size for the first time is one more client of the window;
/// one that has done so before is not. One that leaves is one fewer.
pub proof fn lemma_clients_are_counted_once(
    state: EngineState,
    window_id: Uuid,
    client_id: u64,
    rows: u16,
    cols: u16,
)
    requires
        state.viewports.contains_key(window_id) ==> state.viewports[window_id].dom().finite(),
    ensures
        ({
            let known = state.viewports.contains_key(window_id)
                && state.viewports[window_id].contains_key(client_id);
            let count = state.clients_of(window_id);
            let one: nat = 1;
            &&& state.with_viewport(window_id, client_id, rows, cols).clients_of(window_id) == if known {
                count
            } else {
                count + one
            }
            &&& count == state.without_viewport(window_id, client_id).clients_of(window_id) + if known {
                one
            } else {
                0
            }
        }),
{
    if state.viewports.contains_key(window_id) {
        let clients = state.viewports[window_id];
        assert(clients.insert(client_id, (rows, cols)).dom() =~= clients.dom().insert(client_id));
        assert(clients.remove(client_id).dom() =~= clients.dom().remove(client_id));
    } else {
        let clients = Map::<u64, (u16, u16)>::empty();
        assert(clients.insert(client_id, (rows, cols)).dom() =~= clients.dom().insert(client_id));
    }
}

/// A window that is given its size has it afterwards, and each live pane of it is told
/// of the rectangle that is its own at that size, and no other pane of anything. Only a
/// window that is not there is given none.
pub proof fn lemma_what_a_resize_reports(
    before: EngineState,
    after: EngineState,
    window_id: Uuid,
    resize: WindowResize,
) -> (place: (Uuid, int))
    requires
        engine::resized(before, after, window_id, Some(resize)),
    ensures
        before.sessions.contains_key(place.0),
        0 <= place.1 < before.sessions[place.0].windows.len(),
        before.sessions[place.0].windows[place.1].id == window_id,
        after.sessions[place.0].windows[place.1].rows == resize.rows,
        after.sessions[place.0].windows[place.1].cols == resize.cols,
        after.sessions[place.0].windows[place.1].layout
            == before.sessions[place.0].windows[place.1].layout,
        other_sessions_stay(before, after, place.0),
        after.panes == before.panes,
        clients_stay(before, after),
        forall|entry: (Uuid, Rect)| #[trigger]
            layout::placed(resize.resizes@).contains(entry) <==> {
                &&& before.sessions[place.0].windows[place.1].layout.geometry(
                    (Rect { row: 0, col: 0, rows: resize.rows as int, cols: resize.cols as int }),
                ).contains(entry)
                &&& before.panes.contains_key(entry.0)
                &&& before.panes[entry.0] is Live
            },
{
    let (session_id, index) = choose|session_id: Uuid, index: int|
        {
            &&& #[trigger] before.window_at(session_id, index, window_id)
            &&& after == before.with_window_size(session_id, index, resize.rows, resize.cols)
            &&& layout::placed(resize.resizes@) == engine::live_rects(
                before.panes,
                before.sessions[session_id].windows[index].layout.geometry(
                    layout::window(resize.rows as int, resize.cols as int),
                ),
            )
        };
    let geometry = before.sessions[session_id].windows[index].layout.geometry(
        layout::window(resize.rows as int, resize.cols as int),
    );
    assert forall|entry: (Uuid, Rect)| #[trigger]
        layout::placed(resize.resizes@).contains(entry) <==> {
            &&& geometry.contains(entry)
            &&& before.panes.contains_key(entry.0)
            &&& before.panes[entry.0] is Live
        } by {
        lemma_live_panes_get_their_rectangles(before.panes, geometry, entry);
    }
    (session_id, index)
}

/// A command that was asked for is run whatever the user's shell is, and a shell is run
/// as a command would be. Without either it is bash.
pub proof fn lemma_what_a_new_pane_runs(asked: Seq<char>, shell: Option<Seq<char>>)
    ensures
        engine::shell_for(Some(asked), shell) == asked,
        engine::shell_for(None, Some(asked)) == asked,
        engine::shell_for(None, None) == seq!['/', 'b', 'i', 'n', '/', 'b', 'a', 's', 'h'],
{
    reveal_strlit("/bin/bash");
    assert("/bin/bash"@ =~= seq!['/', 'b', 'i', 'n', '/', 'b', 'a', 's', 'h']);
}

/// A session holds a pane exactly if it is there and a window of it names the pane.
pub proof fn lemma_what_holds_a_pane(state: EngineState, session_id: Uuid, pane_id: Uuid)
    ensures
        state.holder(session_id, pane_id) <==> state.sessions.contains_key(session_id) && exists|
            w: int,
            i: int,
        |
            #![trigger state.sessions[session_id].windows[w].layout.leaves()[i]]
            0 <= w < state.sessions[session_id].windows.len() && 0 <= i
                < state.sessions[session_id].windows[w].layout.leaves().len()
                && state.sessions[session_id].windows[w].layout.leaves()[i] == pane_id,
{
    let session = state.sessions[session_id];
    if session.holds(pane_id) {
        let w = choose|w: int|
            0 <= w < session.windows.len()
                && (#[trigger] session.windows[w]).layout.leaves().contains(pane_id);
        let leaves = session.windows[w].layout.leaves();
        let i = choose|i: int| 0 <= i < leaves.len() && leaves[i] == pane_id;
        assert(state.sessions[session_id].windows[w].layout.leaves()[i] == pane_id);
    }
    if exists|w: int, i: int|
        #![trigger state.sessions[session_id].windows[w].layout.leaves()[i]]
        0 <= w < state.sessions[session_id].windows.len() && 0 <= i
            < state.sessions[session_id].windows[w].layout.leaves().len()
            && state.sessions[session_id].windows[w].layout.leaves()[i] == pane_id {
        let (w, i) = choose|w: int, i: int|
            #![trigger state.sessions[session_id].windows[w].layout.leaves()[i]]
            0 <= w < state.sessions[session_id].windows.len() && 0 <= i
                < state.sessions[session_id].windows[w].layout.leaves().len()
                && state.sessions[session_id].windows[w].layout.leaves()[i] == pane_id;
        assert(session.windows[w].layout.leaves().contains(pane_id));
    }
}

/// A window that a session has is found there: at its place, or at the place of the first
/// one before it that has the same identifier. The result is that place.
pub proof fn lemma_a_window_is_found(
    state: EngineState,
    session_id: Uuid,
    i: int,
    window_id: Uuid,
) -> (index: int)
    requires
        state.sessions.contains_key(session_id),
        0 <= i < state.sessions[session_id].windows.len(),
        state.sessions[session_id].windows[i].id == window_id,
    ensures
        0 <= index <= i,
        state.window_at(session_id, index, window_id),
        (forall|j: int|
            0 <= j < i ==> (#[trigger] state.sessions[session_id].windows[j]).id != window_id)
            ==> index == i,
    decreases i,
{
    let windows = state.sessions[session_id].windows;
    if exists|j: int| 0 <= j < i && (#[trigger] windows[j]).id == window_id {
        let j = choose|j: int| 0 <= j < i && (#[trigger] windows[j]).id == window_id;
        lemma_a_window_is_found(state, session_id, j, window_id)
    } else {
        i
    }
}

/// A session's panes are listed window by window, and those of a window as its layout has
/// them.
pub proof fn lemma_panes_are_listed_window_by_window(
    front: Seq<Window>,
    back: Seq<Window>,
    window: Window,
)
    ensures
        session::pane_ids_of(front + back) == session::pane_ids_of(front) + session::pane_ids_of(
            back,
        ),
        session::pane_ids_of(seq![window]) == window.layout.leaves(),
    decreases back.len(),
{
    let one = seq![window];
    assert(one.drop_last() =~= seq![]);
    assert(session::pane_ids_of(one.drop_last()) =~= seq![]);
    assert(session::pane_ids_of(one) =~= window.layout.leaves());
    let all = front + back;
    if back.len() == 0 {
        assert(all =~= front);
        assert(session::pane_ids_of(back) =~= seq![]);
        assert(session::pane_ids_of(front) + session::pane_ids_of(back) =~= session::pane_ids_of(
            front,
        ));
    } else {
        assert(all.drop_last() =~= front + back.drop_last());
        assert(all.last() == back.last());
        lemma_panes_are_listed_window_by_window(front, back.drop_last(), window);
        assert(session::pane_ids_of(all) =~= session::pane_ids_of(front) + session::pane_ids_of(
            back,
        ));
    }
}

/// Every pane that is started again counts once in what is reported of the revival, and
/// replaces what was known of that pane alone. A session that was live is reported as
/// such, whatever was started.
pub proof fn lemma_started_panes_are_counted(
    state: EngineState,
    pane_id: Uuid,
    pane: PaneState,
    revival: RevivalState,
    before: usize,
    after: usize,
)
    ensures
        ({
            let now = state.with_pane(pane_id, pane);
            let started = revival.with_revived();
            &&& now.panes.contains_key(pane_id) && now.panes[pane_id] == pane
            &&& other_panes_stay(state, now, pane_id)
            &&& now.sessions == state.sessions
            &&& clients_stay(state, now)
            &&& revival.reports(ReviveOutcome::AlreadyLive) <==> revival.already_live
            &&& revival.reports((ReviveOutcome::Revived { pane_count: before }))
                && started.reports((ReviveOutcome::Revived { pane_count: after })) ==> after
                == before + 1
            &&& revival.revived == before && !revival.already_live ==> revival.reports(
                (ReviveOutcome::Revived { pane_count: before }),
            )
            &&& started.pane_ids == revival.pane_ids && started.next == revival.next
                && started.already_live == revival.already_live
        }),
{
}

} // verus!
