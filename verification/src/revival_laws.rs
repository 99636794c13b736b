//! What holds of dead panes: nothing but a revival brings one back, and a
//! revival brings back all that can be started.

use crate::engine;
use crate::engine::EngineState;
use crate::engine_laws;
use crate::ids::Uuid;
use crate::layout;
use crate::layout::Orientation;
use crate::persistence;
use crate::persistence::{PaneRecord, SessionRecord};
use crate::session::PaneState;
use vstd::prelude::*;

verus! {

/// Whether the pane is known and dead.
pub open spec fn is_dead(panes: Map<Uuid, PaneState>, pane_id: Uuid) -> bool {
    panes.contains_key(pane_id) && panes[pane_id] is Dead
}

/// Which panes can be started.
pub open spec fn startable(starts: spec_fn(Uuid) -> Option<PaneState>) -> spec_fn(Uuid) -> bool {
    |pane_id: Uuid| starts(pane_id) is Some
}

/// What going through a session's panes from `from` on leads to, and how many
/// are started, where `starts` says what becomes of starting a pane: what is
/// then known of it, or nothing where it cannot be started.
pub open spec fn revival(
    panes: Map<Uuid, PaneState>,
    pane_ids: Seq<Uuid>,
    from: int,
    starts: spec_fn(Uuid) -> Option<PaneState>,
) -> (Map<Uuid, PaneState>, nat)
    decreases pane_ids.len() - from,
{
    if from >= pane_ids.len() {
        (panes, 0)
    } else if !is_dead(panes, pane_ids[from]) {
        revival(panes, pane_ids, from + 1, starts)
    } else {
        match starts(pane_ids[from]) {
            Some(pane) => {
                let (after, count) = revival(
                    panes.insert(pane_ids[from], pane),
                    pane_ids,
                    from + 1,
                    starts,
                );
                (after, count + 1)
            },
            None => revival(panes, pane_ids, from + 1, starts),
        }
    }
}

/// A revival is what starting one requested pane after the other comes to.
pub proof fn lemma_revival_follows_requests(
    panes: Map<Uuid, PaneState>,
    pane_ids: Seq<Uuid>,
    from: int,
    starts: spec_fn(Uuid) -> Option<PaneState>,
)
    requires
        0 <= from <= pane_ids.len(),
    ensures
        ({
            let at = engine::next_dead(panes, pane_ids, from);
            &&& from <= at <= pane_ids.len()
            &&& revival(panes, pane_ids, from, starts) == if at == pane_ids.len() {
                (panes, 0nat)
            } else {
                match starts(pane_ids[at]) {
                    Some(pane) => {
                        let (after, count) = revival(
                            panes.insert(pane_ids[at], pane),
                            pane_ids,
                            at + 1,
                            starts,
                        );
                        (after, count + 1)
                    },
                    None => revival(panes, pane_ids, at + 1, starts),
                }
            }
        }),
    decreases pane_ids.len() - from,
{
    if from < pane_ids.len() && !is_dead(panes, pane_ids[from]) {
        lemma_revival_follows_requests(panes, pane_ids, from + 1, starts);
    }
}

proof fn lemma_revival_of_dead(
    panes: Map<Uuid, PaneState>,
    pane_ids: Seq<Uuid>,
    from: int,
    starts: spec_fn(Uuid) -> Option<PaneState>,
)
    requires
        0 <= from <= pane_ids.len(),
        pane_ids.no_duplicates(),
        forall|i: int| from <= i < pane_ids.len() ==> is_dead(panes, #[trigger] pane_ids[i]),
    ensures
        ({
            let (after, count) = revival(panes, pane_ids, from, starts);
            &&& after.dom() == panes.dom()
            &&& count == pane_ids.skip(from).filter(startable(starts)).len()
            &&& forall|i: int|
                from <= i < pane_ids.len() ==> after[#[trigger] pane_ids[i]] == match starts(
                    pane_ids[i],
                ) {
                    Some(pane) => pane,
                    None => panes[pane_ids[i]],
                }
            &&& forall|id: Uuid|
                !pane_ids.skip(from).contains(id) ==> #[trigger] after[id] == panes[id]
        }),
    decreases pane_ids.len() - from,
{
    let rest = pane_ids.skip(from);
    let (after, count) = revival(panes, pane_ids, from, starts);
    reveal(Seq::filter);
    if from == pane_ids.len() {
        assert(rest =~= seq![]);
    } else {
        let id = pane_ids[from];
        let next = match starts(id) {
            Some(pane) => panes.insert(id, pane),
            None => panes,
        };
        assert(next.dom() =~= panes.dom());
        assert forall|i: int| from + 1 <= i < pane_ids.len() implies is_dead(
            next,
            #[trigger] pane_ids[i],
        ) && next[pane_ids[i]] == panes[pane_ids[i]] by {
            assert(pane_ids[i] != id);
            assert(is_dead(panes, pane_ids[i]));
        }
        lemma_revival_of_dead(next, pane_ids, from + 1, starts);
        let tail = pane_ids.skip(from + 1);
        assert(rest =~= seq![id] + tail);
        assert(is_dead(panes, id));
        Seq::<Uuid>::filter_distributes_over_add(seq![id], tail, startable(starts));
        assert(seq![id].drop_last().filter(startable(starts)).len() == 0) by {
            assert(seq![id].drop_last().len() == 0);
        }
        assert(seq![id].last() == id);
        assert(seq![id].filter(startable(starts)).len() == if starts(id) is Some {
            1nat
        } else {
            0nat
        });
        assert(!tail.contains(id)) by {
            if tail.contains(id) {
                let j = choose|j: int| 0 <= j < tail.len() && tail[j] == id;
                assert(pane_ids[from + 1 + j] == id);
            }
        }
        assert forall|other: Uuid| !rest.contains(other) implies #[trigger] after[other]
            == panes[other] by {
            assert(rest[0] == id);
            if tail.contains(other) {
                let j = choose|j: int| 0 <= j < tail.len() && tail[j] == other;
                assert(rest[j + 1] == other);
            }
        }
        assert forall|i: int| from <= i < pane_ids.len() implies after[#[trigger] pane_ids[i]]
            == match starts(pane_ids[i]) {
            Some(pane) => pane,
            None => panes[pane_ids[i]],
        } by {
            if i == from {
                assert(after[id] == next[id]);
            }
        }
    }
}

/// Reviving a session that is dead through and through brings back every pane
/// of it that can be started, and counts them. A pane that cannot be started
/// stays as it was, and so does every pane of any other session.
pub proof fn lemma_reviving_restores_a_session(
    state: EngineState,
    session_id: Uuid,
    starts: spec_fn(Uuid) -> Option<PaneState>,
)
    requires
        state.consistent(),
        state.sessions.contains_key(session_id),
        forall|pane_id: Uuid|
            state.sessions[session_id].holds(pane_id) ==> #[trigger] state.panes[pane_id] is Dead,
    ensures
        ({
            let ids = state.sessions[session_id].pane_ids();
            let (after, count) = revival(state.panes, ids, 0, starts);
            &&& after.dom() == state.panes.dom()
            &&& count == ids.filter(startable(starts)).len()
            &&& forall|pane_id: Uuid|
                #![trigger after[pane_id]]
                after[pane_id] == if state.sessions[session_id].holds(pane_id) && starts(
                    pane_id,
                ) is Some {
                    starts(pane_id)->0
                } else {
                    state.panes[pane_id]
                }
        }),
{
    let session = state.sessions[session_id];
    let ids = session.pane_ids();
    assert forall|i: int, j: int| 0 <= i < ids.len() && 0 <= j < ids.len() && i != j implies ids[i]
        != ids[j] by {
        if ids[i] == ids[j] {
            assert(engine_laws::leaves_naming(state.sessions[session_id], ids[i]) <= 1);
            layout::lemma_two_places(ids, i, j);
        }
    }
    assert forall|i: int| 0 <= i < ids.len() implies is_dead(state.panes, #[trigger] ids[i]) by {
        lemma_named_is_held(state, session_id, i);
    }
    lemma_revival_of_dead(state.panes, ids, 0, starts);
    assert(ids.skip(0) =~= ids);
    let after = revival(state.panes, ids, 0, starts).0;
    assert forall|pane_id: Uuid|
        #![trigger after[pane_id]]
        after[pane_id] == if session.holds(pane_id) && starts(pane_id) is Some {
            starts(pane_id)->0
        } else {
            state.panes[pane_id]
        } by {
        engine_laws::lemma_holds_what_it_names(session, pane_id);
        vstd::seq_lib::to_multiset_contains(ids, pane_id);
        if ids.contains(pane_id) {
            let i = choose|i: int| 0 <= i < ids.len() && ids[i] == pane_id;
            assert(after[ids[i]] == match starts(ids[i]) {
                Some(pane) => pane,
                None => state.panes[ids[i]],
            });
        }
    }
}

proof fn lemma_named_is_held(state: EngineState, session_id: Uuid, i: int)
    requires
        state.consistent(),
        state.sessions.contains_key(session_id),
        0 <= i < state.sessions[session_id].pane_ids().len(),
    ensures
        ({
            let pane_id = state.sessions[session_id].pane_ids()[i];
            state.sessions[session_id].holds(pane_id) && state.panes.contains_key(pane_id)
        }),
{
    let session = state.sessions[session_id];
    let pane_id = session.pane_ids()[i];
    engine_laws::lemma_holds_what_it_names(session, pane_id);
    vstd::seq_lib::to_multiset_contains(session.pane_ids(), pane_id);
    assert(session.pane_ids().contains(pane_id));
    assert(state.holder(session_id, pane_id));
}

/// No operation but a revival gives a dead pane a process: it stays dead as it
/// is for as long as it is known, and what is stored of it stays the same.
pub proof fn lemma_only_reviving_brings_back(
    state: EngineState,
    dead: Uuid,
    session_id: Uuid,
    name: Seq<char>,
    window_id: Uuid,
    index: int,
    pane_id: Uuid,
    orientation: Orientation,
    new_pane_id: Uuid,
    pane: PaneState,
    client_id: u64,
    rows: u16,
    cols: u16,
)
    requires
        is_dead(state.panes, dead),
        new_pane_id != dead,
    ensures
        stays_dead(
            state,
            state.with_session(session_id, name, window_id, new_pane_id, pane),
            dead,
        ),
        stays_dead(state, state.with_window(session_id, window_id, new_pane_id, pane), dead),
        stays_dead(
            state,
            state.with_split(session_id, pane_id, orientation, new_pane_id, pane),
            dead,
        ),
        stays_dead(state, state.without_pane(session_id, pane_id), dead),
        stays_dead(state, state.without_session(session_id), dead),
        stays_dead(state, state.with_window_size(session_id, index, rows, cols), dead),
        stays_dead(state, state.with_viewport(window_id, client_id, rows, cols), dead),
        stays_dead(state, state.without_viewport(window_id, client_id), dead),
        stays_dead(state, state.with_pane_size(pane_id, rows, cols), dead),
        stays_dead(state, state.with_pane_exited(pane_id), dead),
{
}

/// Whether a pane that was dead is known no more, or dead as before and stored as
/// before.
pub open spec fn stays_dead(before: EngineState, after: EngineState, pane_id: Uuid) -> bool {
    after.panes.contains_key(pane_id) ==> {
        &&& after.panes[pane_id] == before.panes[pane_id]
        &&& persistence::record_of(pane_id, after.panes) == persistence::record_of(
            pane_id,
            before.panes,
        )
    }
}

/// Loading stored sessions starts nothing: every pane is as it was before, or
/// dead.
pub proof fn lemma_loading_starts_nothing(
    state: EngineState,
    records: Seq<SessionRecord>,
    pane_id: Uuid,
)
    requires
        state.with_loaded(records).panes.contains_key(pane_id),
    ensures
        ({
            let after = state.with_loaded(records);
            ||| after.panes[pane_id] is Dead
            ||| state.panes.contains_key(pane_id) && after.panes[pane_id] == state.panes[pane_id]
        }),
    decreases records.len(),
{
    if records.len() > 0 {
        let before = state.with_loaded(records.drop_last());
        let panes = engine::recorded_panes(records.last().windows);
        lemma_recording_starts_nothing(before.panes, panes, pane_id);
        if before.panes.contains_key(pane_id) {
            lemma_loading_starts_nothing(state, records.drop_last(), pane_id);
        }
    }
}

proof fn lemma_recording_starts_nothing(
    panes: Map<Uuid, PaneState>,
    records: Seq<PaneRecord>,
    pane_id: Uuid,
)
    requires
        persistence::with_dead(panes, records).contains_key(pane_id),
    ensures
        ({
            let after = persistence::with_dead(panes, records);
            ||| after[pane_id] is Dead
            ||| panes.contains_key(pane_id) && after[pane_id] == panes[pane_id]
        }),
    decreases records.len(),
{
    if records.len() > 0 && records.last().pane_id != pane_id {
        lemma_recording_starts_nothing(panes, records.drop_last(), pane_id);
    }
}

} // verus!
