//! The multiplexer's state and the operations on it.
//!
//! The engine holds what is known of every session and pane, and decides what
//! each request does to it. It starts no process, touches no disk and takes no
//! lock: where an operation calls for such work, its result says what is to be
//! done, and the caller reports back what came of it.

use crate::ids::Uuid;
use crate::ids;
use crate::ids::fresh_id;
use crate::layout;
use crate::layout::{
    LayoutError, LayoutNode, Orientation, PtyRect, Rect, RemoveOutcome, Tree, MIN_PANE_COLS,
    MIN_PANE_ROWS,
};
use crate::persistence;
use crate::persistence::{
    persisted_layout_to_live, PaneRecord, PersistedSessionRecord, SessionRecord, WindowRecord,
};
use crate::session::{
    LivePane, PaneEntry, PaneState, Session, SessionState, Window, WindowState,
};
use crate::snapshot;
use crate::snapshot::{
    session_to_snapshot, window_to_snapshot, SessionSnapshot, WindowSnapshot,
};
use crate::text;
use std::collections::HashMap;
use vstd::prelude::*;

verus! {

broadcast use vstd::std_specs::hash::group_hash_axioms;

/// The size of a window that no client is attached to.
pub const DEFAULT_ROWS: u16 = 24;

pub const DEFAULT_COLS: u16 = 80;

/// What a table of panes stands for.
pub open spec fn panes_view(panes: Map<Uuid, PaneEntry>) -> Map<Uuid, PaneState> {
    panes.map_values(|entry: PaneEntry| entry@)
}

/// What a table of sessions stands for.
pub open spec fn sessions_view(sessions: Map<Uuid, SessionState>) -> Map<Uuid, Session> {
    sessions.map_values(|session: SessionState| session@)
}

/// What a table of viewports stands for.
pub open spec fn viewports_view(viewports: Map<Uuid, HashMap<u64, (u16, u16)>>) -> Map<
    Uuid,
    Map<u64, (u16, u16)>,
> {
    viewports.map_values(|clients: HashMap<u64, (u16, u16)>| clients@)
}

/// Everything the multiplexer knows.
pub struct Engine {
    sessions: HashMap<Uuid, SessionState>,
    panes: HashMap<Uuid, PaneEntry>,
    viewports: HashMap<Uuid, HashMap<u64, (u16, u16)>>,
    next_client_id: u64,
}

/// What [`Engine`] stands for.
pub struct EngineState {
    pub sessions: Map<Uuid, Session>,
    pub panes: Map<Uuid, PaneState>,
    /// For each window, the size that each client attached to it last reported.
    pub viewports: Map<Uuid, Map<u64, (u16, u16)>>,
    pub next_client_id: u64,
}

impl View for Engine {
    type V = EngineState;

    closed spec fn view(&self) -> EngineState {
        EngineState {
            sessions: sessions_view(self.sessions@),
            panes: panes_view(self.panes@),
            viewports: viewports_view(self.viewports@),
            next_client_id: self.next_client_id,
        }
    }
}

impl Engine {
    /// Every session stands under its own identifier, and so does the record of
    /// every dead pane. Every layout is a tree of binary splits.
    pub closed spec fn wf(self) -> bool {
        &&& forall|id: Uuid| #[trigger]
            self.sessions@.contains_key(id) ==> self.sessions@[id].wf() && self.sessions@[id].id
                == id
        &&& persistence::filed(self@.panes)
    }

    /// An engine keeps the record of every dead pane under the pane's identifier.
    pub proof fn lemma_dead_panes_are_filed(self)
        requires
            self.wf(),
        ensures
            persistence::filed(self@.panes),
    {
    }
}

/// What a new pane runs.
pub open spec fn shell_for(command: Option<Seq<char>>, shell: Option<Seq<char>>) -> Seq<char> {
    match command {
        Some(command) => command,
        None => match shell {
            Some(shell) => shell,
            None => "/bin/bash"@,
        },
    }
}

/// What a new pane runs: the command that was asked for, or else the user's
/// shell, or else bash.
pub fn shell_command(command: Option<String>, shell: Option<String>) -> (chosen: String)
    ensures
        match command {
            Some(command) => chosen == command,
            None => match shell {
                Some(shell) => chosen == shell,
                None => chosen@ == "/bin/bash"@,
            },
        },
        chosen@ == shell_for(text::optional(command), text::optional(shell)),
{
    match command {
        Some(command) => command,
        None => match shell {
            Some(shell) => shell,
            None => "/bin/bash".to_owned(),
        },
    }
}

/// Why a request is refused.
#[derive(Debug, Clone, Copy, PartialEq, Eq, Structural)]
pub enum EngineError {
    PaneNotFound(Uuid),
    SessionNotFound(Uuid),
    /// The split would produce a pane of this size, below the least size.
    BelowMinimumSize { rows: u16, cols: u16 },
    /// A horizontal split of a pane with this many rows, too few for it.
    BelowRecommendedSize { rows: u16 },
}

/// What becomes of looking a pane up.
#[derive(Debug, Clone, Copy, PartialEq, Eq, Structural)]
pub enum PaneLookup {
    /// The pane's process is running.
    Live,
    /// The pane is known, but its process has exited or was never revived.
    Dead,
    Unknown,
}

/// A window that has just been opened on one pane.
pub open spec fn fresh_window(id: Uuid, name: Seq<char>, pane_id: Uuid) -> Window {
    Window { id, name, layout: Tree::Leaf(pane_id), rows: DEFAULT_ROWS, cols: DEFAULT_COLS }
}

impl EngineState {
    /// No session, no pane, no client.
    pub open spec fn initial() -> EngineState {
        EngineState {
            sessions: Map::empty(),
            panes: Map::empty(),
            viewports: Map::empty(),
            next_client_id: 1,
        }
    }

    /// With one more session, of one window on one pane.
    pub open spec fn with_session(
        self,
        id: Uuid,
        name: Seq<char>,
        window_id: Uuid,
        pane_id: Uuid,
        pane: PaneState,
    ) -> EngineState {
        EngineState {
            sessions: self.sessions.insert(
                id,
                Session {
                    id,
                    name,
                    windows: seq![fresh_window(window_id, text::decimal(0), pane_id)],
                    active_window_id: window_id,
                },
            ),
            panes: self.panes.insert(pane_id, pane),
            ..self
        }
    }

    /// Without a session and without the panes that its windows name.
    pub open spec fn without_session(self, id: Uuid) -> EngineState {
        EngineState {
            sessions: self.sessions.remove(id),
            panes: self.panes.remove_keys(self.sessions[id].pane_ids().to_set()),
            ..self
        }
    }
}

/// What a split of a pane that is not refused brings.
#[derive(Debug)]
pub struct SplitOutcome {
    /// The session after the split.
    pub session: SessionSnapshot,
    /// What to store of the session.
    pub record: PersistedSessionRecord,
    /// The window whose watchers are to be told.
    pub window_id: Uuid,
}

/// What closing a pane did, and what is left to be done.
#[derive(Debug)]
pub struct ClosePaneOutcome {
    /// The window that closed because this was its last pane.
    pub window_closed: Option<(Uuid, String)>,
    /// The session that closed because that was its last window. What is
    /// stored of it is to be deleted.
    pub session_closed: Option<(Uuid, String)>,
    /// The session, if it still exists.
    pub session: Option<SessionSnapshot>,
    /// What to store of the session, if it still exists.
    pub record: Option<PersistedSessionRecord>,
    /// Whether the pane's process is to be killed.
    pub kill: bool,
    /// The window whose watchers are to be told, if it is still open.
    pub changed_window: Option<Uuid>,
}

/// What opening a window brings.
#[derive(Debug)]
pub struct WindowOutcome {
    /// The session with the new window.
    pub session: SessionSnapshot,
    /// What to store of the session.
    pub record: PersistedSessionRecord,
}

impl EngineState {
    /// Whether this session exists and a window of it names the pane.
    pub open spec fn holder(self, session_id: Uuid, pane_id: Uuid) -> bool {
        self.sessions.contains_key(session_id) && self.sessions[session_id].holds(pane_id)
    }

    /// The window of this session that names the pane.
    pub open spec fn window_holding(self, session_id: Uuid, pane_id: Uuid) -> Window {
        let session = self.sessions[session_id];
        session.windows[session.window_of(pane_id)]
    }

    /// Why the pane cannot be split where this session holds it, if it cannot.
    pub open spec fn refusal_in(
        self,
        session_id: Uuid,
        pane_id: Uuid,
        orientation: Orientation,
    ) -> Option<LayoutError> {
        let window = self.window_holding(session_id, pane_id);
        layout::split_refusal(
            window.layout,
            pane_id,
            orientation,
            window.rows as int,
            window.cols as int,
        )
    }

    /// Whether the pane's window has a geometry wherever the pane is found, and
    /// the pane one leaf in it if it is to be split.
    pub open spec fn can_try_split(self, pane_id: Uuid, orientation: Orientation) -> bool {
        forall|session_id: Uuid| #[trigger]
            self.holder(session_id, pane_id) ==> self.can_try_split_in(
                session_id,
                pane_id,
                orientation,
            )
    }

    /// Whether that holds of this session, if it holds the pane.
    pub open spec fn can_try_split_in(
        self,
        session_id: Uuid,
        pane_id: Uuid,
        orientation: Orientation,
    ) -> bool {
        let window = self.window_holding(session_id, pane_id);
        self.holder(session_id, pane_id) ==> {
            &&& window.layout.fits(window.rows as int, window.cols as int)
            &&& self.refusal_in(session_id, pane_id, orientation) is None ==> layout::named_once(
                window.layout.leaves(),
                pane_id,
            )
        }
    }

    /// With the pane split where this session holds it.
    pub open spec fn with_split(
        self,
        session_id: Uuid,
        pane_id: Uuid,
        orientation: Orientation,
        new_pane_id: Uuid,
        new_pane: PaneState,
    ) -> EngineState {
        let session = self.sessions[session_id];
        let window = self.window_holding(session_id, pane_id);
        let split = Window {
            layout: window.layout.nested(pane_id, orientation, new_pane_id),
            ..window
        };
        EngineState {
            sessions: self.sessions.insert(
                session_id,
                Session {
                    windows: session.windows.update(session.window_of(pane_id), split),
                    ..session
                },
            ),
            panes: self.panes.insert(new_pane_id, new_pane),
            ..self
        }
    }
}

impl EngineState {
    /// What becomes of the session that holds a pane once the pane is closed:
    /// the pane's window loses its leaf, or closes with it, in which case the
    /// first window left is the active one.
    pub open spec fn session_without_pane(self, session_id: Uuid, pane_id: Uuid) -> Session {
        let session = self.sessions[session_id];
        let index = session.window_of(pane_id);
        let window = session.windows[index];
        match window.layout.without(pane_id) {
            Some(rest) => Session {
                windows: session.windows.update(index, Window { layout: rest, ..window }),
                ..session
            },
            None => {
                let windows = session.windows.remove(index);
                Session {
                    windows,
                    active_window_id: if windows.len() > 0 {
                        windows[0].id
                    } else {
                        session.active_window_id
                    },
                    ..session
                }
            },
        }
    }

    /// Without a pane that this session holds: the session itself goes with its
    /// last window.
    pub open spec fn without_pane(self, session_id: Uuid, pane_id: Uuid) -> EngineState {
        let session = self.session_without_pane(session_id, pane_id);
        EngineState {
            sessions: if session.windows.len() == 0 {
                self.sessions.remove(session_id)
            } else {
                self.sessions.insert(session_id, session)
            },
            panes: self.panes.remove(pane_id),
            ..self
        }
    }

    /// With one more window in a session, on one pane. It is named after its
    /// place in the row and becomes the active one.
    pub open spec fn with_window(
        self,
        session_id: Uuid,
        window_id: Uuid,
        pane_id: Uuid,
        pane: PaneState,
    ) -> EngineState {
        let session = self.sessions[session_id];
        let window = fresh_window(window_id, text::decimal(session.windows.len()), pane_id);
        EngineState {
            sessions: self.sessions.insert(
                session_id,
                Session {
                    windows: session.windows.push(window),
                    active_window_id: window_id,
                    ..session
                },
            ),
            panes: self.panes.insert(pane_id, pane),
            ..self
        }
    }
}

/// A window as it comes back from its record.
pub open spec fn restored_window(record: WindowRecord) -> Window {
    Window {
        id: record.id,
        name: record.name,
        layout: persistence::restored(record.layout),
        rows: DEFAULT_ROWS,
        cols: DEFAULT_COLS,
    }
}

/// A session as it comes back from its record.
pub open spec fn restored_session(record: SessionRecord) -> Session {
    Session {
        id: record.session_id,
        name: record.name,
        windows: record.windows.map_values(|w: WindowRecord| restored_window(w)),
        active_window_id: record.active_window_id,
    }
}

/// The panes in a row of stored windows, window by window.
pub open spec fn recorded_panes(windows: Seq<WindowRecord>) -> Seq<PaneRecord>
    decreases windows.len(),
{
    if windows.len() == 0 {
        seq![]
    } else {
        recorded_panes(windows.drop_last()) + windows.last().layout.leaves()
    }
}

impl EngineState {
    /// With the stored sessions loaded in turn, all of their panes dead.
    pub open spec fn with_loaded(self, records: Seq<SessionRecord>) -> EngineState
        decreases records.len(),
    {
        if records.len() == 0 {
            self
        } else {
            let before = self.with_loaded(records.drop_last());
            let record = records.last();
            EngineState {
                sessions: before.sessions.insert(record.session_id, restored_session(record)),
                panes: persistence::with_dead(before.panes, recorded_panes(record.windows)),
                ..before
            }
        }
    }
}

/// What became of a request to revive a session.
#[derive(Debug, Clone, Copy, PartialEq, Eq, Structural)]
pub enum ReviveOutcome {
    /// This many panes were started again.
    Revived { pane_count: usize },
    /// The session was not dead to begin with.
    AlreadyLive,
}

/// A process to be started for a dead pane.
#[derive(Debug, PartialEq)]
pub struct RespawnRequest {
    pub pane_id: Uuid,
    pub command: String,
    pub cwd: String,
    pub rows: u16,
    pub cols: u16,
}

impl RespawnRequest {
    /// Whether the request runs what the record says, where it says, at the
    /// recorded size or the least size of a pane, whichever is greater.
    pub open spec fn follows(self, pane_id: Uuid, record: PaneRecord) -> bool {
        &&& self.pane_id == pane_id
        &&& self.command@ == record.command
        &&& self.cwd@ == record.cwd
        &&& self.rows == if record.rows < MIN_PANE_ROWS {
            MIN_PANE_ROWS
        } else {
            record.rows
        }
        &&& self.cols == if record.cols < MIN_PANE_COLS {
            MIN_PANE_COLS
        } else {
            record.cols
        }
    }
}

/// How far the revival of a session has come.
#[derive(Debug)]
pub struct Revival {
    pane_ids: Vec<Uuid>,
    next: usize,
    revived: usize,
    already_live: bool,
}

/// What [`Revival`] stands for.
pub struct RevivalState {
    /// The panes of the session, in order.
    pub pane_ids: Seq<Uuid>,
    /// How many of them have been dealt with.
    pub next: int,
    /// How many of those were started again.
    pub revived: int,
    /// Whether the session was not dead to begin with.
    pub already_live: bool,
}

impl View for Revival {
    type V = RevivalState;

    closed spec fn view(&self) -> RevivalState {
        RevivalState {
            pane_ids: self.pane_ids@,
            next: self.next as int,
            revived: self.revived as int,
            already_live: self.already_live,
        }
    }
}

impl RevivalState {
    pub open spec fn wf(self) -> bool {
        0 <= self.revived <= self.next <= self.pane_ids.len()
    }

    /// Whether this is to be reported.
    pub open spec fn reports(self, outcome: ReviveOutcome) -> bool {
        if self.already_live {
            outcome is AlreadyLive
        } else {
            outcome matches ReviveOutcome::Revived { pane_count } && pane_count == self.revived
        }
    }

    /// With one more pane started again.
    pub open spec fn with_revived(self) -> RevivalState {
        RevivalState { revived: self.revived + 1, ..self }
    }
}

impl Revival {
    /// What to report once every pane has been dealt with.
    pub fn outcome(&self) -> (outcome: ReviveOutcome)
        requires
            self@.wf(),
        ensures
            match outcome {
                ReviveOutcome::AlreadyLive => self@.already_live,
                ReviveOutcome::Revived { pane_count } => !self@.already_live && pane_count
                    == self@.revived,
            },
            self@.reports(outcome),
    {
        if self.already_live {
            ReviveOutcome::AlreadyLive
        } else {
            ReviveOutcome::Revived { pane_count: self.revived }
        }
    }
}

impl EngineState {
    /// What looking a pane up comes to.
    pub open spec fn lookup(self, pane_id: Uuid) -> PaneLookup {
        if !self.panes.contains_key(pane_id) {
            PaneLookup::Unknown
        } else if self.panes[pane_id].running() {
            PaneLookup::Live
        } else {
            PaneLookup::Dead
        }
    }

    /// How the revival of a session starts.
    pub open spec fn revival_of(self, session_id: Uuid) -> RevivalState {
        let ids = self.sessions[session_id].pane_ids();
        let already_live = exists|i: int|
            0 <= i < ids.len() && self.panes.contains_key(#[trigger] ids[i])
                && self.panes[ids[i]] is Live;
        RevivalState {
            pane_ids: ids,
            next: if already_live {
                ids.len() as int
            } else {
                0
            },
            revived: 0,
            already_live,
        }
    }

    /// With a pane started again.
    pub open spec fn with_pane(self, pane_id: Uuid, pane: PaneState) -> EngineState {
        EngineState { panes: self.panes.insert(pane_id, pane), ..self }
    }

    /// With one more identifier of a client handed out.
    pub open spec fn with_client(self) -> EngineState {
        EngineState {
            next_client_id: if self.next_client_id == u64::MAX {
                0
            } else {
                (self.next_client_id + 1) as u64
            },
            ..self
        }
    }

    /// How many clients are attached to a window.
    pub open spec fn clients_of(self, window_id: Uuid) -> nat {
        if self.viewports.contains_key(window_id) {
            self.viewports[window_id].len()
        } else {
            0
        }
    }
}

/// The first place from `from` on where a dead pane stands, or the end.
pub open spec fn next_dead(panes: Map<Uuid, PaneState>, pane_ids: Seq<Uuid>, from: int) -> int
    decreases pane_ids.len() - from,
{
    if from >= pane_ids.len() {
        pane_ids.len() as int
    } else if panes.contains_key(pane_ids[from]) && panes[pane_ids[from]] is Dead {
        from
    } else {
        next_dead(panes, pane_ids, from + 1)
    }
}

impl EngineState {
    /// Whether this is the size of the window: in each dimension the least that
    /// a client attached to it reports, or the default if there is none.
    pub open spec fn effective_size(self, window_id: Uuid, rows: u16, cols: u16) -> bool {
        if self.viewports.contains_key(window_id) && self.viewports[window_id] != Map::<
            u64,
            (u16, u16),
        >::empty() {
            let clients = self.viewports[window_id];
            &&& exists|client: u64| #[trigger]
                clients.contains_key(client) && clients[client].0 == rows
            &&& exists|client: u64| #[trigger]
                clients.contains_key(client) && clients[client].1 == cols
            &&& forall|client: u64| #[trigger]
                clients.contains_key(client) ==> rows <= clients[client].0 && cols
                    <= clients[client].1
        } else {
            rows == DEFAULT_ROWS && cols == DEFAULT_COLS
        }
    }

    /// A window has one size.
    pub proof fn lemma_effective_size_unique(
        self,
        window_id: Uuid,
        rows: u16,
        cols: u16,
        other_rows: u16,
        other_cols: u16,
    )
        requires
            self.effective_size(window_id, rows, cols),
            self.effective_size(window_id, other_rows, other_cols),
        ensures
            rows == other_rows,
            cols == other_cols,
    {
    }

    /// Whether the window stands at this place: in this session, at this index,
    /// and not at a lower one.
    pub open spec fn window_at(self, session_id: Uuid, index: int, window_id: Uuid) -> bool {
        &&& self.sessions.contains_key(session_id)
        &&& 0 <= index < self.sessions[session_id].windows.len()
        &&& self.sessions[session_id].windows[index].id == window_id
        &&& forall|j: int|
            0 <= j < index ==> (#[trigger] self.sessions[session_id].windows[j]).id != window_id
    }

    /// Whether the window's layout has a geometry at the window's size.
    pub open spec fn can_resize(self, window_id: Uuid) -> bool {
        forall|session_id: Uuid, index: int, rows: u16, cols: u16|
            #![trigger self.window_at(session_id, index, window_id), self.effective_size(window_id, rows, cols)]
            self.window_at(session_id, index, window_id) && self.effective_size(
                window_id,
                rows,
                cols,
            ) ==> self.sessions[session_id].windows[index].layout.fits(rows as int, cols as int)
    }

    /// With the window at this place given this size.
    pub open spec fn with_window_size(
        self,
        session_id: Uuid,
        index: int,
        rows: u16,
        cols: u16,
    ) -> EngineState {
        let session = self.sessions[session_id];
        let window = Window { rows, cols, ..session.windows[index] };
        EngineState {
            sessions: self.sessions.insert(
                session_id,
                Session { windows: session.windows.update(index, window), ..session },
            ),
            ..self
        }
    }

    /// With a live pane's size changed.
    pub open spec fn with_pane_size(self, pane_id: Uuid, rows: u16, cols: u16) -> EngineState {
        EngineState {
            panes: if self.panes.contains_key(pane_id) {
                self.panes.insert(pane_id, self.panes[pane_id].resized(rows, cols))
            } else {
                self.panes
            },
            ..self
        }
    }

    /// With a live pane's process gone.
    pub open spec fn with_pane_exited(self, pane_id: Uuid) -> EngineState {
        EngineState {
            panes: if self.panes.contains_key(pane_id) {
                self.panes.insert(pane_id, self.panes[pane_id].ended())
            } else {
                self.panes
            },
            ..self
        }
    }

    /// With the size that a client reports for a window.
    pub open spec fn with_viewport(
        self,
        window_id: Uuid,
        client_id: u64,
        rows: u16,
        cols: u16,
    ) -> EngineState {
        let clients = if self.viewports.contains_key(window_id) {
            self.viewports[window_id]
        } else {
            Map::empty()
        };
        EngineState {
            viewports: self.viewports.insert(window_id, clients.insert(client_id, (rows, cols))),
            ..self
        }
    }

    /// Without a client's viewport of a window.
    pub open spec fn without_viewport(self, window_id: Uuid, client_id: u64) -> EngineState {
        EngineState {
            viewports: if self.viewports.contains_key(window_id) {
                self.viewports.insert(window_id, self.viewports[window_id].remove(client_id))
            } else {
                self.viewports
            },
            ..self
        }
    }
}

/// Those of the placed panes that have a process, or had one, each with its own
/// rectangle.
pub open spec fn live_rects(panes: Map<Uuid, PaneState>, geometry: Seq<(Uuid, Rect)>) -> Seq<
    (Uuid, Rect),
> {
    geometry.filter(
        |entry: (Uuid, Rect)| panes.contains_key(entry.0) && panes[entry.0] is Live,
    )
}

/// A window's new size, and the panes that are to be resized.
#[derive(Debug)]
pub struct WindowResize {
    pub rows: u16,
    pub cols: u16,
    pub resizes: Vec<(Uuid, PtyRect)>,
}

/// Whether recomputing a window's geometry led from `before` to `after` with
/// this result.
pub open spec fn resized(
    before: EngineState,
    after: EngineState,
    window_id: Uuid,
    result: Option<WindowResize>,
) -> bool {
    match result {
        Some(resize) => {
            &&& before.effective_size(window_id, resize.rows, resize.cols)
            &&& exists|session_id: Uuid, index: int|
                {
                    &&& #[trigger] before.window_at(session_id, index, window_id)
                    &&& after == before.with_window_size(
                        session_id,
                        index,
                        resize.rows,
                        resize.cols,
                    )
                    &&& layout::placed(resize.resizes@) == live_rects(
                        before.panes,
                        before.sessions[session_id].windows[index].layout.geometry(
                            layout::window(resize.rows as int, resize.cols as int),
                        ),
                    )
                }
        },
        None => {
            &&& after == before
            &&& forall|session_id: Uuid, index: int|
                !#[trigger] before.window_at(session_id, index, window_id)
        },
    }
}

/// Whether opening a window led from `before` to `after` with this outcome.
pub open spec fn opened(
    before: EngineState,
    after: EngineState,
    outcome: WindowOutcome,
    session_id: Uuid,
    window_id: Uuid,
    pane_id: Uuid,
    pane: PaneState,
) -> bool {
    &&& before.sessions.contains_key(session_id)
    &&& after == before.with_window(session_id, window_id, pane_id, pane)
    &&& outcome.session.wf()
    &&& outcome.session@ == snapshot::session_picture(after.sessions[session_id], after.panes)
    &&& outcome.record.wf()
    &&& outcome.record@ == persistence::session_record(after.sessions[session_id], after.panes)
}

/// Whether splitting a pane led from `before` to `after` with this outcome.
pub open spec fn split_up(
    before: EngineState,
    after: EngineState,
    outcome: SplitOutcome,
    pane_id: Uuid,
    orientation: Orientation,
    new_pane_id: Uuid,
    new_pane: PaneState,
) -> bool {
    let session_id = outcome.session.id;
    &&& before.holder(session_id, pane_id)
    &&& after == before.with_split(session_id, pane_id, orientation, new_pane_id, new_pane)
    &&& outcome.session.wf()
    &&& outcome.session@ == snapshot::session_picture(after.sessions[session_id], after.panes)
    &&& outcome.record.wf()
    &&& outcome.record@ == persistence::session_record(after.sessions[session_id], after.panes)
    &&& outcome.window_id == before.window_holding(session_id, pane_id).id
}

/// Whether closing a pane that this session held led from `before` to `after` with
/// this outcome.
pub open spec fn closed(
    before: EngineState,
    after: EngineState,
    outcome: ClosePaneOutcome,
    session_id: Uuid,
    pane_id: Uuid,
) -> bool {
    let was = before.sessions[session_id];
    let window = before.window_holding(session_id, pane_id);
    let now = before.session_without_pane(session_id, pane_id);
    let window_closes = window.layout.without(pane_id) is None;
    let session_closes = now.windows.len() == 0;
    &&& after == before.without_pane(session_id, pane_id)
    &&& if window_closes {
        names(outcome.window_closed, window.id, window.name)
    } else {
        outcome.window_closed is None
    }
    &&& if session_closes {
        &&& names(outcome.session_closed, session_id, was.name)
        &&& outcome.session is None
        &&& outcome.record is None
    } else {
        &&& outcome.session_closed is None
        &&& outcome.session matches Some(session) && session.wf() && session@
            == snapshot::session_picture(now, before.panes)
        &&& outcome.record matches Some(record) && record.wf() && record@
            == persistence::session_record(now, before.panes)
    }
    &&& outcome.kill == (before.panes.contains_key(pane_id) && before.panes[pane_id].running())
    &&& outcome.changed_window == if window_closes {
        None
    } else {
        Some(window.id)
    }
}

/// Whether a window or session that closed is reported as it was: the
/// identifier and the name.
pub open spec fn names(report: Option<(Uuid, String)>, id: Uuid, name: Seq<char>) -> bool {
    report matches Some(closed) && closed.0 == id && closed.1@ == name
}

/// The refusal of a split, as the engine reports it.
pub open spec fn split_error(error: LayoutError) -> EngineError {
    match error {
        LayoutError::BelowMinimumSize { rows, cols } => EngineError::BelowMinimumSize {
            rows,
            cols,
        },
        LayoutError::BelowRecommendedSize { rows } => EngineError::BelowRecommendedSize { rows },
        LayoutError::PaneNotFound { pane_id } => EngineError::PaneNotFound(pane_id),
    }
}

/// Those of the panes whose process is running, each once, in order.
pub open spec fn running_of(panes: Map<Uuid, PaneState>, ids: Seq<Uuid>) -> Seq<Uuid>
    decreases ids.len(),
{
    if ids.len() == 0 {
        seq![]
    } else {
        let before = running_of(panes, ids.drop_last());
        let id = ids.last();
        if panes.contains_key(id) && panes[id].running() && !ids.drop_last().contains(id) {
            before.push(id)
        } else {
            before
        }
    }
}

/// The keys of a table, each once, in no particular order.
fn keys_of<V>(table: &HashMap<Uuid, V>) -> (keys: Vec<Uuid>)
    ensures
        keys@.no_duplicates(),
        keys@.to_set() == table@.dom(),
        forall|key: Uuid| keys@.contains(key) <==> #[trigger] table@.contains_key(key),
{
    let mut keys: Vec<Uuid> = Vec::new();
    for key in it: table.keys()
        invariant
            keys@ == it.seq().take(it.index() as int).unref(),
    {
        keys.push(*key);
        assert(it.seq().take(it.index() + 1).unref() =~= it.seq().take(
            it.index() as int,
        ).unref().push(*key));
    }
    proof {
        let all = vstd::std_specs::iter::IteratorSpec::remaining(
            &vstd::std_specs::hash::spec_keys_iter(table),
        );
        assert(all.take(all.len() as int) =~= all);
        assert(keys@ =~= all.unref());
        assert forall|key: Uuid| keys@.contains(key) <==> #[trigger] table@.contains_key(key) by {
            assert(keys@.to_set().contains(key) <==> table@.dom().contains(key));
        }
    }
    keys
}

/// The least number of rows and of columns over all clients.
fn least_viewport(clients: &HashMap<u64, (u16, u16)>) -> (size: (u16, u16))
    requires
        clients@.len() > 0,
    ensures
        clients@ != Map::<u64, (u16, u16)>::empty(),
        exists|client: u64| #[trigger]
            clients@.contains_key(client) && clients@[client].0 == size.0,
        exists|client: u64| #[trigger]
            clients@.contains_key(client) && clients@[client].1 == size.1,
        forall|client: u64| #[trigger]
            clients@.contains_key(client) ==> size.0 <= clients@[client].0 && size.1
                <= clients@[client].1,
{
    let mut rows: u16 = u16::MAX;
    let mut cols: u16 = u16::MAX;
    for viewport in it: clients.values()
        invariant
            forall|j: int|
                0 <= j < it.index() ==> rows <= (#[trigger] it.seq()[j]).0 && cols
                    <= it.seq()[j].1,
            it.index() > 0 ==> exists|j: int|
                0 <= j < it.index() && (#[trigger] it.seq()[j]).0 == rows,
            it.index() > 0 ==> exists|j: int|
                0 <= j < it.index() && (#[trigger] it.seq()[j]).1 == cols,
            it.index() == 0 ==> rows == u16::MAX && cols == u16::MAX,
    {
        assert(*it.seq()[it.index() as int] == *viewport);
        if viewport.0 < rows {
            rows = viewport.0;
        }
        if viewport.1 < cols {
            cols = viewport.1;
        }
    }
    proof {
        let all = vstd::std_specs::iter::IteratorSpec::remaining(
            &vstd::std_specs::hash::spec_values_iter(clients),
        );
        lemma_values_listed(clients@, all.unref());
        let j = choose|j: int| 0 <= j < all.len() && (#[trigger] all[j]).0 == rows;
        assert(all.unref()[j].0 == rows);
        let k = choose|k: int| 0 <= k < all.len() && (#[trigger] all[k]).1 == cols;
        assert(all.unref()[k].1 == cols);
        assert forall|client: u64| #[trigger] clients@.contains_key(client) implies rows
            <= clients@[client].0 && cols <= clients@[client].1 by {
            let i = choose|i: int| 0 <= i < all.unref().len() && all.unref()[i] == clients@[client];
            assert(*all[i] == clients@[client]);
        }
    }
    (rows, cols)
}

spec fn has_value(table: Map<u64, (u16, u16)>, value: (u16, u16)) -> bool {
    exists|key: u64| #[trigger] table.contains_key(key) && table[key] == value
}

/// A list of a table's values holds the value of every key, and nothing else.
proof fn lemma_values_listed(table: Map<u64, (u16, u16)>, values: Seq<(u16, u16)>)
    requires
        values.to_set() == table.values(),
    ensures
        forall|key: u64| #[trigger] table.contains_key(key) ==> values.contains(table[key]),
        forall|i: int| 0 <= i < values.len() ==> has_value(table, #[trigger] values[i]),
{
    broadcast use vstd::seq_lib::group_seq_properties;

    assert forall|key: u64| #[trigger] table.contains_key(key) implies values.contains(
        table[key],
    ) by {
        assert(table.values().contains(table[key]));
        assert(values.to_set().contains(table[key]));
    }
    assert forall|i: int| 0 <= i < values.len() implies has_value(table, #[trigger] values[i]) by {
        assert(values.to_set().contains(values[i]));
        assert(table.values().contains(values[i]));
        let key = choose|key: u64| table.dom().contains(key) && table[key] == values[i];
        assert(table.contains_key(key) && table[key] == values[i]);
    }
}

impl Default for Engine {
    fn default() -> (engine: Self)
        ensures
            engine.wf(),
            engine@ == EngineState::initial(),
    {
        Engine::new()
    }
}

impl Engine {
    /// An engine with nothing in it.
    pub fn new() -> (engine: Self)
        ensures
            engine.wf(),
            engine@ == EngineState::initial(),
    {
        let engine = Engine {
            sessions: HashMap::new(),
            panes: HashMap::new(),
            viewports: HashMap::new(),
            next_client_id: 1,
        };
        proof {
            assert(engine@.sessions =~= Map::empty());
            assert(engine@.panes =~= Map::empty());
            assert(engine@.viewports =~= Map::empty());
        }
        engine
    }

    /// Opens a session of one window on a pane that has just been started.
    /// The session and its window get fresh identifiers; the session's is
    /// returned.
    pub fn create_session(&mut self, name: String, pane_id: Uuid, pane: LivePane) -> (id: Uuid)
        requires
            old(self).wf(),
        ensures
            final(self).wf(),
            ids::is_random(id),
            exists|window_id: Uuid| #[trigger]
                ids::is_random(window_id) && final(self)@ == old(self)@.with_session(
                    id,
                    name@,
                    window_id,
                    pane_id,
                    pane@,
                ),
    {
        let window_id: Uuid = fresh_id();
        let id: Uuid = fresh_id();
        self.add_session(id, name, window_id, pane_id, pane);
        id
    }

    /// Opens a session of one window on a pane, under the given identifiers.
    pub fn add_session(
        &mut self,
        id: Uuid,
        name: String,
        window_id: Uuid,
        pane_id: Uuid,
        pane: LivePane,
    )
        requires
            old(self).wf(),
        ensures
            final(self).wf(),
            final(self)@ == old(self)@.with_session(id, name@, window_id, pane_id, pane@),
    {
        let window = WindowState {
            id: window_id,
            name: text::decimal_text(0),
            layout: LayoutNode::leaf(pane_id),
            rows: DEFAULT_ROWS,
            cols: DEFAULT_COLS,
        };
        let session = SessionState {
            id,
            name,
            windows: vec![window],
            active_window_id: window_id,
        };
        assert(session@.windows =~= seq![fresh_window(window_id, text::decimal(0), pane_id)]);
        self.sessions.insert(id, session);
        self.panes.insert(pane_id, PaneEntry::Live(pane));
        assert(self@.sessions =~= old(self)@.with_session(
            id,
            name@,
            window_id,
            pane_id,
            pane@,
        ).sessions);
        assert(self@.panes =~= old(self)@.panes.insert(pane_id, pane@));
    }

    /// What to store of a session, if there is such a session.
    pub fn snapshot_persisted_record(&self, session_id: Uuid) -> (record: Option<
        PersistedSessionRecord,
    >)
        requires
            self.wf(),
        ensures
            match record {
                Some(record) => self@.sessions.contains_key(session_id) && record.wf() && record@
                    == persistence::session_record(self@.sessions[session_id], self@.panes),
                None => !self@.sessions.contains_key(session_id),
            },
    {
        match self.sessions.get(&session_id) {
            Some(session) => Some(
                PersistedSessionRecord::from_session_state(session, &self.panes),
            ),
            None => None,
        }
    }

    /// A picture of every session, in no particular order.
    pub fn list_sessions(&self) -> (snapshots: Vec<SessionSnapshot>)
        requires
            self.wf(),
        ensures
            snapshots@.len() == self@.sessions.dom().len(),
            exists|ids: Seq<Uuid>|
                {
                    &&& ids.no_duplicates()
                    &&& #[trigger] ids.to_set() == self@.sessions.dom()
                    &&& snapshots@.len() == ids.len()
                    &&& forall|i: int|
                        #![trigger snapshots@[i]]
                        0 <= i < ids.len() ==> snapshots@[i].wf() && snapshots@[i]@
                            == snapshot::session_picture(self@.sessions[ids[i]], self@.panes)
                },
    {
        let ids = keys_of(&self.sessions);
        let mut snapshots: Vec<SessionSnapshot> = Vec::new();
        let mut i: usize = 0;
        while i < ids.len()
            invariant
                self.wf(),
                forall|id: Uuid| ids@.contains(id) <==> #[trigger] self.sessions@.contains_key(id),
                i <= ids.len(),
                snapshots@.len() == i,
                forall|j: int|
                    #![trigger snapshots@[j]]
                    0 <= j < i ==> snapshots@[j].wf() && snapshots@[j]@
                        == snapshot::session_picture(self@.sessions[ids@[j]], self@.panes),
            decreases ids.len() - i,
        {
            assert(ids@.contains(ids@[i as int]));
            match self.sessions.get(&ids[i]) {
                Some(session) => {
                    snapshots.push(session_to_snapshot(session, &self.panes));
                },
                None => {},
            }
            i = i + 1;
        }
        assert(ids@.to_set() =~= self@.sessions.dom());
        proof {
            ids@.unique_seq_to_set();
        }
        snapshots
    }

    /// Finds a pane by its identifier, whatever session it belongs to.
    pub fn pane_lookup(&self, pane_id: Uuid) -> (found: PaneLookup)
        ensures
            found == self@.lookup(pane_id),
    {
        match self.panes.get(&pane_id) {
            None => PaneLookup::Unknown,
            Some(PaneEntry::Dead(_)) => PaneLookup::Dead,
            Some(PaneEntry::Live(pane)) => if pane.exited {
                PaneLookup::Dead
            } else {
                PaneLookup::Live
            },
        }
    }

    /// Closes a session with all its panes. The result lists the panes whose
    /// processes are to be killed.
    pub fn kill_session(&mut self, id: Uuid) -> (result: Result<Vec<Uuid>, EngineError>)
        requires
            old(self).wf(),
        ensures
            final(self).wf(),
            match result {
                Ok(kills) => {
                    &&& old(self)@.sessions.contains_key(id)
                    &&& kills@ == running_of(
                        old(self)@.panes,
                        old(self)@.sessions[id].pane_ids(),
                    )
                    &&& final(self)@ == old(self)@.without_session(id)
                },
                Err(error) => {
                    &&& !old(self)@.sessions.contains_key(id)
                    &&& error == EngineError::SessionNotFound(id)
                    &&& final(self)@ == old(self)@
                },
            },
    {
        let session: SessionState = match self.sessions.remove(&id) {
            Some(session) => session,
            None => {
                assert(self@.sessions =~= old(self)@.sessions);
                return Err(EngineError::SessionNotFound(id));
            },
        };
        let ids = session.pane_ids();
        let ghost before = self@.panes;
        let kills = self.forget_panes(&ids);
        assert(self@.sessions =~= old(self)@.sessions.remove(id));
        Ok(kills)
    }

    /// A session that holds the pane, if any does.
    fn find_session(&self, pane_id: Uuid) -> (found: Option<Uuid>)
        requires
            self.wf(),
        ensures
            match found {
                Some(session_id) => self@.holder(session_id, pane_id),
                None => forall|session_id: Uuid| !#[trigger] self@.holder(session_id, pane_id),
            },
    {
        let ids = keys_of(&self.sessions);
        let mut i: usize = 0;
        while i < ids.len()
            invariant
                self.wf(),
                i <= ids.len(),
                forall|id: Uuid| ids@.contains(id) <==> #[trigger] self.sessions@.contains_key(id),
                forall|j: int| 0 <= j < i ==> !self@.holder(#[trigger] ids@[j], pane_id),
            decreases ids.len() - i,
        {
            assert(ids@.contains(ids@[i as int]));
            if let Some(session) = self.sessions.get(&ids[i]) {
                assert(self@.sessions[ids@[i as int]] == session@);
                if session.window_of(pane_id).is_some() {
                    return Some(ids[i]);
                }
            }
            i = i + 1;
        }
        assert forall|session_id: Uuid| !#[trigger] self@.holder(session_id, pane_id) by {
            if self@.sessions.contains_key(session_id) {
                assert(self.sessions@.contains_key(session_id));
                let j = choose|j: int| 0 <= j < ids@.len() && ids@[j] == session_id;
                assert(!self@.holder(ids@[j], pane_id));
            }
        }
        None
    }

    /// Splits a pane: its leaf becomes a split of the pane and of `new_pane`,
    /// which has just been started. Sizes are judged by the current size of
    /// the pane's window.
    pub fn split_pane(
        &mut self,
        pane_id: Uuid,
        orientation: Orientation,
        new_pane_id: Uuid,
        new_pane: LivePane,
    ) -> (result: Result<SplitOutcome, EngineError>)
        requires
            old(self).wf(),
            old(self)@.can_try_split(pane_id, orientation),
        ensures
            final(self).wf(),
            match result {
                Ok(outcome) => old(self)@.refusal_in(outcome.session.id, pane_id, orientation) is None
                    && split_up(
                    old(self)@,
                    final(self)@,
                    outcome,
                    pane_id,
                    orientation,
                    new_pane_id,
                    new_pane@,
                ),
                Err(error) => {
                    &&& final(self)@ == old(self)@
                    &&& {
                        ||| error == EngineError::PaneNotFound(pane_id) && forall|session_id: Uuid|
                            !#[trigger] old(self)@.holder(session_id, pane_id)
                        ||| exists|session_id: Uuid| #[trigger]
                            old(self)@.holder(session_id, pane_id) && (old(self)@.refusal_in(
                                session_id,
                                pane_id,
                                orientation,
                            ) matches Some(refusal) && error == split_error(refusal))
                    }
                },
            },
    {
        let session_id: Uuid = match self.find_session(pane_id) {
            Some(session_id) => session_id,
            None => {
                return Err(EngineError::PaneNotFound(pane_id));
            },
        };
        let mut session: SessionState = self.sessions.remove(&session_id).unwrap();
        let ghost was = session@;
        assert(old(self)@.sessions[session_id] == was);
        let index: usize = session.window_of(pane_id).unwrap();
        let rows: u16 = session.windows[index].rows;
        let cols: u16 = session.windows[index].cols;
        let window_id: Uuid = session.windows[index].id;
        proof {
            assert(old(self)@.holder(session_id, pane_id));
            session.windows@[index as int].layout.lemma_leaf_ids();
        }
        let result = session.windows[index].layout.split(
            pane_id,
            orientation,
            new_pane_id,
            rows,
            cols,
        );
        if let Err(refusal) = result {
            assert(session@.windows =~= was.windows);
            self.sessions.insert(session_id, session);
            assert(self@.sessions =~= old(self)@.sessions);
            return Err(
                match refusal {
                    LayoutError::BelowMinimumSize { rows, cols } => EngineError::BelowMinimumSize {
                        rows,
                        cols,
                    },
                    LayoutError::BelowRecommendedSize {
                        rows,
                    } => EngineError::BelowRecommendedSize { rows },
                    LayoutError::PaneNotFound { pane_id } => EngineError::PaneNotFound(pane_id),
                },
            );
        }
        self.panes.insert(new_pane_id, PaneEntry::Live(new_pane));
        let snapshot = session_to_snapshot(&session, &self.panes);
        let record = PersistedSessionRecord::from_session_state(&session, &self.panes);
        self.sessions.insert(session_id, session);
        proof {
            let after = old(self)@.with_split(
                session_id,
                pane_id,
                orientation,
                new_pane_id,
                new_pane@,
            );
            assert(session@.windows =~= after.sessions[session_id].windows);
            assert(self@.sessions =~= after.sessions);
            assert(self@.panes =~= after.panes);
        }
        Ok(SplitOutcome { session: snapshot, record, window_id })
    }

    /// Closes a pane. Its window closes with its last pane, and the session
    /// with its last window.
    pub fn close_pane(&mut self, pane_id: Uuid) -> (result: Result<ClosePaneOutcome, EngineError>)
        requires
            old(self).wf(),
        ensures
            final(self).wf(),
            match result {
                Ok(outcome) => exists|session_id: Uuid| #[trigger]
                    old(self)@.holder(session_id, pane_id) && closed(
                        old(self)@,
                        final(self)@,
                        outcome,
                        session_id,
                        pane_id,
                    ),
                Err(error) => {
                    &&& error == EngineError::PaneNotFound(pane_id)
                    &&& forall|session_id: Uuid| !#[trigger] old(self)@.holder(session_id, pane_id)
                    &&& final(self)@ == old(self)@
                },
            },
    {
        let session_id: Uuid = match self.find_session(pane_id) {
            Some(session_id) => session_id,
            None => {
                return Err(EngineError::PaneNotFound(pane_id));
            },
        };
        let mut session: SessionState = self.sessions.remove(&session_id).unwrap();
        let ghost was = session@;
        let ghost now = old(self)@.session_without_pane(session_id, pane_id);
        assert(old(self)@.sessions[session_id] == was);
        let index: usize = session.window_of(pane_id).unwrap();
        let window: WindowState = session.windows.remove(index);
        assert(window@ == was.windows[index as int]);
        assert(window.wf());
        let window_id: Uuid = window.id;
        let mut window_closed: Option<(Uuid, String)> = None;
        let mut changed_window: Option<Uuid> = None;
        assert(session@.windows =~= was.windows.remove(index as int));
        match window.layout.remove(pane_id) {
            RemoveOutcome::Collapsed(layout) => {
                session.windows.insert(
                    index,
                    WindowState {
                        id: window_id,
                        name: window.name,
                        layout,
                        rows: window.rows,
                        cols: window.cols,
                    },
                );
                changed_window = Some(window_id);
                assert(session@.windows =~= now.windows);
            },
            RemoveOutcome::WindowEmpty => {
                window_closed = Some((window_id, window.name));
                if session.windows.len() > 0 {
                    session.active_window_id = session.windows[0].id;
                }
                assert(session@.windows =~= now.windows);
            },
        }
        assert(session@ == now);
        assert(session.wf());
        let mut session_closed: Option<(Uuid, String)> = None;
        let mut snapshot: Option<SessionSnapshot> = None;
        let mut record: Option<PersistedSessionRecord> = None;
        if session.windows.len() == 0 {
            session_closed = Some((session_id, session.name));
            assert(self@.sessions =~= old(self)@.without_pane(session_id, pane_id).sessions);
        } else {
            snapshot = Some(session_to_snapshot(&session, &self.panes));
            record = Some(PersistedSessionRecord::from_session_state(&session, &self.panes));
            self.sessions.insert(session_id, session);
            assert(self@.sessions =~= old(self)@.without_pane(session_id, pane_id).sessions);
        }
        let entry = self.panes.remove(&pane_id);
        assert(self@.panes =~= old(self)@.panes.remove(pane_id));
        let kill: bool = match entry {
            Some(PaneEntry::Live(pane)) => !pane.exited,
            _ => false,
        };
        Ok(
            ClosePaneOutcome {
                window_closed,
                session_closed,
                session: snapshot,
                record,
                kill,
                changed_window,
            },
        )
    }

    /// Opens a window in a session on a pane that has just been started. The
    /// window gets a fresh identifier.
    pub fn create_window(&mut self, session_id: Uuid, pane_id: Uuid, pane: LivePane) -> (result:
        Result<WindowOutcome, EngineError>)
        requires
            old(self).wf(),
        ensures
            final(self).wf(),
            match result {
                Ok(outcome) => exists|window_id: Uuid| #[trigger]
                    ids::is_random(window_id) && opened(
                        old(self)@,
                        final(self)@,
                        outcome,
                        session_id,
                        window_id,
                        pane_id,
                        pane@,
                    ),
                Err(error) => {
                    &&& error == EngineError::SessionNotFound(session_id)
                    &&& !old(self)@.sessions.contains_key(session_id)
                    &&& final(self)@ == old(self)@
                },
            },
    {
        let window_id: Uuid = fresh_id();
        self.add_window(session_id, window_id, pane_id, pane)
    }

    /// Opens a window in a session on a pane, under the given identifier.
    pub fn add_window(
        &mut self,
        session_id: Uuid,
        window_id: Uuid,
        pane_id: Uuid,
        pane: LivePane,
    ) -> (result: Result<WindowOutcome, EngineError>)
        requires
            old(self).wf(),
        ensures
            final(self).wf(),
            match result {
                Ok(outcome) => opened(
                    old(self)@,
                    final(self)@,
                    outcome,
                    session_id,
                    window_id,
                    pane_id,
                    pane@,
                ),
                Err(error) => {
                    &&& error == EngineError::SessionNotFound(session_id)
                    &&& !old(self)@.sessions.contains_key(session_id)
                    &&& final(self)@ == old(self)@
                },
            },
    {
        let mut session: SessionState = match self.sessions.remove(&session_id) {
            Some(session) => session,
            None => {
                assert(self@.sessions =~= old(self)@.sessions);
                return Err(EngineError::SessionNotFound(session_id));
            },
        };
        let ghost was = session@;
        let name = text::decimal_text(session.windows.len() as u64);
        session.windows.push(
            WindowState {
                id: window_id,
                name,
                layout: LayoutNode::leaf(pane_id),
                rows: DEFAULT_ROWS,
                cols: DEFAULT_COLS,
            },
        );
        session.active_window_id = window_id;
        self.panes.insert(pane_id, PaneEntry::Live(pane));
        let snapshot = session_to_snapshot(&session, &self.panes);
        let record = PersistedSessionRecord::from_session_state(&session, &self.panes);
        self.sessions.insert(session_id, session);
        proof {
            let after = old(self)@.with_window(session_id, window_id, pane_id, pane@);
            assert(session@.windows =~= after.sessions[session_id].windows);
            assert(self@.sessions =~= after.sessions);
            assert(self@.panes =~= after.panes);
        }
        Ok(WindowOutcome { session: snapshot, record })
    }

    /// Loads stored sessions. None of their panes gets a process: every one of
    /// them is dead until it is revived.
    pub fn load_persisted(&mut self, records: Vec<PersistedSessionRecord>)
        requires
            old(self).wf(),
            forall|i: int| 0 <= i < records@.len() ==> (#[trigger] records@[i]).wf(),
        ensures
            final(self).wf(),
            final(self)@ == old(self)@.with_loaded(
                records@.map_values(|record: PersistedSessionRecord| record@),
            ),
    {
        let ghost all = records@.map_values(|record: PersistedSessionRecord| record@);
        let mut i: usize = 0;
        assert(all.take(0) =~= seq![]);
        while i < records.len()
            invariant
                i <= records.len(),
                forall|j: int| 0 <= j < records@.len() ==> (#[trigger] records@[j]).wf(),
                all == records@.map_values(|record: PersistedSessionRecord| record@),
                self.wf(),
                self@ == old(self)@.with_loaded(all.take(i as int)),
            decreases records.len() - i,
        {
            assert(all.take(i + 1).drop_last() =~= all.take(i as int));
            self.load_record(&records[i]);
            i = i + 1;
        }
        assert(all.take(i as int) =~= all);
    }

    fn load_record(&mut self, record: &PersistedSessionRecord)
        requires
            old(self).wf(),
            record.wf(),
        ensures
            final(self).wf(),
            final(self)@ == (EngineState {
                sessions: old(self)@.sessions.insert(record.session_id, restored_session(record@)),
                panes: persistence::with_dead(old(self)@.panes, recorded_panes(record@.windows)),
                ..old(self)@
            }),
    {
        let ghost all = record@.windows;
        let mut windows: Vec<WindowState> = Vec::new();
        let mut i: usize = 0;
        assert(all.take(0) =~= seq![]);
        assert(persistence::with_dead(self@.panes, seq![]) == self@.panes);
        while i < record.windows.len()
            invariant
                record.wf(),
                i <= record.windows.len(),
                all == record@.windows,
                windows@.len() == i,
                forall|j: int|
                    #![trigger windows@[j]]
                    0 <= j < i ==> windows@[j].wf() && windows@[j]@ == restored_window(all[j]),
                self.sessions == old(self).sessions,
                self.viewports == old(self).viewports,
                self.next_client_id == old(self).next_client_id,
                panes_view(self.panes@) == persistence::with_dead(
                    old(self)@.panes,
                    recorded_panes(all.take(i as int)),
                ),
            decreases record.windows.len() - i,
        {
            let window = &record.windows[i];
            proof {
                assert(all.take(i + 1).drop_last() =~= all.take(i as int));
                persistence::lemma_with_dead_concat(
                    old(self)@.panes,
                    recorded_panes(all.take(i as int)),
                    window.layout.tree().leaves(),
                );
            }
            let layout = persisted_layout_to_live(&window.layout, &mut self.panes);
            windows.push(
                WindowState {
                    id: window.id,
                    name: window.name.clone(),
                    layout,
                    rows: DEFAULT_ROWS,
                    cols: DEFAULT_COLS,
                },
            );
            i = i + 1;
        }
        assert(all.take(i as int) =~= all);
        let session = SessionState {
            id: record.session_id,
            name: record.name.clone(),
            windows,
            active_window_id: record.active_window_id,
        };
        assert(session@.windows =~= restored_session(record@).windows);
        self.sessions.insert(record.session_id, session);
        proof {
            persistence::lemma_with_dead_filed(old(self)@.panes, recorded_panes(all));
        }
        assert(self@.sessions =~= old(self)@.sessions.insert(
            record.session_id,
            restored_session(record@),
        ));
    }

    /// Starts to revive a session: its panes are to be gone through with
    /// [`Engine::next_respawn`]. Where some pane of it is live already, nothing
    /// is left to be gone through.
    pub fn revive_session(&self, session_id: Uuid) -> (result: Result<Revival, EngineError>)
        requires
            self.wf(),
        ensures
            match result {
                Ok(revival) => {
                    &&& self@.sessions.contains_key(session_id)
                    &&& revival@ == self@.revival_of(session_id)
                },
                Err(error) => {
                    &&& !self@.sessions.contains_key(session_id)
                    &&& error == EngineError::SessionNotFound(session_id)
                },
            },
    {
        let session: &SessionState = match self.sessions.get(&session_id) {
            Some(session) => session,
            None => {
                return Err(EngineError::SessionNotFound(session_id));
            },
        };
        let pane_ids = session.pane_ids();
        let ghost ids = pane_ids@;
        assert(self@.sessions[session_id] == session@);
        let mut i: usize = 0;
        while i < pane_ids.len()
            invariant
                i <= pane_ids.len(),
                ids == pane_ids@,
                ids == self@.sessions[session_id].pane_ids(),
                self@.sessions.contains_key(session_id),
                forall|j: int|
                    0 <= j < i ==> !(self@.panes.contains_key(#[trigger] ids[j])
                        && self@.panes[ids[j]] is Live),
            decreases pane_ids.len() - i,
        {
            if let Some(PaneEntry::Live(_)) = self.panes.get(&pane_ids[i]) {
                assert(self@.panes.contains_key(ids[i as int]) && self@.panes[ids[i as int]] is Live);
                let next: usize = pane_ids.len();
                return Ok(Revival { pane_ids, next, revived: 0, already_live: true });
            }
            i = i + 1;
        }
        Ok(Revival { pane_ids, next: 0, revived: 0, already_live: false })
    }

    /// The next process to be started, if any pane is left that needs one.
    pub fn next_respawn(&self, revival: &mut Revival) -> (request: Option<RespawnRequest>)
        requires
            old(revival)@.wf(),
        ensures
            final(revival)@.wf(),
            ({
                let ids = old(revival)@.pane_ids;
                let at = next_dead(self@.panes, ids, old(revival)@.next);
                &&& final(revival)@.pane_ids == ids
                &&& final(revival)@.revived == old(revival)@.revived
                &&& final(revival)@.already_live == old(revival)@.already_live
                &&& match request {
                    Some(request) => {
                        &&& at < ids.len()
                        &&& request.follows(ids[at], self@.panes[ids[at]]->Dead_0)
                        &&& final(revival)@.next == at + 1
                        &&& final(revival)@.revived < final(revival)@.next
                    },
                    None => at == ids.len() && final(revival)@.next == at,
                }
            }),
    {
        while revival.next < revival.pane_ids.len()
            invariant
                revival@.wf(),
                revival@.pane_ids == old(revival)@.pane_ids,
                revival@.revived == old(revival)@.revived,
                revival@.already_live == old(revival)@.already_live,
                next_dead(self@.panes, revival@.pane_ids, revival@.next) == next_dead(
                    self@.panes,
                    old(revival)@.pane_ids,
                    old(revival)@.next,
                ),
            decreases revival.pane_ids.len() - revival.next,
        {
            let pane_id: Uuid = revival.pane_ids[revival.next];
            revival.next = revival.next + 1;
            if let Some(PaneEntry::Dead(record)) = self.panes.get(&pane_id) {
                assert(self@.panes[pane_id] == PaneState::Dead(record@));
                return Some(
                    RespawnRequest {
                        pane_id,
                        command: record.command.clone(),
                        cwd: record.cwd.clone(),
                        rows: if record.rows < MIN_PANE_ROWS {
                            MIN_PANE_ROWS
                        } else {
                            record.rows
                        },
                        cols: if record.cols < MIN_PANE_COLS {
                            MIN_PANE_COLS
                        } else {
                            record.cols
                        },
                    },
                );
            }
        }
        None
    }

    /// Takes note that a pane's process has been started again.
    pub fn pane_respawned(&mut self, revival: &mut Revival, pane_id: Uuid, pane: LivePane)
        requires
            old(self).wf(),
            old(revival)@.wf(),
            old(revival)@.revived < old(revival)@.next,
        ensures
            final(self).wf(),
            final(self)@ == (EngineState {
                panes: old(self)@.panes.insert(pane_id, pane@),
                ..old(self)@
            }),
            final(revival)@ == (RevivalState {
                revived: old(revival)@.revived + 1,
                ..old(revival)@
            }),
            final(self)@ == old(self)@.with_pane(pane_id, pane@),
            final(revival)@ == old(revival)@.with_revived(),
    {
        self.panes.insert(pane_id, PaneEntry::Live(pane));
        revival.revived = revival.revived + 1;
        assert(self@.panes =~= old(self)@.panes.insert(pane_id, pane@));
    }

    /// The size that the window has by the viewports of its clients.
    fn window_size(&self, window_id: Uuid) -> (size: (u16, u16))
        ensures
            self@.effective_size(window_id, size.0, size.1),
    {
        if let Some(clients) = self.viewports.get(&window_id) {
            assert(self@.viewports[window_id] == clients@);
            if clients.len() > 0 {
                return least_viewport(clients);
            }
            assert(clients@ =~= Map::empty());
        }
        (DEFAULT_ROWS, DEFAULT_COLS)
    }

    /// Where a window stands, if there is such a window.
    fn find_window(&self, window_id: Uuid) -> (found: Option<(Uuid, usize)>)
        requires
            self.wf(),
        ensures
            match found {
                Some(place) => self@.window_at(place.0, place.1 as int, window_id),
                None => forall|session_id: Uuid, index: int|
                    !#[trigger] self@.window_at(session_id, index, window_id),
            },
    {
        let ids = keys_of(&self.sessions);
        let mut i: usize = 0;
        while i < ids.len()
            invariant
                self.wf(),
                i <= ids.len(),
                forall|id: Uuid| ids@.contains(id) <==> #[trigger] self.sessions@.contains_key(id),
                forall|j: int, index: int|
                    0 <= j < i ==> !#[trigger] self@.window_at(ids@[j], index, window_id),
            decreases ids.len() - i,
        {
            assert(ids@.contains(ids@[i as int]));
            if let Some(session) = self.sessions.get(&ids[i]) {
                assert(self@.sessions[ids@[i as int]] == session@);
                let mut k: usize = 0;
                while k < session.windows.len()
                    invariant
                        i < ids.len(),
                        k <= session.windows.len(),
                        self.sessions@.contains_key(ids@[i as int]),
                        self@.sessions[ids@[i as int]] == session@,
                        forall|j: int|
                            0 <= j < k ==> (#[trigger] session@.windows[j]).id != window_id,
                    decreases session.windows.len() - k,
                {
                    assert(session@.windows[k as int] == session.windows@[k as int]@);
                    if session.windows[k].id == window_id {
                        assert(self@.window_at(ids@[i as int], k as int, window_id));
                        return Some((ids[i], k));
                    }
                    k = k + 1;
                }
            }
            i = i + 1;
        }
        assert forall|session_id: Uuid, index: int|
            !#[trigger] self@.window_at(session_id, index, window_id) by {
            if self@.sessions.contains_key(session_id) {
                assert(self.sessions@.contains_key(session_id));
                let j = choose|j: int| 0 <= j < ids@.len() && ids@[j] == session_id;
                assert(!self@.window_at(ids@[j], index, window_id));
            }
        }
        None
    }

    /// Recomputes a window's size from the viewports of its clients. The result
    /// says which panes are to be resized, and to what; `None` means that there
    /// is no such window.
    pub fn recompute_window_geometry(&mut self, window_id: Uuid) -> (result: Option<WindowResize>)
        requires
            old(self).wf(),
            old(self)@.can_resize(window_id),
        ensures
            final(self).wf(),
            resized(old(self)@, final(self)@, window_id, result),
    {
        let (rows, cols): (u16, u16) = self.window_size(window_id);
        let (session_id, index): (Uuid, usize) = match self.find_window(window_id) {
            Some(place) => place,
            None => {
                return None;
            },
        };
        let mut session: SessionState = self.sessions.remove(&session_id).unwrap();
        let ghost was = session@;
        assert(old(self)@.sessions[session_id] == was);
        assert(session.windows@[index as int]@ == was.windows[index as int]);
        session.windows[index].rows = rows;
        session.windows[index].cols = cols;
        let rects = session.windows[index].layout.compute_geometry(rows, cols);
        let resizes = self.live_panes_of(&rects);
        self.sessions.insert(session_id, session);
        proof {
            let after = old(self)@.with_window_size(session_id, index as int, rows, cols);
            assert(session@.windows =~= after.sessions[session_id].windows);
            assert(self@.sessions =~= after.sessions);
        }
        Some(WindowResize { rows, cols, resizes })
    }

    /// Those of the placed panes that have a process, or had one.
    fn live_panes_of(&self, rects: &Vec<(Uuid, PtyRect)>) -> (live: Vec<(Uuid, PtyRect)>)
        ensures
            layout::placed(live@) == live_rects(self@.panes, layout::placed(rects@)),
    {
        let ghost all = layout::placed(rects@);
        let ghost is_live = |entry: (Uuid, Rect)|
            self@.panes.contains_key(entry.0) && self@.panes[entry.0] is Live;
        let mut live: Vec<(Uuid, PtyRect)> = Vec::new();
        let mut i: usize = 0;
        proof {
            reveal(Seq::filter);
            assert(all.take(0) =~= seq![]);
            assert(layout::placed(live@) =~= seq![]);
        }
        while i < rects.len()
            invariant
                i <= rects.len(),
                all == layout::placed(rects@),
                is_live == (|entry: (Uuid, Rect)|
                    self@.panes.contains_key(entry.0) && self@.panes[entry.0] is Live),
                layout::placed(live@) == all.take(i as int).filter(is_live),
            decreases rects.len() - i,
        {
            proof {
                reveal(Seq::filter);
                assert(all.take(i + 1).drop_last() =~= all.take(i as int));
                assert(all.take(i + 1).last() == (rects@[i as int].0, rects@[i as int].1@));
            }
            if let Some(PaneEntry::Live(_)) = self.panes.get(&rects[i].0) {
                let ghost before = live@;
                live.push(rects[i]);
                assert(layout::placed(live@) =~= layout::placed(before).push(
                    (rects@[i as int].0, rects@[i as int].1@),
                ));
            }
            i = i + 1;
        }
        assert(all.take(i as int) =~= all);
        live
    }

    /// Takes note of the size that a client reports for a window, and
    /// recomputes the window's size from it.
    pub fn report_viewport_and_recompute(
        &mut self,
        window_id: Uuid,
        client_id: u64,
        rows: u16,
        cols: u16,
    ) -> (result: Option<WindowResize>)
        requires
            old(self).wf(),
            old(self)@.with_viewport(window_id, client_id, rows, cols).can_resize(window_id),
        ensures
            final(self).wf(),
            resized(
                old(self)@.with_viewport(window_id, client_id, rows, cols),
                final(self)@,
                window_id,
                result,
            ),
    {
        self.report_viewport(window_id, client_id, rows, cols);
        self.recompute_window_geometry(window_id)
    }

    /// Takes note of the size that a client reports for a window.
    pub fn report_viewport(&mut self, window_id: Uuid, client_id: u64, rows: u16, cols: u16)
        requires
            old(self).wf(),
        ensures
            final(self).wf(),
            final(self)@ == old(self)@.with_viewport(window_id, client_id, rows, cols),
    {
        let mut clients: HashMap<u64, (u16, u16)> = match self.viewports.remove(&window_id) {
            Some(clients) => clients,
            None => HashMap::new(),
        };
        clients.insert(client_id, (rows, cols));
        self.viewports.insert(window_id, clients);
        assert(self@.viewports =~= old(self)@.with_viewport(
            window_id,
            client_id,
            rows,
            cols,
        ).viewports);
    }

    /// Forgets a client's viewport of a window.
    pub fn unregister_viewport(&mut self, window_id: Uuid, client_id: u64)
        requires
            old(self).wf(),
        ensures
            final(self).wf(),
            final(self)@ == old(self)@.without_viewport(window_id, client_id),
    {
        if let Some(mut clients) = self.viewports.remove(&window_id) {
            clients.remove(&client_id);
            self.viewports.insert(window_id, clients);
        }
        assert(self@.viewports =~= old(self)@.without_viewport(window_id, client_id).viewports);
    }

    /// How many clients are attached to the window.
    pub fn attached_client_count(&self, window_id: Uuid) -> (count: u32)
        ensures
            count == self@.clients_of(window_id) as u32,
    {
        match self.viewports.get(&window_id) {
            Some(clients) => clients.len() as u32,
            None => 0,
        }
    }

    /// An identifier for a client that attaches: one more than the last one
    /// handed out.
    pub fn new_client_id(&mut self) -> (client_id: u64)
        requires
            old(self).wf(),
        ensures
            final(self).wf(),
            client_id == old(self)@.next_client_id,
            final(self)@ == old(self)@.with_client(),
    {
        let client_id: u64 = self.next_client_id;
        self.next_client_id = client_id.wrapping_add(1);
        client_id
    }

    /// A window whose layout names the pane, if there is one.
    pub fn window_id_for_pane(&self, pane_id: Uuid) -> (found: Option<Uuid>)
        requires
            self.wf(),
        ensures
            match found {
                Some(window_id) => exists|session_id: Uuid| #[trigger]
                    self@.holder(session_id, pane_id) && window_id == self@.window_holding(
                        session_id,
                        pane_id,
                    ).id,
                None => forall|session_id: Uuid| !#[trigger] self@.holder(session_id, pane_id),
            },
    {
        let session_id: Uuid = match self.find_session(pane_id) {
            Some(session_id) => session_id,
            None => {
                return None;
            },
        };
        let session: &SessionState = self.sessions.get(&session_id).unwrap();
        assert(self@.sessions[session_id] == session@);
        let index: usize = session.window_of(pane_id).unwrap();
        assert(session@.windows[index as int] == session.windows@[index as int]@);
        Some(session.windows[index].id)
    }

    /// A picture of a window, if there is such a window.
    pub fn window_snapshot(&self, window_id: Uuid) -> (snapshot: Option<WindowSnapshot>)
        requires
            self.wf(),
        ensures
            match snapshot {
                Some(snapshot) => snapshot.layout.wf() && exists|session_id: Uuid, index: int|
                    #[trigger] self@.window_at(session_id, index, window_id) && snapshot@
                        == snapshot::window_picture(
                        self@.sessions[session_id].windows[index],
                        self@.panes,
                    ),
                None => forall|session_id: Uuid, index: int|
                    !#[trigger] self@.window_at(session_id, index, window_id),
            },
    {
        let (session_id, index): (Uuid, usize) = match self.find_window(window_id) {
            Some(place) => place,
            None => {
                return None;
            },
        };
        let session: &SessionState = self.sessions.get(&session_id).unwrap();
        assert(self@.sessions[session_id] == session@);
        assert(session@.windows[index as int] == session.windows@[index as int]@);
        Some(window_to_snapshot(&session.windows[index], &self.panes))
    }

    /// What to store of the session that the window belongs to, if there is
    /// such a window.
    pub fn record_for_window(&self, window_id: Uuid) -> (record: Option<PersistedSessionRecord>)
        requires
            self.wf(),
        ensures
            match record {
                Some(record) => record.wf() && exists|session_id: Uuid, index: int|
                    #[trigger] self@.window_at(session_id, index, window_id) && record@
                        == persistence::session_record(self@.sessions[session_id], self@.panes),
                None => forall|session_id: Uuid, index: int|
                    !#[trigger] self@.window_at(session_id, index, window_id),
            },
    {
        match self.find_window(window_id) {
            Some(place) => self.snapshot_persisted_record(place.0),
            None => None,
        }
    }

    /// Takes note that a live pane has a new size.
    pub fn pane_resized(&mut self, pane_id: Uuid, rows: u16, cols: u16)
        requires
            old(self).wf(),
        ensures
            final(self).wf(),
            final(self)@ == old(self)@.with_pane_size(pane_id, rows, cols),
    {
        if let Some(entry) = self.panes.remove(&pane_id) {
            let entry = match entry {
                PaneEntry::Live(pane) => PaneEntry::Live(LivePane { rows, cols, ..pane }),
                PaneEntry::Dead(record) => PaneEntry::Dead(record),
            };
            self.panes.insert(pane_id, entry);
        }
        assert(self@.panes =~= old(self)@.with_pane_size(pane_id, rows, cols).panes);
    }

    /// Takes note that a live pane's process has exited.
    pub fn pane_exited(&mut self, pane_id: Uuid)
        requires
            old(self).wf(),
        ensures
            final(self).wf(),
            final(self)@ == old(self)@.with_pane_exited(pane_id),
    {
        if let Some(entry) = self.panes.remove(&pane_id) {
            let entry = match entry {
                PaneEntry::Live(pane) => PaneEntry::Live(LivePane { exited: true, ..pane }),
                PaneEntry::Dead(record) => PaneEntry::Dead(record),
            };
            self.panes.insert(pane_id, entry);
        }
        assert(self@.panes =~= old(self)@.with_pane_exited(pane_id).panes);
    }

    /// Whether the pane's window has a geometry wherever the pane is found, and
    /// the pane one leaf in it if it is to be split.
    pub fn can_split(&self, pane_id: Uuid, orientation: Orientation) -> (yes: bool)
        requires
            self.wf(),
        ensures
            yes == self@.can_try_split(pane_id, orientation),
    {
        let ids = keys_of(&self.sessions);
        let mut i: usize = 0;
        while i < ids.len()
            invariant
                self.wf(),
                i <= ids.len(),
                forall|id: Uuid| ids@.contains(id) <==> #[trigger] self.sessions@.contains_key(id),
                forall|j: int|
                    0 <= j < i ==> self@.can_try_split_in(#[trigger] ids@[j], pane_id, orientation),
            decreases ids.len() - i,
        {
            assert(ids@.contains(ids@[i as int]));
            if let Some(session) = self.sessions.get(&ids[i]) {
                assert(self@.sessions[ids@[i as int]] == session@);
                if let Some(index) = session.window_of(pane_id) {
                    let window: &WindowState = &session.windows[index];
                    assert(session@.windows[index as int] == window@);
                    proof {
                        window.layout.lemma_leaf_ids();
                    }
                    if !window.layout.geometry_fits(window.rows, window.cols) {
                        assert(!self@.can_try_split_in(ids@[i as int], pane_id, orientation));
                        return false;
                    }
                    if window.layout.refuse_split(
                        pane_id,
                        orientation,
                        window.rows,
                        window.cols,
                    ).is_none() && !window.layout.names_once(pane_id) {
                        assert(!self@.can_try_split_in(ids@[i as int], pane_id, orientation));
                        return false;
                    }
                }
            }
            i = i + 1;
        }
        assert forall|session_id: Uuid| #[trigger]
            self@.holder(session_id, pane_id) implies self@.can_try_split_in(
            session_id,
            pane_id,
            orientation,
        ) by {
            assert(self.sessions@.contains_key(session_id));
            let j = choose|j: int| 0 <= j < ids@.len() && ids@[j] == session_id;
            assert(self@.can_try_split_in(ids@[j], pane_id, orientation));
        }
        true
    }

    /// Whether the window's layout has a geometry at the window's size, wherever
    /// the window is found.
    pub fn can_recompute(&self, window_id: Uuid) -> (yes: bool)
        requires
            self.wf(),
        ensures
            yes == self@.can_resize(window_id),
    {
        let (rows, cols): (u16, u16) = self.window_size(window_id);
        let ids = keys_of(&self.sessions);
        let mut i: usize = 0;
        while i < ids.len()
            invariant
                self.wf(),
                self@.effective_size(window_id, rows, cols),
                i <= ids.len(),
                forall|id: Uuid| ids@.contains(id) <==> #[trigger] self.sessions@.contains_key(id),
                forall|j: int, index: int|
                    0 <= j < i && #[trigger] self@.window_at(ids@[j], index, window_id)
                        ==> self@.sessions[ids@[j]].windows[index].layout.fits(
                        rows as int,
                        cols as int,
                    ),
            decreases ids.len() - i,
        {
            assert(ids@.contains(ids@[i as int]));
            if let Some(session) = self.sessions.get(&ids[i]) {
                assert(self@.sessions[ids@[i as int]] == session@);
                let mut k: usize = 0;
                while k < session.windows.len() && session.windows[k].id != window_id
                    invariant
                        k <= session.windows.len(),
                        forall|j: int|
                            0 <= j < k ==> (#[trigger] session@.windows[j]).id != window_id,
                    decreases session.windows.len() - k,
                {
                    assert(session@.windows[k as int] == session.windows@[k as int]@);
                    k = k + 1;
                }
                if k < session.windows.len() {
                    assert(session@.windows[k as int] == session.windows@[k as int]@);
                    assert(self@.window_at(ids@[i as int], k as int, window_id));
                    if !session.windows[k].layout.geometry_fits(rows, cols) {
                        return false;
                    }
                }
            }
            i = i + 1;
        }
        assert forall|session_id: Uuid, index: int, r: u16, c: u16|
            #[trigger] self@.window_at(session_id, index, window_id)
                && #[trigger] self@.effective_size(
                window_id,
                r,
                c,
            ) implies self@.sessions[session_id].windows[index].layout.fits(
            r as int,
            c as int,
        ) by {
            self@.lemma_effective_size_unique(window_id, rows, cols, r, c);
            assert(self.sessions@.contains_key(session_id));
            let j = choose|j: int| 0 <= j < ids@.len() && ids@[j] == session_id;
            assert(self@.window_at(ids@[j], index, window_id));
        }
        true
    }

    /// Drops the panes from the table. The result lists those whose processes
    /// are to be killed.
    fn forget_panes(&mut self, ids: &Vec<Uuid>) -> (kills: Vec<Uuid>)
        ensures
            kills@ == running_of(old(self)@.panes, ids@),
            final(self).sessions == old(self).sessions,
            final(self)@ == (EngineState {
                panes: old(self)@.panes.remove_keys(ids@.to_set()),
                ..old(self)@
            }),
    {
        let ghost before = self@.panes;
        let mut kills: Vec<Uuid> = Vec::new();
        let mut i: usize = 0;
        assert(ids@.take(0) =~= seq![]);
        assert(before.remove_keys(ids@.take(0).to_set()) =~= before);
        while i < ids.len()
            invariant
                i <= ids.len(),
                before == old(self)@.panes,
                kills@ == running_of(before, ids@.take(i as int)),
                self@.panes == before.remove_keys(ids@.take(i as int).to_set()),
                self.sessions == old(self).sessions,
                self.viewports == old(self).viewports,
                self.next_client_id == old(self).next_client_id,
            decreases ids.len() - i,
        {
            let ghost seen = ids@.take(i as int);
            let ghost id = ids@[i as int];
            let ghost now = self.panes@;
            proof {
                assert(ids@.take(i + 1).drop_last() =~= seen);
                assert(ids@.take(i + 1) =~= seen.push(id));
                assert(seen.push(id).to_set() =~= seen.to_set().insert(id)) by {
                    seen.lemma_push_to_set_commute(id);
                }
            }
            proof {
                assert(seen.to_set().contains(id) <==> seen.contains(id)) by {
                    broadcast use vstd::seq_lib::group_seq_properties;

                }
                assert(panes_view(now).contains_key(id) <==> before.contains_key(id)
                    && !seen.contains(id));
                assert(now.contains_key(id) ==> panes_view(now)[id] == now[id]@);
            }
            let entry = self.panes.remove(&ids[i]);
            proof {
                assert(panes_view(self.panes@) =~= panes_view(now).remove(id));
                assert(self@.panes =~= before.remove_keys(ids@.take(i + 1).to_set()));
            }
            if let Some(PaneEntry::Live(pane)) = entry {
                if !pane.exited {
                    kills.push(ids[i]);
                }
            }
            i = i + 1;
        }
        assert(ids@.take(i as int) =~= ids@);
        kills
    }
}

} // verus!
