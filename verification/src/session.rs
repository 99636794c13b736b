//! Sessions, their windows, and the panes that the windows' layouts name.

use crate::ids::Uuid;
use crate::layout::{LayoutNode, Tree};
use crate::persistence::{PaneRecord, PersistedPaneRecord};
use vstd::prelude::*;

verus! {

/// A pane with a process, or one whose process has exited and that has not
/// been closed yet.
#[derive(Debug, PartialEq)]
pub struct LivePane {
    /// The command line that the process runs.
    pub command: String,
    /// The directory that it was started in.
    pub cwd: String,
    pub rows: u16,
    pub cols: u16,
    /// Whether the process has exited.
    pub exited: bool,
}

/// What is known of a pane. `Dead` means that the pane comes from a stored
/// record and has not been revived: there is no process, only what is needed
/// to start one.
#[derive(Debug, PartialEq)]
pub enum PaneEntry {
    Live(LivePane),
    Dead(PersistedPaneRecord),
}

/// What [`PaneEntry`] stands for.
pub enum PaneState {
    Live { command: Seq<char>, cwd: Seq<char>, rows: u16, cols: u16, exited: bool },
    Dead(PaneRecord),
}

impl PaneState {
    /// Whether the pane has a process that is still running.
    pub open spec fn running(self) -> bool {
        self matches PaneState::Live { exited, .. } && !exited
    }
}

impl PaneState {
    /// At another size, if live.
    pub open spec fn resized(self, rows: u16, cols: u16) -> PaneState {
        match self {
            PaneState::Live { command, cwd, exited, .. } => PaneState::Live {
                command,
                cwd,
                rows,
                cols,
                exited,
            },
            PaneState::Dead(record) => PaneState::Dead(record),
        }
    }

    /// With its process gone, if live.
    pub open spec fn ended(self) -> PaneState {
        match self {
            PaneState::Live { command, cwd, rows, cols, .. } => PaneState::Live {
                command,
                cwd,
                rows,
                cols,
                exited: true,
            },
            PaneState::Dead(record) => PaneState::Dead(record),
        }
    }
}

impl View for LivePane {
    type V = PaneState;

    open spec fn view(&self) -> PaneState {
        PaneState::Live {
            command: self.command@,
            cwd: self.cwd@,
            rows: self.rows,
            cols: self.cols,
            exited: self.exited,
        }
    }
}

impl View for PaneEntry {
    type V = PaneState;

    open spec fn view(&self) -> PaneState {
        match self {
            PaneEntry::Live(pane) => pane@,
            PaneEntry::Dead(record) => PaneState::Dead(record@),
        }
    }
}

/// One window of a session.
#[derive(Debug, PartialEq)]
pub struct WindowState {
    pub id: Uuid,
    pub name: String,
    pub layout: LayoutNode,
    /// The window's current size: the least size over the viewports of the
    /// clients attached to it, or the default if there are none.
    pub rows: u16,
    pub cols: u16,
}

/// What [`WindowState`] stands for.
pub struct Window {
    pub id: Uuid,
    pub name: Seq<char>,
    pub layout: Tree<Uuid>,
    pub rows: u16,
    pub cols: u16,
}

impl WindowState {
    pub open spec fn wf(self) -> bool {
        self.layout.wf()
    }
}

impl View for WindowState {
    type V = Window;

    open spec fn view(&self) -> Window {
        Window {
            id: self.id,
            name: self.name@,
            layout: self.layout.tree(),
            rows: self.rows,
            cols: self.cols,
        }
    }
}

/// A session: a name and a row of windows, one of which is active.
#[derive(Debug, PartialEq)]
pub struct SessionState {
    pub id: Uuid,
    pub name: String,
    pub windows: Vec<WindowState>,
    pub active_window_id: Uuid,
}

/// What [`SessionState`] stands for.
pub struct Session {
    pub id: Uuid,
    pub name: Seq<char>,
    pub windows: Seq<Window>,
    pub active_window_id: Uuid,
}

impl SessionState {
    pub open spec fn wf(self) -> bool {
        forall|i: int| 0 <= i < self.windows@.len() ==> (#[trigger] self.windows@[i]).wf()
    }
}

impl View for SessionState {
    type V = Session;

    open spec fn view(&self) -> Session {
        Session {
            id: self.id,
            name: self.name@,
            windows: self.windows@.map_values(|w: WindowState| w@),
            active_window_id: self.active_window_id,
        }
    }
}

impl Session {
    /// The panes that the windows' leaves name, window by window.
    pub open spec fn pane_ids(self) -> Seq<Uuid> {
        pane_ids_of(self.windows)
    }

    /// Whether a window's layout names `pane_id`.
    pub open spec fn holds(self, pane_id: Uuid) -> bool {
        exists|i: int|
            0 <= i < self.windows.len() && (#[trigger] self.windows[i]).layout.leaves().contains(
                pane_id,
            )
    }

    /// The index of the first window whose layout names `pane_id`.
    pub open spec fn window_of(self, pane_id: Uuid) -> int {
        first_holding(self.windows, pane_id)
    }
}

/// The panes that a row of windows names, window by window.
pub open spec fn pane_ids_of(windows: Seq<Window>) -> Seq<Uuid>
    decreases windows.len(),
{
    if windows.len() == 0 {
        seq![]
    } else {
        pane_ids_of(windows.drop_last()) + windows.last().layout.leaves()
    }
}

/// The index of the first window that names `pane_id`, or the number of
/// windows if none does.
pub open spec fn first_holding(windows: Seq<Window>, pane_id: Uuid) -> int
    decreases windows.len(),
{
    if windows.len() == 0 {
        0
    } else if windows[0].layout.leaves().contains(pane_id) {
        0
    } else {
        1 + first_holding(windows.drop_first(), pane_id)
    }
}

impl SessionState {
    /// The panes that the windows' leaves name, window by window.
    pub fn pane_ids(&self) -> (ids: Vec<Uuid>)
        requires
            self.wf(),
        ensures
            ids@ == self@.pane_ids(),
    {
        let mut ids: Vec<Uuid> = Vec::new();
        let mut i: usize = 0;
        let ghost windows = self@.windows;
        assert(windows.take(0) =~= seq![]);
        while i < self.windows.len()
            invariant
                self.wf(),
                windows == self@.windows,
                i <= self.windows.len(),
                ids@ == pane_ids_of(windows.take(i as int)),
            decreases self.windows.len() - i,
        {
            let mut more: Vec<Uuid> = self.windows[i].layout.leaves();
            proof {
                self.windows@[i as int].layout.lemma_leaf_ids();
                assert(windows.take(i + 1).drop_last() =~= windows.take(i as int));
            }
            ids.append(&mut more);
            i = i + 1;
        }
        assert(windows.take(i as int) =~= windows);
        ids
    }

    /// The index of the first window whose layout names `pane_id`.
    pub fn window_of(&self, pane_id: Uuid) -> (found: Option<usize>)
        requires
            self.wf(),
        ensures
            found is Some <==> self@.holds(pane_id),
            found matches Some(i) ==> i < self.windows@.len() && i == self@.window_of(pane_id)
                && self@.windows[i as int].layout.leaves().contains(pane_id),
    {
        let ghost windows = self@.windows;
        let mut i: usize = 0;
        assert(windows.skip(0) =~= windows);
        while i < self.windows.len()
            invariant
                self.wf(),
                windows == self@.windows,
                i <= self.windows.len(),
                first_holding(windows, pane_id) == i + first_holding(
                    windows.skip(i as int),
                    pane_id,
                ),
                forall|j: int|
                    0 <= j < i ==> !(#[trigger] windows[j]).layout.leaves().contains(pane_id),
            decreases self.windows.len() - i,
        {
            proof {
                self.windows@[i as int].layout.lemma_leaf_ids();
                assert(windows.skip(i as int).drop_first() =~= windows.skip(i + 1));
            }
            if self.windows[i].layout.contains(pane_id) {
                assert(windows[i as int].layout.leaves().contains(pane_id));
                return Some(i);
            }
            i = i + 1;
        }
        None
    }
}

} // verus!
