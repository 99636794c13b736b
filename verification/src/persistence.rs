//! Stored sessions: what is written down of a session so that it can be
//! listed, and revived, after a restart.

use crate::engine;
use crate::ids::Uuid;
use crate::layout::{LayoutNode, Orientation, Tree};
use crate::ratio;
use crate::ratio::{sums_to_one, Ratio};
use crate::session::{PaneEntry, PaneState, Session, SessionState, Window, WindowState};
use std::collections::HashMap;
use vstd::prelude::*;

verus! {

/// The version of the records that this library writes and reads.
pub const CURRENT_SCHEMA_VERSION: u32 = 1;

/// What is needed to start a pane's process again.
#[derive(Debug, PartialEq)]
pub struct PersistedPaneRecord {
    pub pane_id: Uuid,
    pub command: String,
    pub cwd: String,
    pub rows: u16,
    pub cols: u16,
}

/// What [`PersistedPaneRecord`] stands for.
pub struct PaneRecord {
    pub pane_id: Uuid,
    pub command: Seq<char>,
    pub cwd: Seq<char>,
    pub rows: u16,
    pub cols: u16,
}

impl View for PersistedPaneRecord {
    type V = PaneRecord;

    open spec fn view(&self) -> PaneRecord {
        PaneRecord {
            pane_id: self.pane_id,
            command: self.command@,
            cwd: self.cwd@,
            rows: self.rows,
            cols: self.cols,
        }
    }
}

impl Clone for PersistedPaneRecord {
    fn clone(&self) -> (copy: Self)
        ensures
            copy@ == self@,
    {
        PersistedPaneRecord {
            pane_id: self.pane_id,
            command: self.command.clone(),
            cwd: self.cwd.clone(),
            rows: self.rows,
            cols: self.cols,
        }
    }
}

/// A window's layout with a full record at each leaf, since a stored session
/// has no live panes to refer to.
#[derive(Debug, PartialEq)]
pub enum PersistedLayoutNode {
    Leaf { pane: PersistedPaneRecord },
    Split {
        orientation: Orientation,
        /// Exactly two in a record that passes
        /// [`PersistedLayoutNode::validate_structure`].
        children: Vec<(PersistedLayoutNode, Ratio)>,
    },
}

impl Clone for PersistedLayoutNode {
    #[verifier::loop_isolation(false)]
    fn clone(&self) -> (copy: Self)
        ensures
            copy.wf() == self.wf(),
            self.wf() ==> copy.tree() == self.tree(),
        decreases self,
    {
        match self {
            PersistedLayoutNode::Leaf { pane } => PersistedLayoutNode::Leaf { pane: pane.clone() },
            PersistedLayoutNode::Split { orientation, children } => {
                let mut copies: Vec<(PersistedLayoutNode, Ratio)> = Vec::new();
                let mut i: usize = 0;
                while i < children.len()
                    invariant
                        i <= children.len(),
                        copies@.len() == i,
                        forall|j: int|
                            #![trigger copies@[j]]
                            0 <= j < i ==> copies@[j].1 == children@[j].1 && copies@[j].0.wf()
                                == children@[j].0.wf() && (children@[j].0.wf()
                                ==> copies@[j].0.tree() == children@[j].0.tree()),
                    decreases children.len() - i,
                {
                    copies.push((children[i].0.clone(), children[i].1));
                    i = i + 1;
                }
                PersistedLayoutNode::Split { orientation: *orientation, children: copies }
            },
        }
    }
}

/// What is wrong with the shape of a stored layout.
#[derive(Debug, Clone, Copy)]
pub enum StructureError {
    /// A split has this many children, not two.
    ChildCount { count: usize },
    /// The ratios of a split's children do not add up to one.
    RatioSum { first: Ratio, second: Ratio },
}

impl PersistedLayoutNode {
    /// Whether every split has exactly two children.
    pub open spec fn wf(self) -> bool
        decreases self,
    {
        match self {
            PersistedLayoutNode::Leaf { .. } => true,
            PersistedLayoutNode::Split { children, .. } => {
                &&& children@.len() == 2
                &&& children@[0].0.wf()
                &&& children@[1].0.wf()
            },
        }
    }

    /// The binary tree that a well-formed stored layout is.
    pub open spec fn tree(self) -> Tree<PaneRecord>
        decreases self,
        when self.wf()
    {
        match self {
            PersistedLayoutNode::Leaf { pane } => Tree::Leaf(pane@),
            PersistedLayoutNode::Split { orientation, children } => Tree::Split {
                orientation,
                first: Box::new(children@[0].0.tree()),
                first_ratio: children@[0].1,
                second: Box::new(children@[1].0.tree()),
                second_ratio: children@[1].1,
            },
        }
    }

    /// The first fault in the layout's shape, a split before its children and
    /// the first child before the second.
    pub open spec fn fault(self) -> Option<StructureError>
        decreases self,
    {
        match self {
            PersistedLayoutNode::Leaf { .. } => None,
            PersistedLayoutNode::Split { children, .. } => {
                if children@.len() != 2 {
                    Some(StructureError::ChildCount { count: children@.len() as usize })
                } else if !ratio::complementary(children@[0].1, children@[1].1) {
                    Some(StructureError::RatioSum { first: children@[0].1, second: children@[1].1 })
                } else {
                    match children@[0].0.fault() {
                        Some(fault) => Some(fault),
                        None => children@[1].0.fault(),
                    }
                }
            },
        }
    }

    /// A layout has no fault exactly if every split has two children whose
    /// ratios add up to one.
    pub proof fn lemma_faultless(self)
        ensures
            self.fault() is None <==> self.wf() && self.tree().balanced(),
        decreases self,
    {
        if let PersistedLayoutNode::Split { children, .. } = self {
            if children@.len() == 2 {
                children@[0].0.lemma_faultless();
                children@[1].0.lemma_faultless();
            }
        }
    }

    /// Checks that every split has exactly two children whose ratios add up to
    /// one, as a live layout's do.
    pub fn validate_structure(&self) -> (result: Result<(), StructureError>)
        ensures
            match self.fault() {
                Some(fault) => result == Err::<(), StructureError>(fault),
                None => result is Ok,
            },
            result is Ok <==> self.wf() && self.tree().balanced(),
        decreases self,
    {
        proof {
            self.lemma_faultless();
        }
        match self {
            PersistedLayoutNode::Leaf { .. } => Ok(()),
            PersistedLayoutNode::Split { children, .. } => {
                if children.len() != 2 {
                    return Err(StructureError::ChildCount { count: children.len() });
                }
                if !sums_to_one(children[0].1, children[1].1) {
                    return Err(
                        StructureError::RatioSum { first: children[0].1, second: children[1].1 },
                    );
                }
                match children[0].0.validate_structure() {
                    Err(fault) => Err(fault),
                    Ok(()) => children[1].0.validate_structure(),
                }
            },
        }
    }
}

/// The record of a pane: what a live pane runs, where, and at what size; the
/// record that a dead pane came from; a blank one for a pane that is not known.
pub open spec fn record_of(pane_id: Uuid, panes: Map<Uuid, PaneState>) -> PaneRecord {
    if panes.contains_key(pane_id) {
        match panes[pane_id] {
            PaneState::Live { command, cwd, rows, cols, .. } => PaneRecord {
                pane_id,
                command,
                cwd,
                rows,
                cols,
            },
            PaneState::Dead(record) => record,
        }
    } else {
        PaneRecord { pane_id, command: seq![], cwd: seq![], rows: 0, cols: 0 }
    }
}

/// Whether the record of every dead pane stands under the pane's own identifier.
pub open spec fn filed(panes: Map<Uuid, PaneState>) -> bool {
    forall|pane_id: Uuid| #[trigger]
        panes.contains_key(pane_id) ==> (panes[pane_id] matches PaneState::Dead(record)
            ==> record.pane_id == pane_id)
}

/// A live layout, with a record at each leaf.
pub open spec fn recorded(layout: Tree<Uuid>, panes: Map<Uuid, PaneState>) -> Tree<PaneRecord> {
    layout.map_leaves(|pane_id: Uuid| record_of(pane_id, panes))
}

impl PersistedLayoutNode {
    /// The record of a live layout.
    pub(crate) fn from_live(node: &LayoutNode, panes: &HashMap<Uuid, PaneEntry>) -> (record: Self)
        requires
            node.wf(),
        ensures
            record.wf(),
            record.tree() == recorded(node.tree(), engine::panes_view(panes@)),
        decreases node,
    {
        broadcast use vstd::std_specs::hash::group_hash_axioms;

        match node {
            LayoutNode::Leaf { pane_id } => {
                let pane = match panes.get(pane_id) {
                    Some(PaneEntry::Live(pane)) => PersistedPaneRecord {
                        pane_id: *pane_id,
                        command: pane.command.clone(),
                        cwd: pane.cwd.clone(),
                        rows: pane.rows,
                        cols: pane.cols,
                    },
                    Some(PaneEntry::Dead(record)) => record.clone(),
                    None => PersistedPaneRecord {
                        pane_id: *pane_id,
                        command: String::new(),
                        cwd: String::new(),
                        rows: 0,
                        cols: 0,
                    },
                };
                PersistedLayoutNode::Leaf { pane }
            },
            LayoutNode::Split { orientation, children } => {
                let first = PersistedLayoutNode::from_live(&children[0].0, panes);
                let second = PersistedLayoutNode::from_live(&children[1].0, panes);
                PersistedLayoutNode::Split {
                    orientation: *orientation,
                    children: vec![(first, children[0].1), (second, children[1].1)],
                }
            },
        }
    }
}

/// A table of panes, with a dead entry put in for each record in turn.
pub open spec fn with_dead(panes: Map<Uuid, PaneState>, records: Seq<PaneRecord>) -> Map<
    Uuid,
    PaneState,
>
    decreases records.len(),
{
    if records.len() == 0 {
        panes
    } else {
        with_dead(panes, records.drop_last()).insert(
            records.last().pane_id,
            PaneState::Dead(records.last()),
        )
    }
}

/// Entering two rows of dead panes in turn is entering them all.
pub proof fn lemma_with_dead_concat(
    panes: Map<Uuid, PaneState>,
    a: Seq<PaneRecord>,
    b: Seq<PaneRecord>,
)
    ensures
        with_dead(panes, a + b) == with_dead(with_dead(panes, a), b),
    decreases b.len(),
{
    if b.len() == 0 {
        assert(a + b =~= a);
    } else {
        assert((a + b).drop_last() =~= a + b.drop_last());
        lemma_with_dead_concat(panes, a, b.drop_last());
    }
}

/// Entering dead panes keeps every record under its pane's own identifier.
pub proof fn lemma_with_dead_filed(panes: Map<Uuid, PaneState>, records: Seq<PaneRecord>)
    requires
        filed(panes),
    ensures
        filed(with_dead(panes, records)),
    decreases records.len(),
{
    if records.len() > 0 {
        lemma_with_dead_filed(panes, records.drop_last());
    }
}

/// The layout that a stored one is, by its panes' identifiers.
pub open spec fn restored(layout: Tree<PaneRecord>) -> Tree<Uuid> {
    layout.map_leaves(|record: PaneRecord| record.pane_id)
}

/// Rebuilds a live layout from a stored one, and enters a dead pane for every
/// leaf.
pub(crate) fn persisted_layout_to_live(
    node: &PersistedLayoutNode,
    panes: &mut HashMap<Uuid, PaneEntry>,
) -> (layout: LayoutNode)
    requires
        node.wf(),
    ensures
        layout.wf(),
        layout.tree() == restored(node.tree()),
        engine::panes_view(final(panes)@) == with_dead(
            engine::panes_view(old(panes)@),
            node.tree().leaves(),
        ),
    decreases node,
{
    broadcast use vstd::std_specs::hash::group_hash_axioms;

    match node {
        PersistedLayoutNode::Leaf { pane } => {
            let ghost before = engine::panes_view(panes@);
            panes.insert(pane.pane_id, PaneEntry::Dead(pane.clone()));
            proof {
                let records = seq![pane@];
                assert(records.drop_last() =~= seq![]);
                assert(with_dead(before, records.drop_last()) == before);
                assert(engine::panes_view(panes@) =~= before.insert(
                    pane@.pane_id,
                    PaneState::Dead(pane@),
                ));
            }
            LayoutNode::leaf(pane.pane_id)
        },
        PersistedLayoutNode::Split { orientation, children } => {
            let ghost before = engine::panes_view(panes@);
            let first = persisted_layout_to_live(&children[0].0, panes);
            let second = persisted_layout_to_live(&children[1].0, panes);
            proof {
                lemma_with_dead_concat(
                    before,
                    children@[0].0.tree().leaves(),
                    children@[1].0.tree().leaves(),
                );
            }
            LayoutNode::Split {
                orientation: *orientation,
                children: vec![(first, children[0].1), (second, children[1].1)],
            }
        },
    }
}

/// A stored window.
#[derive(Debug, PartialEq)]
pub struct PersistedWindowRecord {
    pub id: Uuid,
    pub name: String,
    pub layout: PersistedLayoutNode,
}

/// What [`PersistedWindowRecord`] stands for.
pub struct WindowRecord {
    pub id: Uuid,
    pub name: Seq<char>,
    pub layout: Tree<PaneRecord>,
}

impl View for PersistedWindowRecord {
    type V = WindowRecord;

    open spec fn view(&self) -> WindowRecord {
        WindowRecord { id: self.id, name: self.name@, layout: self.layout.tree() }
    }
}

impl Clone for PersistedWindowRecord {
    fn clone(&self) -> (copy: Self)
        ensures
            copy.layout.wf() == self.layout.wf(),
            self.layout.wf() ==> copy@ == self@,
    {
        PersistedWindowRecord {
            id: self.id,
            name: self.name.clone(),
            layout: self.layout.clone(),
        }
    }
}

/// A stored session.
#[derive(Debug, PartialEq)]
pub struct PersistedSessionRecord {
    pub schema_version: u32,
    pub session_id: Uuid,
    pub name: String,
    pub windows: Vec<PersistedWindowRecord>,
    pub active_window_id: Uuid,
}

/// What [`PersistedSessionRecord`] stands for.
pub struct SessionRecord {
    pub schema_version: u32,
    pub session_id: Uuid,
    pub name: Seq<char>,
    pub windows: Seq<WindowRecord>,
    pub active_window_id: Uuid,
}

impl View for PersistedSessionRecord {
    type V = SessionRecord;

    open spec fn view(&self) -> SessionRecord {
        SessionRecord {
            schema_version: self.schema_version,
            session_id: self.session_id,
            name: self.name@,
            windows: self.windows@.map_values(|w: PersistedWindowRecord| w@),
            active_window_id: self.active_window_id,
        }
    }
}

impl Clone for PersistedSessionRecord {
    fn clone(&self) -> (copy: Self)
        ensures
            copy.wf() == self.wf(),
            self.wf() ==> copy@ == self@,
    {
        let mut windows: Vec<PersistedWindowRecord> = Vec::new();
        let mut i: usize = 0;
        while i < self.windows.len()
            invariant
                i <= self.windows.len(),
                windows@.len() == i,
                forall|j: int|
                    #![trigger windows@[j]]
                    0 <= j < i ==> windows@[j].layout.wf() == self.windows@[j].layout.wf() && (
                    self.windows@[j].layout.wf() ==> windows@[j]@ == self.windows@[j]@),
            decreases self.windows.len() - i,
        {
            windows.push(self.windows[i].clone());
            i = i + 1;
        }
        let copy = PersistedSessionRecord {
            schema_version: self.schema_version,
            session_id: self.session_id,
            name: self.name.clone(),
            windows,
            active_window_id: self.active_window_id,
        };
        proof {
            if self.wf() {
                assert(copy@.windows =~= self@.windows);
            }
            if copy.wf() {
                assert forall|j: int| 0 <= j < self.windows@.len() implies (
                #[trigger] self.windows@[j]).layout.wf() by {
                    assert(windows@[j].layout.wf());
                }
            }
        }
        copy
    }
}

/// Why a stored session cannot be loaded.
#[derive(Debug, Clone, Copy)]
pub enum RecordError {
    /// The record was written under a version that is not known here.
    UnknownVersion { found: u32 },
    /// A window's layout is malformed.
    Structure(StructureError),
}

/// The record of a window.
pub open spec fn window_record(window: Window, panes: Map<Uuid, PaneState>) -> WindowRecord {
    WindowRecord { id: window.id, name: window.name, layout: recorded(window.layout, panes) }
}

/// The record of a session.
pub open spec fn session_record(session: Session, panes: Map<Uuid, PaneState>) -> SessionRecord {
    SessionRecord {
        schema_version: CURRENT_SCHEMA_VERSION,
        session_id: session.id,
        name: session.name,
        windows: session.windows.map_values(|w: Window| window_record(w, panes)),
        active_window_id: session.active_window_id,
    }
}

/// The first fault in a row of windows, if there is one.
pub open spec fn windows_fault(windows: Seq<PersistedWindowRecord>) -> Option<StructureError>
    decreases windows.len(),
{
    if windows.len() == 0 {
        None
    } else {
        match windows[0].layout.fault() {
            Some(fault) => Some(fault),
            None => windows_fault(windows.drop_first()),
        }
    }
}

impl PersistedSessionRecord {
    /// Whether every split of every window has exactly two children.
    pub open spec fn wf(self) -> bool {
        forall|i: int| 0 <= i < self.windows@.len() ==> (#[trigger] self.windows@[i]).layout.wf()
    }

    /// Why the record cannot be loaded, if it cannot.
    pub open spec fn refusal(self) -> Option<RecordError> {
        if self.schema_version != CURRENT_SCHEMA_VERSION {
            Some(RecordError::UnknownVersion { found: self.schema_version })
        } else {
            match windows_fault(self.windows@) {
                Some(fault) => Some(RecordError::Structure(fault)),
                None => None,
            }
        }
    }

    /// The record of a live session.
    pub fn from_session_state(session: &SessionState, panes: &HashMap<Uuid, PaneEntry>) -> (record:
        Self)
        requires
            session.wf(),
        ensures
            record.wf(),
            record@ == session_record(session@, engine::panes_view(panes@)),
    {
        let ghost table = engine::panes_view(panes@);
        let mut windows: Vec<PersistedWindowRecord> = Vec::new();
        let mut i: usize = 0;
        while i < session.windows.len()
            invariant
                session.wf(),
                table == engine::panes_view(panes@),
                i <= session.windows.len(),
                windows@.len() == i,
                forall|j: int|
                    #![trigger windows@[j]]
                    0 <= j < i ==> windows@[j].layout.wf() && windows@[j]@ == window_record(
                        session.windows@[j]@,
                        table,
                    ),
            decreases session.windows.len() - i,
        {
            let window: &WindowState = &session.windows[i];
            windows.push(
                PersistedWindowRecord {
                    id: window.id,
                    name: window.name.clone(),
                    layout: PersistedLayoutNode::from_live(&window.layout, panes),
                },
            );
            i = i + 1;
        }
        let record = PersistedSessionRecord {
            schema_version: CURRENT_SCHEMA_VERSION,
            session_id: session.id,
            name: session.name.clone(),
            windows,
            active_window_id: session.active_window_id,
        };
        assert(record@.windows =~= session_record(session@, table).windows);
        record
    }

    /// Whether the record can be loaded: its version is known and every
    /// window's layout is well formed.
    pub fn validate(&self) -> (result: Result<(), RecordError>)
        ensures
            match self.refusal() {
                Some(error) => result == Err::<(), RecordError>(error),
                None => result is Ok,
            },
            result is Ok ==> self.wf(),
    {
        if self.schema_version != CURRENT_SCHEMA_VERSION {
            return Err(RecordError::UnknownVersion { found: self.schema_version });
        }
        let mut i: usize = 0;
        assert(self.windows@.skip(0) =~= self.windows@);
        while i < self.windows.len()
            invariant
                i <= self.windows.len(),
                self.schema_version == CURRENT_SCHEMA_VERSION,
                windows_fault(self.windows@) == windows_fault(self.windows@.skip(i as int)),
                forall|j: int| 0 <= j < i ==> (#[trigger] self.windows@[j]).layout.wf(),
            decreases self.windows.len() - i,
        {
            assert(self.windows@.skip(i as int).drop_first() =~= self.windows@.skip(i + 1));
            match self.windows[i].layout.validate_structure() {
                Err(fault) => {
                    return Err(RecordError::Structure(fault));
                },
                Ok(()) => {},
            }
            i = i + 1;
        }
        Ok(())
    }
}

/// A record that could not be stored, and why.
#[derive(Debug)]
pub struct SaveError {
    pub message: String,
}

/// Where stored sessions are kept.
pub trait PersistenceBackend: Send + Sync {
    /// Stores a session, in place of what is stored of it.
    fn save(&self, record: &PersistedSessionRecord) -> Result<(), SaveError>;

    /// The stored sessions that can be loaded.
    fn load_all(&self) -> Vec<PersistedSessionRecord>;

    /// Removes what is stored of a session.
    fn delete(&self, session_id: Uuid);
}

/// Keeps nothing.
#[derive(Debug)]
pub struct NullPersistenceBackend;

impl PersistenceBackend for NullPersistenceBackend {
    fn save(&self, record: &PersistedSessionRecord) -> (result: Result<(), SaveError>)
        ensures
            result is Ok,
    {
        Ok(())
    }

    fn load_all(&self) -> (records: Vec<PersistedSessionRecord>)
        ensures
            records@.len() == 0,
    {
        Vec::new()
    }

    fn delete(&self, session_id: Uuid) {
    }
}

} // verus!
