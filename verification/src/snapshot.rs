//! Read-only pictures of sessions and windows, with what is known of each pane
//! at the leaf that names it.

use crate::engine;
use crate::ids::Uuid;
use crate::layout::{LayoutNode, Orientation, Tree};
use crate::ratio::Ratio;
use crate::session::{PaneEntry, PaneState, Session, SessionState, Window, WindowState};
use std::collections::HashMap;
use vstd::prelude::*;

verus! {

/// What a snapshot says of a pane. `live` means that its process is running.
#[derive(Debug, Clone, Copy, PartialEq, Eq, Structural)]
pub struct PaneInfo {
    pub id: Uuid,
    pub rows: u32,
    pub cols: u32,
    pub live: bool,
}

/// A window's layout, with what is known of each pane.
#[derive(Debug, PartialEq)]
pub enum LayoutSnapshot {
    Leaf(PaneInfo),
    Split { orientation: Orientation, children: Vec<(LayoutSnapshot, Ratio)> },
}

impl LayoutSnapshot {
    /// Whether every split has exactly two children.
    pub open spec fn wf(self) -> bool
        decreases self,
    {
        match self {
            LayoutSnapshot::Leaf(_) => true,
            LayoutSnapshot::Split { children, .. } => {
                &&& children@.len() == 2
                &&& children@[0].0.wf()
                &&& children@[1].0.wf()
            },
        }
    }

    /// The binary tree that a well-formed snapshot is.
    pub open spec fn tree(self) -> Tree<PaneInfo>
        decreases self,
        when self.wf()
    {
        match self {
            LayoutSnapshot::Leaf(info) => Tree::Leaf(info),
            LayoutSnapshot::Split { orientation, children } => Tree::Split {
                orientation,
                first: Box::new(children@[0].0.tree()),
                first_ratio: children@[0].1,
                second: Box::new(children@[1].0.tree()),
                second_ratio: children@[1].1,
            },
        }
    }
}

/// What is known of a pane: a live pane's size and whether it runs, a dead
/// pane's recorded size, and no size at all for a pane that is not known.
pub open spec fn info_of(pane_id: Uuid, panes: Map<Uuid, PaneState>) -> PaneInfo {
    if panes.contains_key(pane_id) {
        match panes[pane_id] {
            PaneState::Live { rows, cols, exited, .. } => PaneInfo {
                id: pane_id,
                rows: rows as u32,
                cols: cols as u32,
                live: !exited,
            },
            PaneState::Dead(record) => PaneInfo {
                id: pane_id,
                rows: record.rows as u32,
                cols: record.cols as u32,
                live: false,
            },
        }
    } else {
        PaneInfo { id: pane_id, rows: 0, cols: 0, live: false }
    }
}

/// A layout, with what is known of each pane.
pub open spec fn pictured(layout: Tree<Uuid>, panes: Map<Uuid, PaneState>) -> Tree<PaneInfo> {
    layout.map_leaves(|pane_id: Uuid| info_of(pane_id, panes))
}

/// A picture of a layout.
pub(crate) fn layout_to_snapshot(node: &LayoutNode, panes: &HashMap<Uuid, PaneEntry>) -> (snapshot:
    LayoutSnapshot)
    requires
        node.wf(),
    ensures
        snapshot.wf(),
        snapshot.tree() == pictured(node.tree(), engine::panes_view(panes@)),
    decreases node,
{
    broadcast use vstd::std_specs::hash::group_hash_axioms;

    match node {
        LayoutNode::Leaf { pane_id } => {
            let (rows, cols, live): (u32, u32, bool) = match panes.get(pane_id) {
                Some(PaneEntry::Live(pane)) => (pane.rows as u32, pane.cols as u32, !pane.exited),
                Some(PaneEntry::Dead(record)) => (record.rows as u32, record.cols as u32, false),
                None => (0, 0, false),
            };
            LayoutSnapshot::Leaf(PaneInfo { id: *pane_id, rows, cols, live })
        },
        LayoutNode::Split { orientation, children } => {
            let first = layout_to_snapshot(&children[0].0, panes);
            let second = layout_to_snapshot(&children[1].0, panes);
            LayoutSnapshot::Split {
                orientation: *orientation,
                children: vec![(first, children[0].1), (second, children[1].1)],
            }
        },
    }
}

/// Whether a leaf of the layout is live.
pub open spec fn any_live(layout: Tree<PaneInfo>) -> bool
    decreases layout,
{
    match layout {
        Tree::Leaf(info) => info.live,
        Tree::Split { first, second, .. } => any_live(*first) || any_live(*second),
    }
}

/// Whether a pane of the window is live.
pub(crate) fn window_has_live_pane(layout: &LayoutSnapshot) -> (live: bool)
    requires
        layout.wf(),
    ensures
        live == any_live(layout.tree()),
    decreases layout,
{
    match layout {
        LayoutSnapshot::Leaf(info) => info.live,
        LayoutSnapshot::Split { children, .. } => window_has_live_pane(&children[0].0)
            || window_has_live_pane(&children[1].0),
    }
}

/// A picture of a window.
#[derive(Debug, PartialEq)]
pub struct WindowSnapshot {
    pub id: Uuid,
    pub name: String,
    pub layout: LayoutSnapshot,
}

/// What [`WindowSnapshot`] stands for.
pub struct WindowPicture {
    pub id: Uuid,
    pub name: Seq<char>,
    pub layout: Tree<PaneInfo>,
}

impl View for WindowSnapshot {
    type V = WindowPicture;

    open spec fn view(&self) -> WindowPicture {
        WindowPicture { id: self.id, name: self.name@, layout: self.layout.tree() }
    }
}

/// A picture of a session. `live` means that some pane of it is live.
#[derive(Debug, PartialEq)]
pub struct SessionSnapshot {
    pub id: Uuid,
    pub name: String,
    pub windows: Vec<WindowSnapshot>,
    pub live: bool,
}

/// What [`SessionSnapshot`] stands for.
pub struct SessionPicture {
    pub id: Uuid,
    pub name: Seq<char>,
    pub windows: Seq<WindowPicture>,
    pub live: bool,
}

impl SessionSnapshot {
    /// Whether every split of every window has exactly two children.
    pub open spec fn wf(self) -> bool {
        forall|i: int| 0 <= i < self.windows@.len() ==> (#[trigger] self.windows@[i]).layout.wf()
    }
}

impl View for SessionSnapshot {
    type V = SessionPicture;

    open spec fn view(&self) -> SessionPicture {
        SessionPicture {
            id: self.id,
            name: self.name@,
            windows: self.windows@.map_values(|w: WindowSnapshot| w@),
            live: self.live,
        }
    }
}

/// What a snapshot of a window shows.
pub open spec fn window_picture(window: Window, panes: Map<Uuid, PaneState>) -> WindowPicture {
    WindowPicture { id: window.id, name: window.name, layout: pictured(window.layout, panes) }
}

/// What a snapshot of a session shows.
pub open spec fn session_picture(session: Session, panes: Map<Uuid, PaneState>) -> SessionPicture {
    let windows = session.windows.map_values(|w: Window| window_picture(w, panes));
    SessionPicture {
        id: session.id,
        name: session.name,
        windows,
        live: exists|i: int| 0 <= i < windows.len() && any_live((#[trigger] windows[i]).layout),
    }
}

/// A picture of a window.
pub(crate) fn window_to_snapshot(
    window: &WindowState,
    panes: &HashMap<Uuid, PaneEntry>,
) -> (snapshot: WindowSnapshot)
    requires
        window.wf(),
    ensures
        snapshot.layout.wf(),
        snapshot@ == window_picture(window@, engine::panes_view(panes@)),
{
    WindowSnapshot {
        id: window.id,
        name: window.name.clone(),
        layout: layout_to_snapshot(&window.layout, panes),
    }
}

/// A picture of a session.
pub(crate) fn session_to_snapshot(
    session: &SessionState,
    panes: &HashMap<Uuid, PaneEntry>,
) -> (snapshot: SessionSnapshot)
    requires
        session.wf(),
    ensures
        snapshot.wf(),
        snapshot@ == session_picture(session@, engine::panes_view(panes@)),
{
    let ghost table = engine::panes_view(panes@);
    let mut windows: Vec<WindowSnapshot> = Vec::new();
    let mut live: bool = false;
    let mut i: usize = 0;
    while i < session.windows.len()
        invariant
            session.wf(),
            table == engine::panes_view(panes@),
            i <= session.windows.len(),
            windows@.len() == i,
            forall|j: int|
                #![trigger windows@[j]]
                0 <= j < i ==> windows@[j].layout.wf() && windows@[j]@ == window_picture(
                    session.windows@[j]@,
                    table,
                ),
            live == exists|j: int| 0 <= j < i && any_live((#[trigger] windows@[j]).layout.tree()),
        decreases session.windows.len() - i,
    {
        let ghost before = windows@;
        let window = window_to_snapshot(&session.windows[i], panes);
        let here: bool = window_has_live_pane(&window.layout);
        windows.push(window);
        proof {
            assert forall|j: int| 0 <= j < i implies windows@[j] == before[j] by {}
            if live {
                let j = choose|j: int| 0 <= j < i && any_live((#[trigger] before[j]).layout.tree());
                assert(any_live(windows@[j].layout.tree()));
            }
            if here {
                assert(any_live(windows@[i as int].layout.tree()));
            }
        }
        live = live || here;
        i = i + 1;
    }
    let snapshot = SessionSnapshot { id: session.id, name: session.name.clone(), windows, live };
    proof {
        let picture = session_picture(session@, table);
        assert(snapshot@.windows =~= picture.windows);
        if live {
            let j = choose|j: int|
                0 <= j < windows@.len() && any_live((#[trigger] windows@[j]).layout.tree());
            assert(any_live(picture.windows[j].layout));
        }
        if picture.live {
            let j = choose|j: int|
                0 <= j < picture.windows.len() && any_live((#[trigger] picture.windows[j]).layout);
            assert(any_live(windows@[j].layout.tree()));
        }
    }
    snapshot
}

proof fn lemma_live_layout(layout: Tree<Uuid>, panes: Map<Uuid, PaneState>)
    ensures
        any_live(pictured(layout, panes)) <==> exists|i: int|
            0 <= i < layout.leaves().len() && is_running(panes, #[trigger] layout.leaves()[i]),
    decreases layout,
{
    match layout {
        Tree::Leaf(pane_id) => {
            assert(layout.leaves()[0] == pane_id);
        },
        Tree::Split { first, second, .. } => {
            let a = first.leaves();
            let b = second.leaves();
            let all = layout.leaves();
            lemma_live_layout(*first, panes);
            lemma_live_layout(*second, panes);
            if any_live(pictured(*first, panes)) {
                let i = choose|i: int| 0 <= i < a.len() && is_running(panes, #[trigger] a[i]);
                assert(all[i] == a[i]);
            }
            if any_live(pictured(*second, panes)) {
                let i = choose|i: int| 0 <= i < b.len() && is_running(panes, #[trigger] b[i]);
                assert(all[a.len() + i] == b[i]);
            }
            if exists|i: int| 0 <= i < all.len() && is_running(panes, #[trigger] all[i]) {
                let i = choose|i: int| 0 <= i < all.len() && is_running(panes, #[trigger] all[i]);
                if i < a.len() {
                    assert(is_running(panes, a[i]));
                } else {
                    assert(is_running(panes, b[i - a.len()]));
                }
            }
        },
    }
}

/// Whether the pane is known and its process is running.
pub open spec fn is_running(panes: Map<Uuid, PaneState>, pane_id: Uuid) -> bool {
    panes.contains_key(pane_id) && match panes[pane_id] {
        PaneState::Live { exited, .. } => !exited,
        PaneState::Dead(_) => false,
    }
}

/// A session is shown as live exactly if some pane that a window of it names is
/// running.
pub proof fn lemma_session_is_live_if_some_pane_runs(session: Session, panes: Map<Uuid, PaneState>)
    ensures
        session_picture(session, panes).live <==> exists|w: int, i: int|
            0 <= w < session.windows.len() && 0 <= i < session.windows[w].layout.leaves().len()
                && is_running(panes, #[trigger] session.windows[w].layout.leaves()[i]),
{
    let picture = session_picture(session, panes);
    if picture.live {
        let w = choose|w: int|
            0 <= w < picture.windows.len() && any_live((#[trigger] picture.windows[w]).layout);
        lemma_live_layout(session.windows[w].layout, panes);
        let leaves = session.windows[w].layout.leaves();
        let i = choose|i: int| 0 <= i < leaves.len() && is_running(panes, #[trigger] leaves[i]);
        assert(is_running(panes, session.windows[w].layout.leaves()[i]));
    }
    if exists|w: int, i: int|
        0 <= w < session.windows.len() && 0 <= i < session.windows[w].layout.leaves().len()
            && is_running(panes, #[trigger] session.windows[w].layout.leaves()[i]) {
        let (w, i) = choose|w: int, i: int|
            0 <= w < session.windows.len() && 0 <= i < session.windows[w].layout.leaves().len()
                && is_running(panes, #[trigger] session.windows[w].layout.leaves()[i]);
        lemma_live_layout(session.windows[w].layout, panes);
        assert(any_live(picture.windows[w].layout));
    }
}

/// A picture shows the session under its own identifier and name, and its windows in
/// their order, each under its own identifier and name.
pub proof fn lemma_picture_keeps_names_and_order(session: Session, panes: Map<Uuid, PaneState>)
    ensures
        ({
            let picture = session_picture(session, panes);
            &&& picture.id == session.id
            &&& picture.name == session.name
            &&& picture.windows.len() == session.windows.len()
            &&& forall|w: int|
                #![trigger picture.windows[w]]
                0 <= w < session.windows.len() ==> picture.windows[w].id == session.windows[w].id
                    && picture.windows[w].name == session.windows[w].name
        }),
{
}

/// A picture of a layout has the layout's shape: the same splits, with the same
/// orientations and ratios, over leaves that name the same panes in the same order.
/// Each leaf tells the pane's size and whether it runs.
pub proof fn lemma_picture_keeps_the_shape(layout: Tree<Uuid>, panes: Map<Uuid, PaneState>)
    ensures
        pictured(layout, panes).map_leaves(|info: PaneInfo| info.id) == layout,
        pictured(layout, panes).leaves().len() == layout.leaves().len(),
        forall|i: int|
            #![trigger pictured(layout, panes).leaves()[i]]
            0 <= i < layout.leaves().len() ==> tells(
                pictured(layout, panes).leaves()[i],
                panes,
                layout.leaves()[i],
            ),
    decreases layout,
{
    match layout {
        Tree::Leaf(pane_id) => {
            assert(pictured(layout, panes).leaves() =~= seq![info_of(pane_id, panes)]);
        },
        Tree::Split { first, second, .. } => {
            lemma_picture_keeps_the_shape(*first, panes);
            lemma_picture_keeps_the_shape(*second, panes);
            let a = pictured(*first, panes).leaves();
            let b = pictured(*second, panes).leaves();
            assert(pictured(layout, panes).leaves() == a + b);
            assert forall|i: int|
                #![trigger pictured(layout, panes).leaves()[i]]
                0 <= i < layout.leaves().len() implies tells(
                pictured(layout, panes).leaves()[i],
                panes,
                layout.leaves()[i],
            ) by {
                if i < a.len() {
                    assert(tells(a[i], panes, first.leaves()[i]));
                } else {
                    assert(tells(b[i - a.len()], panes, second.leaves()[i - a.len()]));
                }
            }
        },
    }
}

/// Whether this is what is to be told of a pane: its identifier, whether it runs, and
/// the size that it has, or that it is to be revived with, or none if it is not known.
pub open spec fn tells(info: PaneInfo, panes: Map<Uuid, PaneState>, pane_id: Uuid) -> bool {
    &&& info.id == pane_id
    &&& info.live == is_running(panes, pane_id)
    &&& panes.contains_key(pane_id) ==> match panes[pane_id] {
        PaneState::Live { rows, cols, .. } => info.rows == rows && info.cols == cols,
        PaneState::Dead(record) => info.rows == record.rows && info.cols == record.cols,
    }
    &&& !panes.contains_key(pane_id) ==> info.rows == 0 && info.cols == 0
}

} // verus!
