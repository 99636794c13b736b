//! How one window's panes are arranged.
//!
//! A window's layout is a tree of binary splits whose leaves name panes. The
//! tree is purely structural: it holds no live pane and no window size. Sizes
//! come in as arguments, and [`LayoutNode::compute_geometry`] says where each
//! pane then lies.

use crate::ids::Uuid;
use crate::ratio;
use crate::ratio::{split_extent, Ratio};
use vstd::prelude::*;

verus! {

/// Split direction. `Horizontal` means side by side; `Vertical` means stacked.
#[derive(Debug, Clone, Copy, PartialEq, Eq, Structural)]
pub enum Orientation {
    Horizontal,
    Vertical,
}

/// No split may produce a leaf with fewer rows than this.
pub const MIN_PANE_ROWS: u16 = 2;

/// No split may produce a leaf with fewer columns than this.
pub const MIN_PANE_COLS: u16 = 10;

/// A pane with fewer rows than this is not split side by side: the split would
/// leave two panes that are just as short.
pub const RECOMMENDED_SPLIT_MIN_ROWS: u16 = 20;

/// A rectangle of the screen, in cells: its top-left corner within the window
/// and its size.
#[derive(Debug, Clone, Copy, PartialEq, Eq, Structural)]
pub struct PtyRect {
    pub row: u16,
    pub col: u16,
    pub rows: u16,
    pub cols: u16,
}

/// A rectangle of cells.
pub struct Rect {
    pub row: int,
    pub col: int,
    pub rows: int,
    pub cols: int,
}

impl Rect {
    /// Whether the cell at `(y, x)` lies in the rectangle.
    pub open spec fn covers(self, y: int, x: int) -> bool {
        self.row <= y < self.row + self.rows && self.col <= x < self.col + self.cols
    }

    pub open spec fn area(self) -> int {
        self.rows * self.cols
    }
}

impl View for PtyRect {
    type V = Rect;

    open spec fn view(&self) -> Rect {
        Rect {
            row: self.row as int,
            col: self.col as int,
            rows: self.rows as int,
            cols: self.cols as int,
        }
    }
}

/// A tree of binary splits over leaves of any kind.
pub enum Tree<L> {
    Leaf(L),
    Split {
        orientation: Orientation,
        first: Box<Tree<L>>,
        first_ratio: Ratio,
        second: Box<Tree<L>>,
        second_ratio: Ratio,
    },
}

impl<L> Tree<L> {
    /// The leaves, first child before second.
    pub open spec fn leaves(self) -> Seq<L>
        decreases self,
    {
        match self {
            Tree::Leaf(leaf) => seq![leaf],
            Tree::Split { first, second, .. } => first.leaves() + second.leaves(),
        }
    }

    /// The same tree over other leaves.
    pub open spec fn map_leaves<M>(self, f: spec_fn(L) -> M) -> Tree<M>
        decreases self,
    {
        match self {
            Tree::Leaf(leaf) => Tree::Leaf(f(leaf)),
            Tree::Split { orientation, first, first_ratio, second, second_ratio } => Tree::Split {
                orientation,
                first: Box::new(first.map_leaves(f)),
                first_ratio,
                second: Box::new(second.map_leaves(f)),
                second_ratio,
            },
        }
    }

    /// Whether the ratios of every split add up to one.
    pub open spec fn balanced(self) -> bool
        decreases self,
    {
        match self {
            Tree::Leaf(_) => true,
            Tree::Split { first, first_ratio, second, second_ratio, .. } => {
                &&& ratio::complementary(first_ratio, second_ratio)
                &&& first.balanced()
                &&& second.balanced()
            },
        }
    }

    /// Whether every split gives its first child a share between nought and
    /// everything.
    pub open spec fn proper(self) -> bool
        decreases self,
    {
        match self {
            Tree::Leaf(_) => true,
            Tree::Split { first, first_ratio, second, .. } => {
                &&& first_ratio.is_proper()
                &&& first.proper()
                &&& second.proper()
            },
        }
    }

    /// Whether no split of a window of this size gives its first child more
    /// than there is.
    pub open spec fn fits(self, rows: int, cols: int) -> bool
        decreases self,
    {
        match self {
            Tree::Leaf(_) => true,
            Tree::Split { first, second, .. } => {
                let (first_area, second_area) = self.parts(window(rows, cols));
                &&& second_area.rows >= 0
                &&& second_area.cols >= 0
                &&& first.fits(first_area.rows, first_area.cols)
                &&& second.fits(second_area.rows, second_area.cols)
            },
        }
    }

    /// How a split divides `area`: the first child gets the share that the
    /// first ratio takes, and the second child gets the rest.
    pub open spec fn parts(self, area: Rect) -> (Rect, Rect) {
        match self {
            Tree::Leaf(_) => (area, area),
            Tree::Split { orientation: Orientation::Horizontal, first_ratio, .. } => {
                let share = ratio::share_of(area.cols as nat, first_ratio) as int;
                (
                    Rect { cols: share, ..area },
                    Rect { col: area.col + share, cols: area.cols - share, ..area },
                )
            },
            Tree::Split { orientation: Orientation::Vertical, first_ratio, .. } => {
                let share = ratio::share_of(area.rows as nat, first_ratio) as int;
                (
                    Rect { rows: share, ..area },
                    Rect { row: area.row + share, rows: area.rows - share, ..area },
                )
            },
        }
    }

    /// Where each leaf lies when the tree fills `area`.
    pub open spec fn geometry(self, area: Rect) -> Seq<(L, Rect)>
        decreases self,
    {
        match self {
            Tree::Leaf(leaf) => seq![(leaf, area)],
            Tree::Split { first, second, .. } => {
                let (first_area, second_area) = self.parts(area);
                first.geometry(first_area) + second.geometry(second_area)
            },
        }
    }
}

/// A window of this size, as a rectangle.
pub open spec fn window(rows: int, cols: int) -> Rect {
    Rect { row: 0, col: 0, rows, cols }
}

impl Tree<Uuid> {
    /// The tree with every leaf that names `target` split in two halves, the
    /// leaf itself first and `new_pane` second.
    pub open spec fn nested(self, target: Uuid, orientation: Orientation, new_pane: Uuid) -> Tree<Uuid>
        decreases self,
    {
        match self {
            Tree::Leaf(id) => if id == target {
                Tree::Split {
                    orientation,
                    first: Box::new(self),
                    first_ratio: Ratio::spec_half(),
                    second: Box::new(Tree::Leaf(new_pane)),
                    second_ratio: Ratio::spec_half(),
                }
            } else {
                self
            },
            Tree::Split { orientation: own, first, first_ratio, second, second_ratio } =>
                Tree::Split {
                    orientation: own,
                    first: Box::new(first.nested(target, orientation, new_pane)),
                    first_ratio,
                    second: Box::new(second.nested(target, orientation, new_pane)),
                    second_ratio,
                },
        }
    }

    /// The tree without the leaf that names `pane_id`: the split that held the
    /// leaf gives way to the leaf's sibling. `None` where the leaf was the
    /// whole tree; the tree itself where no leaf names `pane_id`.
    pub open spec fn without(self, pane_id: Uuid) -> Option<Tree<Uuid>>
        decreases self,
    {
        match self {
            Tree::Leaf(id) => if id == pane_id {
                None
            } else {
                Some(self)
            },
            Tree::Split { orientation, first, first_ratio, second, second_ratio } => {
                if *first == Tree::Leaf(pane_id) {
                    Some(*second)
                } else if *second == Tree::Leaf(pane_id) {
                    Some(*first)
                } else if first.leaves().contains(pane_id) {
                    match first.without(pane_id) {
                        Some(rest) => Some(
                            Tree::Split {
                                orientation,
                                first: Box::new(rest),
                                first_ratio,
                                second,
                                second_ratio,
                            },
                        ),
                        None => Some(*second),
                    }
                } else if second.leaves().contains(pane_id) {
                    match second.without(pane_id) {
                        Some(rest) => Some(
                            Tree::Split {
                                orientation,
                                first,
                                first_ratio,
                                second: Box::new(rest),
                                second_ratio,
                            },
                        ),
                        None => Some(*first),
                    }
                } else {
                    Some(self)
                }
            },
        }
    }
}

/// One window's pane arrangement. A leaf holds only the pane's identifier,
/// never a live pane.
///
/// A split has exactly two children in every layout that this module builds;
/// see [`LayoutNode::wf`].
#[derive(Debug, PartialEq)]
pub enum LayoutNode {
    Leaf { pane_id: Uuid },
    Split {
        orientation: Orientation,
        /// Each child with its ratio.
        children: Vec<(LayoutNode, Ratio)>,
    },
}

impl LayoutNode {
    /// Whether every split has exactly two children.
    pub open spec fn wf(self) -> bool
        decreases self,
    {
        match self {
            LayoutNode::Leaf { .. } => true,
            LayoutNode::Split { children, .. } => {
                &&& children@.len() == 2
                &&& children@[0].0.wf()
                &&& children@[1].0.wf()
            },
        }
    }

    /// The binary tree that a well-formed layout is.
    pub open spec fn tree(self) -> Tree<Uuid>
        decreases self,
        when self.wf()
    {
        match self {
            LayoutNode::Leaf { pane_id } => Tree::Leaf(pane_id),
            LayoutNode::Split { orientation, children } => Tree::Split {
                orientation,
                first: Box::new(children@[0].0.tree()),
                first_ratio: children@[0].1,
                second: Box::new(children@[1].0.tree()),
                second_ratio: children@[1].1,
            },
        }
    }

    /// The panes that the leaves name, in order.
    pub open spec fn leaf_ids(self) -> Seq<Uuid>
        decreases self,
    {
        match self {
            LayoutNode::Leaf { pane_id } => seq![pane_id],
            LayoutNode::Split { children, .. } => forest_ids(children@),
        }
    }
}

impl Clone for LayoutNode {
    #[verifier::loop_isolation(false)]
    fn clone(&self) -> (copy: Self)
        ensures
            copy.wf() == self.wf(),
            self.wf() ==> copy.tree() == self.tree(),
            copy.leaf_ids() == self.leaf_ids(),
        decreases self,
    {
        match self {
            LayoutNode::Leaf { pane_id } => LayoutNode::Leaf { pane_id: *pane_id },
            LayoutNode::Split { orientation, children } => {
                let mut copies: Vec<(LayoutNode, Ratio)> = Vec::new();
                let mut i: usize = 0;
                while i < children.len()
                    invariant
                        i <= children.len(),
                        copies@.len() == i,
                        forest_ids(copies@) == forest_ids(children@.take(i as int)),
                        forall|j: int|
                            #![trigger copies@[j]]
                            0 <= j < i ==> copies@[j].1 == children@[j].1 && copies@[j].0.wf()
                                == children@[j].0.wf() && (children@[j].0.wf()
                                ==> copies@[j].0.tree() == children@[j].0.tree()),
                    decreases children.len() - i,
                {
                    proof {
                        lemma_forest_step(children@, i as int);
                    }
                    let ghost before = copies@;
                    copies.push((children[i].0.clone(), children[i].1));
                    assert(copies@.drop_last() =~= before);
                    i = i + 1;
                }
                assert(children@.take(i as int) =~= children@);
                LayoutNode::Split { orientation: *orientation, children: copies }
            },
        }
    }
}

/// What is left of a layout once a leaf is removed.
#[derive(Debug, Clone, PartialEq)]
pub enum RemoveOutcome {
    /// The split that held the leaf has given way to the leaf's sibling.
    Collapsed(LayoutNode),
    /// The leaf was the whole tree: there is nothing to collapse into.
    WindowEmpty,
}

/// Why a split is refused.
#[derive(Debug, Clone, Copy, PartialEq, Eq, Structural)]
pub enum LayoutError {
    /// The split would produce a leaf of this size, below [`MIN_PANE_ROWS`] or
    /// [`MIN_PANE_COLS`].
    BelowMinimumSize { rows: u16, cols: u16 },
    /// A horizontal split of a pane with this many rows, fewer than
    /// [`RECOMMENDED_SPLIT_MIN_ROWS`].
    BelowRecommendedSize { rows: u16 },
    /// No leaf names this pane.
    PaneNotFound { pane_id: Uuid },
}

/// The rectangle of the first entry for `pane_id`.
pub open spec fn rect_for(geometry: Seq<(Uuid, Rect)>, pane_id: Uuid) -> Rect
    decreases geometry.len(),
{
    if geometry.len() == 0 {
        arbitrary()
    } else if geometry[0].0 == pane_id {
        geometry[0].1
    } else {
        rect_for(geometry.drop_first(), pane_id)
    }
}

/// The size that each of two new panes is held to have when a pane at `rect` is
/// split.
pub open spec fn halved(rect: Rect, orientation: Orientation) -> (int, int) {
    match orientation {
        Orientation::Horizontal => (rect.rows, rect.cols / 2),
        Orientation::Vertical => (rect.rows / 2, rect.cols),
    }
}

/// Why `target` cannot be split in a window of this size, if it cannot.
pub open spec fn split_refusal(
    tree: Tree<Uuid>,
    target: Uuid,
    orientation: Orientation,
    window_rows: int,
    window_cols: int,
) -> Option<LayoutError> {
    let (rows, cols) = halved(
        rect_for(tree.geometry(window(window_rows, window_cols)), target),
        orientation,
    );
    if !tree.leaves().contains(target) {
        Some(LayoutError::PaneNotFound { pane_id: target })
    } else if rows < MIN_PANE_ROWS || cols < MIN_PANE_COLS {
        Some(LayoutError::BelowMinimumSize { rows: rows as u16, cols: cols as u16 })
    } else if orientation == Orientation::Horizontal && rows < RECOMMENDED_SPLIT_MIN_ROWS {
        Some(LayoutError::BelowRecommendedSize { rows: rows as u16 })
    } else {
        None
    }
}

impl LayoutNode {
    pub fn leaf(pane_id: Uuid) -> (node: Self)
        ensures
            node.wf(),
            node.tree() == Tree::Leaf(pane_id),
            node.leaf_ids() == seq![pane_id],
    {
        LayoutNode::Leaf { pane_id }
    }

    /// Whether a leaf names `pane_id`.
    #[verifier::loop_isolation(false)]
    pub fn contains(&self, pane_id: Uuid) -> (found: bool)
        ensures
            found == self.leaf_ids().contains(pane_id),
        decreases self,
    {
        match self {
            LayoutNode::Leaf { pane_id: id } => {
                assert(self.leaf_ids()[0] == *id);
                *id == pane_id
            },
            LayoutNode::Split { children, .. } => {
                let mut i: usize = 0;
                while i < children.len()
                    invariant
                        i <= children.len(),
                        !forest_ids(children@.take(i as int)).contains(pane_id),
                    decreases children.len() - i,
                {
                    proof {
                        lemma_forest_step(children@, i as int);
                    }
                    if children[i].0.contains(pane_id) {
                        proof {
                            lemma_forest_part(children@, i as int, pane_id);
                        }
                        return true;
                    }
                    i = i + 1;
                }
                assert(children@.take(i as int) =~= children@);
                false
            },
        }
    }

    /// The panes that the leaves name, in order.
    #[verifier::loop_isolation(false)]
    pub fn leaves(&self) -> (ids: Vec<Uuid>)
        ensures
            ids@ == self.leaf_ids(),
        decreases self,
    {
        match self {
            LayoutNode::Leaf { pane_id } => vec![*pane_id],
            LayoutNode::Split { children, .. } => {
                let mut ids: Vec<Uuid> = Vec::new();
                let mut i: usize = 0;
                while i < children.len()
                    invariant
                        i <= children.len(),
                        ids@ == forest_ids(children@.take(i as int)),
                    decreases children.len() - i,
                {
                    proof {
                        lemma_forest_step(children@, i as int);
                    }
                    let mut more: Vec<Uuid> = children[i].0.leaves();
                    ids.append(&mut more);
                    i = i + 1;
                }
                assert(children@.take(i as int) =~= children@);
                ids
            },
        }
    }
}

proof fn lemma_forest_step(children: Seq<(LayoutNode, Ratio)>, i: int)
    requires
        0 <= i < children.len(),
    ensures
        forest_ids(children.take(i + 1)) == forest_ids(children.take(i)) + children[i].0.leaf_ids(),
        forall|id: Uuid|
            forest_ids(children.take(i + 1)).contains(id) <==> (forest_ids(
                children.take(i),
            ).contains(id) || children[i].0.leaf_ids().contains(id)),
{
    broadcast use vstd::seq_lib::group_seq_properties;

    assert(children.take(i + 1).drop_last() =~= children.take(i));
}

proof fn lemma_forest_part(children: Seq<(LayoutNode, Ratio)>, i: int, id: Uuid)
    requires
        0 <= i < children.len(),
        children[i].0.leaf_ids().contains(id),
    ensures
        forest_ids(children).contains(id),
    decreases children.len(),
{
    broadcast use vstd::seq_lib::group_seq_properties;

    if i < children.len() - 1 {
        lemma_forest_part(children.drop_last(), i, id);
    }
}

impl LayoutNode {
    /// Where each pane lies in a window of this size: one entry per leaf, in
    /// order. A split's first child gets the cells that its ratio takes,
    /// rounded down, and the second child gets the rest.
    pub fn compute_geometry(&self, rows: u16, cols: u16) -> (geometry: Vec<(Uuid, PtyRect)>)
        requires
            self.wf(),
            self.tree().fits(rows as int, cols as int),
        ensures
            placed(geometry@) == self.tree().geometry(window(rows as int, cols as int)),
    {
        self.compute_geometry_at(0, 0, rows, cols)
    }

    fn compute_geometry_at(&self, row: u16, col: u16, rows: u16, cols: u16) -> (geometry: Vec<
        (Uuid, PtyRect),
    >)
        requires
            self.wf(),
            self.tree().fits(rows as int, cols as int),
            row + rows <= u16::MAX,
            col + cols <= u16::MAX,
        ensures
            placed(geometry@) == self.tree().geometry(
                (Rect { row: row as int, col: col as int, rows: rows as int, cols: cols as int }),
            ),
        decreases self,
    {
        match self {
            LayoutNode::Leaf { pane_id } => vec![(*pane_id, PtyRect { row, col, rows, cols })],
            LayoutNode::Split { orientation, children } => {
                let first = &children[0].0;
                let first_ratio: Ratio = children[0].1;
                let second = &children[1].0;
                match orientation {
                    Orientation::Horizontal => {
                        let first_cols: u16 = split_extent(cols, first_ratio);
                        let second_cols: u16 = cols - first_cols;
                        let mut out = first.compute_geometry_at(row, col, rows, first_cols);
                        let mut rest = second.compute_geometry_at(
                            row,
                            col + first_cols,
                            rows,
                            second_cols,
                        );
                        proof {
                            lemma_placed_concat(out@, rest@);
                        }
                        out.append(&mut rest);
                        out
                    },
                    Orientation::Vertical => {
                        let first_rows: u16 = split_extent(rows, first_ratio);
                        let second_rows: u16 = rows - first_rows;
                        let mut out = first.compute_geometry_at(row, col, first_rows, cols);
                        let mut rest = second.compute_geometry_at(
                            row + first_rows,
                            col,
                            second_rows,
                            cols,
                        );
                        proof {
                            lemma_placed_concat(out@, rest@);
                        }
                        out.append(&mut rest);
                        out
                    },
                }
            },
        }
    }

    /// Whether the geometry of a window of this size exists: whether no split
    /// gives its first child more than there is.
    pub fn geometry_fits(&self, rows: u16, cols: u16) -> (yes: bool)
        requires
            self.wf(),
        ensures
            yes == self.tree().fits(rows as int, cols as int),
        decreases self,
    {
        match self {
            LayoutNode::Leaf { .. } => true,
            LayoutNode::Split { orientation, children } => {
                let first = &children[0].0;
                let first_ratio: Ratio = children[0].1;
                let second = &children[1].0;
                match orientation {
                    Orientation::Horizontal => {
                        let share: u16 = split_extent(cols, first_ratio);
                        share <= cols && first.geometry_fits(rows, share) && second.geometry_fits(
                            rows,
                            cols - share,
                        )
                    },
                    Orientation::Vertical => {
                        let share: u16 = split_extent(rows, first_ratio);
                        share <= rows && first.geometry_fits(share, cols) && second.geometry_fits(
                            rows - share,
                            cols,
                        )
                    },
                }
            },
        }
    }

    /// Splits the leaf that names `target` in two halves: the leaf itself and a
    /// new leaf for `new_pane`. Refused, with the tree left as it is, where no
    /// leaf names `target`, where a half would be below [`MIN_PANE_ROWS`] or
    /// [`MIN_PANE_COLS`] in a window of this size, or where a pane with fewer
    /// than [`RECOMMENDED_SPLIT_MIN_ROWS`] rows would be split side by side.
    pub fn split(
        &mut self,
        target: Uuid,
        orientation: Orientation,
        new_pane: Uuid,
        window_rows: u16,
        window_cols: u16,
    ) -> (result: Result<(), LayoutError>)
        requires
            old(self).wf(),
            old(self).leaf_ids().contains(target) ==> old(self).tree().fits(
                window_rows as int,
                window_cols as int,
            ),
            split_refusal(
                old(self).tree(),
                target,
                orientation,
                window_rows as int,
                window_cols as int,
            ) is None ==> named_once(old(self).leaf_ids(), target),
        ensures
            final(self).wf(),
            match split_refusal(
                old(self).tree(),
                target,
                orientation,
                window_rows as int,
                window_cols as int,
            ) {
                Some(error) => result == Err::<(), LayoutError>(error) && *final(self) == *old(self),
                None => result is Ok && final(self).tree() == old(self).tree().nested(
                    target,
                    orientation,
                    new_pane,
                ),
            },
    {
        if let Some(refusal) = self.refuse_split(target, orientation, window_rows, window_cols) {
            return Err(refusal);
        }
        proof {
            self.lemma_leaf_ids();
        }
        self.replace_leaf(target, orientation, new_pane);
        Ok(())
    }

    /// Why `target` cannot be split in a window of this size, if it cannot.
    pub fn refuse_split(
        &self,
        target: Uuid,
        orientation: Orientation,
        window_rows: u16,
        window_cols: u16,
    ) -> (refusal: Option<LayoutError>)
        requires
            self.wf(),
            self.leaf_ids().contains(target) ==> self.tree().fits(
                window_rows as int,
                window_cols as int,
            ),
        ensures
            refusal == split_refusal(
                self.tree(),
                target,
                orientation,
                window_rows as int,
                window_cols as int,
            ),
    {
        proof {
            self.lemma_leaf_ids();
        }
        if !self.contains(target) {
            return Some(LayoutError::PaneNotFound { pane_id: target });
        }
        let geometry = self.compute_geometry(window_rows, window_cols);
        let ghost placing = placed(geometry@);
        proof {
            lemma_geometry_names_leaves(
                self.tree(),
                window(window_rows as int, window_cols as int),
            );
        }
        assert(placing.skip(0) =~= placing);
        let mut i: usize = 0;
        while geometry[i].0 != target
            invariant
                i < geometry.len(),
                placing == placed(geometry@),
                rect_for(placing.skip(i as int), target) == rect_for(placing, target),
                exists|j: int| i <= j < geometry@.len() && (#[trigger] geometry@[j]).0 == target,
            decreases geometry.len() - i,
        {
            assert(placing.skip(i as int).drop_first() =~= placing.skip(i + 1));
            i = i + 1;
        }
        let rect: PtyRect = geometry[i].1;
        assert(rect@ == rect_for(placing, target));
        let (new_rows, new_cols): (u16, u16) = match orientation {
            Orientation::Horizontal => (rect.rows, rect.cols / 2),
            Orientation::Vertical => (rect.rows / 2, rect.cols),
        };
        if new_rows < MIN_PANE_ROWS || new_cols < MIN_PANE_COLS {
            return Some(LayoutError::BelowMinimumSize { rows: new_rows, cols: new_cols });
        }
        if orientation == Orientation::Horizontal && new_rows < RECOMMENDED_SPLIT_MIN_ROWS {
            return Some(LayoutError::BelowRecommendedSize { rows: new_rows });
        }
        None
    }

    /// Whether no two leaves name `pane_id`.
    pub fn names_once(&self, pane_id: Uuid) -> (yes: bool)
        ensures
            yes == named_once(self.leaf_ids(), pane_id),
    {
        let ids = self.leaves();
        let mut seen: Option<usize> = None;
        let mut i: usize = 0;
        while i < ids.len()
            invariant
                i <= ids.len(),
                ids@ == self.leaf_ids(),
                match seen {
                    Some(at) => at < i && ids@[at as int] == pane_id && forall|j: int|
                        0 <= j < i && j != at ==> #[trigger] ids@[j] != pane_id,
                    None => forall|j: int| 0 <= j < i ==> #[trigger] ids@[j] != pane_id,
                },
            decreases ids.len() - i,
        {
            if ids[i] == pane_id {
                if seen.is_some() {
                    assert(ids@[seen->0 as int] == ids@[i as int]);
                    return false;
                }
                seen = Some(i);
            }
            i = i + 1;
        }
        true
    }

    /// Splits the one leaf that names `target`.
    fn replace_leaf(&mut self, target: Uuid, orientation: Orientation, new_pane: Uuid)
        requires
            old(self).wf(),
            old(self).leaf_ids().contains(target),
            named_once(old(self).leaf_ids(), target),
        ensures
            final(self).wf(),
            final(self).tree() == old(self).tree().nested(target, orientation, new_pane),
        decreases *old(self),
    {
        proof {
            self.lemma_leaf_ids();
        }
        match self {
            LayoutNode::Leaf { pane_id } => {
                let old_leaf = LayoutNode::Leaf { pane_id: *pane_id };
                *self =
                LayoutNode::Split {
                    orientation,
                    children: vec![
                        (old_leaf, Ratio::half()),
                        (LayoutNode::leaf(new_pane), Ratio::half()),
                    ],
                };
            },
            LayoutNode::Split { children, .. } => {
                let ghost first = children@[0].0;
                let ghost second = children@[1].0;
                proof {
                    first.lemma_leaf_ids();
                    second.lemma_leaf_ids();
                    lemma_one_side(first.leaf_ids(), second.leaf_ids(), target);
                }
                if children[0].0.contains(target) {
                    proof {
                        lemma_nested_elsewhere(second.tree(), target, orientation, new_pane);
                    }
                    children[0].0.replace_leaf(target, orientation, new_pane);
                } else {
                    proof {
                        lemma_nested_elsewhere(first.tree(), target, orientation, new_pane);
                    }
                    children[1].0.replace_leaf(target, orientation, new_pane);
                }
            },
        }
    }

    /// The layout without the leaf that names `pane_id`. The split that held
    /// the leaf gives way to the leaf's sibling.
    pub fn remove(self, pane_id: Uuid) -> (outcome: RemoveOutcome)
        requires
            self.wf(),
        ensures
            match self.tree().without(pane_id) {
                None => outcome is WindowEmpty,
                Some(rest) => outcome matches RemoveOutcome::Collapsed(node) && node.wf()
                    && node.tree() == rest,
            },
        decreases self,
    {
        match self {
            LayoutNode::Leaf { pane_id: id } => {
                if id == pane_id {
                    RemoveOutcome::WindowEmpty
                } else {
                    RemoveOutcome::Collapsed(LayoutNode::Leaf { pane_id: id })
                }
            },
            LayoutNode::Split { orientation, children } => {
                let mut children = children;
                let (second, second_ratio) = children.pop().unwrap();
                let (first, first_ratio) = children.pop().unwrap();
                proof {
                    first.lemma_leaf_ids();
                    second.lemma_leaf_ids();
                    assert(Tree::Leaf(pane_id).leaves()[0] == pane_id);
                }
                let first_has_target: bool = first.contains(pane_id);
                let second_has_target: bool = second.contains(pane_id);
                if first_has_target && matches!(first, LayoutNode::Leaf { .. }) {
                    return RemoveOutcome::Collapsed(second);
                }
                if second_has_target && matches!(second, LayoutNode::Leaf { .. }) {
                    return RemoveOutcome::Collapsed(first);
                }
                assert(first_has_target ==> first.tree() is Split);
                assert(second_has_target ==> second.tree() is Split);
                if first_has_target {
                    return match first.remove(pane_id) {
                        RemoveOutcome::Collapsed(rest) => RemoveOutcome::Collapsed(
                            LayoutNode::Split {
                                orientation,
                                children: vec![(rest, first_ratio), (second, second_ratio)],
                            },
                        ),
                        RemoveOutcome::WindowEmpty => RemoveOutcome::Collapsed(second),
                    };
                }
                if second_has_target {
                    return match second.remove(pane_id) {
                        RemoveOutcome::Collapsed(rest) => RemoveOutcome::Collapsed(
                            LayoutNode::Split {
                                orientation,
                                children: vec![(first, first_ratio), (rest, second_ratio)],
                            },
                        ),
                        RemoveOutcome::WindowEmpty => RemoveOutcome::Collapsed(first),
                    };
                }
                RemoveOutcome::Collapsed(
                    LayoutNode::Split {
                        orientation,
                        children: vec![(first, first_ratio), (second, second_ratio)],
                    },
                )
            },
        }
    }
}

/// Whether `id` stands in `ids` at one place at most.
pub open spec fn named_once(ids: Seq<Uuid>, id: Uuid) -> bool {
    forall|i: int, j: int|
        0 <= i < ids.len() && 0 <= j < ids.len() && #[trigger] ids[i] == id && #[trigger] ids[j]
            == id ==> i == j
}

/// What stands at one place in two rows stands in one of them only, and at one
/// place there.
proof fn lemma_one_side(a: Seq<Uuid>, b: Seq<Uuid>, id: Uuid)
    requires
        (a + b).contains(id),
        named_once(a + b, id),
    ensures
        named_once(a, id),
        named_once(b, id),
        a.contains(id) <==> !b.contains(id),
{
    let all = a + b;
    let at = choose|i: int| 0 <= i < all.len() && all[i] == id;
    assert(if at < a.len() {
        a[at] == id
    } else {
        b[at - a.len()] == id
    });
    assert forall|i: int, j: int|
        0 <= i < a.len() && 0 <= j < a.len() && #[trigger] a[i] == id && #[trigger] a[j]
            == id implies i == j by {
        assert(all[i] == id && all[j] == id);
    }
    assert forall|i: int, j: int|
        0 <= i < b.len() && 0 <= j < b.len() && #[trigger] b[i] == id && #[trigger] b[j]
            == id implies i == j by {
        assert(all[a.len() + i] == id && all[a.len() + j] == id);
    }
    if a.contains(id) && b.contains(id) {
        let i = choose|i: int| 0 <= i < a.len() && a[i] == id;
        let j = choose|j: int| 0 <= j < b.len() && b[j] == id;
        assert(all[i] == id && all[a.len() + j] == id);
    }
}

/// A tree without the leaf stays as it is.
proof fn lemma_nested_elsewhere(
    tree: Tree<Uuid>,
    target: Uuid,
    orientation: Orientation,
    new_pane: Uuid,
)
    requires
        !tree.leaves().contains(target),
    ensures
        tree.nested(target, orientation, new_pane) == tree,
    decreases tree,
{
    match tree {
        Tree::Leaf(id) => {
            assert(tree.leaves()[0] == id);
        },
        Tree::Split { first, second, .. } => {
            let a = first.leaves();
            let b = second.leaves();
            if a.contains(target) {
                let i = choose|i: int| 0 <= i < a.len() && a[i] == target;
                assert((a + b)[i] == target);
            }
            if b.contains(target) {
                let i = choose|i: int| 0 <= i < b.len() && b[i] == target;
                assert((a + b)[a.len() + i] == target);
            }
            lemma_nested_elsewhere(*first, target, orientation, new_pane);
            lemma_nested_elsewhere(*second, target, orientation, new_pane);
        },
    }
}

/// What stands at two places stands there at least twice.
pub(crate) proof fn lemma_two_places(ids: Seq<Uuid>, i: int, j: int)
    requires
        0 <= i < ids.len(),
        0 <= j < ids.len(),
        i != j,
        ids[i] == ids[j],
    ensures
        occurrences(ids, ids[i]) >= 2,
    decreases ids.len(),
{
    let front = ids.drop_last();
    assert(ids =~= front.push(ids.last()));
    vstd::seq_lib::to_multiset_build(front, ids.last());
    if i < front.len() && j < front.len() {
        lemma_two_places(front, i, j);
    } else {
        let k = if i < j {
            i
        } else {
            j
        };
        assert(front[k] == ids[i]);
        vstd::seq_lib::to_multiset_contains(front, ids[i]);
        assert(front.contains(ids[i]));
    }
}

/// How many times `id` stands in `ids`.
pub open spec fn occurrences(ids: Seq<Uuid>, id: Uuid) -> nat {
    ids.to_multiset().count(id)
}

/// A list of placed panes, as rectangles of cells.
pub open spec fn placed(geometry: Seq<(Uuid, PtyRect)>) -> Seq<(Uuid, Rect)> {
    geometry.map_values(|entry: (Uuid, PtyRect)| (entry.0, entry.1@))
}

proof fn lemma_placed_concat(a: Seq<(Uuid, PtyRect)>, b: Seq<(Uuid, PtyRect)>)
    ensures
        placed(a + b) == placed(a) + placed(b),
{
    assert(placed(a + b) =~= placed(a) + placed(b));
}

/// The geometry has one entry per leaf, in the order of the leaves.
pub proof fn lemma_geometry_names_leaves<L>(tree: Tree<L>, area: Rect)
    ensures
        tree.geometry(area).map_values(|entry: (L, Rect)| entry.0) == tree.leaves(),
    decreases tree,
{
    let name = |entry: (L, Rect)| entry.0;
    match tree {
        Tree::Leaf(leaf) => {
            assert(tree.geometry(area).map_values(name) =~= seq![leaf]);
        },
        Tree::Split { orientation, first, first_ratio, second, .. } => {
            let (a, b) = tree.parts(area);
            lemma_geometry_names_leaves(*first, a);
            lemma_geometry_names_leaves(*second, b);
            assert(tree.geometry(area) == first.geometry(a) + second.geometry(b));
            assert((first.geometry(a) + second.geometry(b)).map_values(name) =~= first.geometry(
                a,
            ).map_values(name) + second.geometry(b).map_values(name));
        },
    }
}

/// The panes that the leaves of a row of children name, in order.
pub open spec fn forest_ids(children: Seq<(LayoutNode, Ratio)>) -> Seq<Uuid>
    decreases children,
{
    if children.len() == 0 {
        seq![]
    } else {
        forest_ids(children.drop_last()) + children.last().0.leaf_ids()
    }
}

impl LayoutNode {
    /// A well-formed layout's leaves are those of its binary tree.
    pub proof fn lemma_leaf_ids(self)
        requires
            self.wf(),
        ensures
            self.leaf_ids() == self.tree().leaves(),
        decreases self,
    {
        if let LayoutNode::Split { children, .. } = self {
            children@[0].0.lemma_leaf_ids();
            children@[1].0.lemma_leaf_ids();
            let pair = children@;
            assert(pair.drop_last().drop_last().len() == 0);
            assert(forest_ids(pair.drop_last().drop_last()) =~= seq![]);
            assert(pair.drop_last().last() == pair[0]);
            assert(forest_ids(pair.drop_last()) =~= pair[0].0.leaf_ids());
            assert(forest_ids(pair) =~= pair[0].0.leaf_ids() + pair[1].0.leaf_ids());
        }
    }
}

} // verus!
