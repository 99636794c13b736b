//! What holds of layouts as a whole: panes tile their window, splitting and
//! removing undo one another, and neither disturbs the panes it is not about.

use crate::ids::Uuid;
use crate::layout;
use crate::layout::{Orientation, Rect, Tree, MIN_PANE_COLS, MIN_PANE_ROWS};
use crate::ratio;
use crate::ratio::Ratio;
use vstd::prelude::*;

verus! {

/// How many of the placed leaves cover the cell at `(y, x)`.
pub open spec fn covering<L>(geometry: Seq<(L, Rect)>, y: int, x: int) -> nat {
    geometry.filter(|entry: (L, Rect)| entry.1.covers(y, x)).len()
}

/// The cells that the placed leaves take up, all told.
pub open spec fn total_area<L>(geometry: Seq<(L, Rect)>) -> int
    decreases geometry.len(),
{
    if geometry.len() == 0 {
        0
    } else {
        total_area(geometry.drop_last()) + geometry.last().1.area()
    }
}

/// Whether `inner` lies within `outer`.
pub open spec fn within(inner: Rect, outer: Rect) -> bool {
    &&& inner.rows >= 0
    &&& inner.cols >= 0
    &&& outer.row <= inner.row
    &&& outer.col <= inner.col
    &&& inner.row + inner.rows <= outer.row + outer.rows
    &&& inner.col + inner.cols <= outer.col + outer.cols
}

proof fn lemma_total_area_concat<L>(a: Seq<(L, Rect)>, b: Seq<(L, Rect)>)
    ensures
        total_area(a + b) == total_area(a) + total_area(b),
    decreases b.len(),
{
    if b.len() == 0 {
        assert(a + b =~= a);
    } else {
        assert((a + b).drop_last() =~= a + b.drop_last());
        lemma_total_area_concat(a, b.drop_last());
    }
}

/// The panes tile the window: every cell of the window is covered by exactly
/// one pane, and no other cell by any.
pub proof fn lemma_panes_tile_window<L>(tree: Tree<L>, area: Rect, y: int, x: int)
    requires
        tree.fits(area.rows, area.cols),
    ensures
        covering(tree.geometry(area), y, x) == if area.covers(y, x) {
            1nat
        } else {
            0nat
        },
    decreases tree,
{
    let cell = |entry: (L, Rect)| entry.1.covers(y, x);
    match tree {
        Tree::Leaf(leaf) => {
            let geometry = tree.geometry(area);
            assert(geometry.drop_last() =~= seq![]);
            reveal_with_fuel(Seq::filter, 2);
        },
        Tree::Split { first, second, .. } => {
            let (a, b) = tree.parts(area);
            lemma_panes_tile_window(*first, a, y, x);
            lemma_panes_tile_window(*second, b, y, x);
            Seq::filter_distributes_over_add(first.geometry(a), second.geometry(b), cell);
        },
    }
}

/// The panes' areas add up to the window's.
pub proof fn lemma_areas_add_up<L>(tree: Tree<L>, area: Rect)
    ensures
        total_area(tree.geometry(area)) == area.area(),
    decreases tree,
{
    match tree {
        Tree::Leaf(leaf) => {
            let geometry = tree.geometry(area);
            assert(geometry.drop_last() =~= seq![]);
            assert(total_area(geometry.drop_last()) == 0);
        },
        Tree::Split { first, second, .. } => {
            let (a, b) = tree.parts(area);
            lemma_areas_add_up(*first, a);
            lemma_areas_add_up(*second, b);
            lemma_total_area_concat(first.geometry(a), second.geometry(b));
            assert(a.rows * a.cols + b.rows * b.cols == area.rows * area.cols) by (nonlinear_arith)
                requires
                    (a.rows == area.rows && b.rows == area.rows && a.cols + b.cols == area.cols)
                        || (a.cols == area.cols && b.cols == area.cols && a.rows + b.rows
                        == area.rows),
            ;
        },
    }
}

/// Every pane lies within the window.
pub proof fn lemma_panes_lie_within<L>(tree: Tree<L>, area: Rect)
    requires
        area.rows >= 0,
        area.cols >= 0,
        tree.fits(area.rows, area.cols),
    ensures
        forall|i: int|
            #![trigger tree.geometry(area)[i]]
            0 <= i < tree.geometry(area).len() ==> within(tree.geometry(area)[i].1, area),
    decreases tree,
{
    if let Tree::Split { first, second, .. } = tree {
        let (a, b) = tree.parts(area);
        lemma_panes_lie_within(*first, a);
        lemma_panes_lie_within(*second, b);
        assert forall|i: int| 0 <= i < tree.geometry(area).len() implies within(
            #[trigger] tree.geometry(area)[i].1,
            area,
        ) by {
            if i < first.geometry(a).len() {
                assert(tree.geometry(area)[i] == first.geometry(a)[i]);
            } else {
                let j = i - first.geometry(a).len();
                assert(tree.geometry(area)[i] == second.geometry(b)[j]);
            }
        }
    }
}

/// A layout whose ratios lie between nought and one has a geometry in a window
/// of any size.
pub proof fn lemma_proper_layout_fits<L>(tree: Tree<L>, rows: int, cols: int)
    requires
        tree.proper(),
        0 <= rows <= 0xFFFF,
        0 <= cols <= 0xFFFF,
    ensures
        tree.fits(rows, cols),
    decreases tree,
{
    if let Tree::Split { first, first_ratio, second, .. } = tree {
        ratio::lemma_proper_ratio_takes_at_most_all(rows as nat, first_ratio);
        ratio::lemma_proper_ratio_takes_at_most_all(cols as nat, first_ratio);
        let (a, b) = tree.parts(layout::window(rows, cols));
        lemma_proper_layout_fits(*first, a.rows, a.cols);
        lemma_proper_layout_fits(*second, b.rows, b.cols);
    }
}

proof fn lemma_half_is_proper()
    ensures
        Ratio::spec_half().is_proper(),
{
    let half = Ratio::spec_half();
    assert(half.exponent_field() == 126 && half.fraction() == 0);
    vstd::arithmetic::power2::lemma2_to64();
    vstd::arithmetic::power2::lemma_pow2_pos(125);
    vstd::arithmetic::power2::lemma_pow2_adds(24, 125);
}

/// Splitting adds one leaf, for the new pane, and keeps all others.
pub proof fn lemma_split_adds_one_leaf(
    tree: Tree<Uuid>,
    target: Uuid,
    orientation: Orientation,
    new_pane: Uuid,
)
    requires
        layout::occurrences(tree.leaves(), target) == 1,
    ensures
        tree.nested(target, orientation, new_pane).leaves().to_multiset()
            == tree.leaves().to_multiset().insert(new_pane),
{
    lemma_nested_leaves(tree, target, orientation, new_pane);
    let before = tree.leaves().to_multiset();
    let after = tree.nested(target, orientation, new_pane).leaves().to_multiset();
    assert(after =~= before.insert(new_pane));
}

proof fn lemma_concat_count(a: Seq<Uuid>, b: Seq<Uuid>, id: Uuid)
    ensures
        (a + b).to_multiset().count(id) == a.to_multiset().count(id) + b.to_multiset().count(id),
{
    vstd::seq_lib::lemma_multiset_commutative(a, b);
}

proof fn lemma_single_count(a: Uuid, id: Uuid)
    ensures
        seq![a].to_multiset().count(id) == if a == id {
            1nat
        } else {
            0nat
        },
{
    broadcast use vstd::multiset::group_multiset_axioms;

    assert(seq![a] =~= Seq::<Uuid>::empty().push(a));
    vstd::seq_lib::to_multiset_build(Seq::<Uuid>::empty(), a);
    vstd::seq_lib::to_multiset_len(Seq::<Uuid>::empty());
    assert(Seq::<Uuid>::empty().to_multiset() =~= vstd::multiset::Multiset::empty());
}

/// Every leaf that is split brings one leaf for the new pane.
proof fn lemma_nested_leaves(
    tree: Tree<Uuid>,
    target: Uuid,
    orientation: Orientation,
    new_pane: Uuid,
)
    ensures
        forall|id: Uuid|
            #![trigger tree.nested(target, orientation, new_pane).leaves().to_multiset().count(id)]
            tree.nested(target, orientation, new_pane).leaves().to_multiset().count(id)
                == tree.leaves().to_multiset().count(id) + if id == new_pane {
                layout::occurrences(tree.leaves(), target)
            } else {
                0
            },
    decreases tree,
{
    let nested = tree.nested(target, orientation, new_pane);
    match tree {
        Tree::Leaf(leaf) => {
            lemma_single_count(leaf, target);
            if leaf == target {
                let pair = Tree::Leaf(leaf).leaves() + Tree::Leaf(new_pane).leaves();
                reveal_with_fuel(Tree::leaves, 2);
                assert(nested.leaves() =~= seq![leaf] + seq![new_pane]);
                assert forall|id: Uuid|
                    nested.leaves().to_multiset().count(id) == tree.leaves().to_multiset().count(id)
                        + if id == new_pane {
                        layout::occurrences(tree.leaves(), target)
                    } else {
                        0
                    } by {
                    lemma_concat_count(seq![leaf], seq![new_pane], id);
                    lemma_single_count(new_pane, id);
                }
            }
        },
        Tree::Split { first, second, .. } => {
            lemma_nested_leaves(*first, target, orientation, new_pane);
            lemma_nested_leaves(*second, target, orientation, new_pane);
            let new_first = first.nested(target, orientation, new_pane);
            let new_second = second.nested(target, orientation, new_pane);
            lemma_concat_count(first.leaves(), second.leaves(), target);
            assert forall|id: Uuid|
                nested.leaves().to_multiset().count(id) == tree.leaves().to_multiset().count(id)
                    + if id == new_pane {
                    layout::occurrences(tree.leaves(), target)
                } else {
                    0
                } by {
                lemma_concat_count(first.leaves(), second.leaves(), id);
                lemma_concat_count(new_first.leaves(), new_second.leaves(), id);
                assert(new_first.leaves().to_multiset().count(id) >= 0);
                assert(new_second.leaves().to_multiset().count(id) >= 0);
            }
        },
    }
}

/// Splitting with a pane that is not in the layout yet keeps every pane's leaf
/// unique.
pub proof fn lemma_split_keeps_leaves_unique(
    tree: Tree<Uuid>,
    target: Uuid,
    orientation: Orientation,
    new_pane: Uuid,
)
    requires
        tree.leaves().no_duplicates(),
        !tree.leaves().contains(new_pane),
    ensures
        tree.nested(target, orientation, new_pane).leaves().no_duplicates(),
{
    broadcast use vstd::seq_lib::group_to_multiset_ensures;

    let after = tree.nested(target, orientation, new_pane).leaves();
    tree.leaves().lemma_multiset_has_no_duplicates();
    lemma_nested_leaves(tree, target, orientation, new_pane);
    assert forall|id: Uuid| after.to_multiset().contains(id) implies after.to_multiset().count(id)
        == 1 by {
        vstd::seq_lib::to_multiset_contains(tree.leaves(), id);
        vstd::seq_lib::to_multiset_contains(tree.leaves(), target);
        vstd::seq_lib::to_multiset_contains(tree.leaves(), new_pane);
    }
    after.lemma_multiset_has_no_duplicates_conv();
}

/// Where every pane has one leaf, removing a pane's leaf leaves the others, in
/// their order; nothing is left only of a layout that was that one leaf.
pub proof fn lemma_remove_leaves_the_others(tree: Tree<Uuid>, pane_id: Uuid)
    requires
        tree.leaves().no_duplicates(),
    ensures
        match tree.without(pane_id) {
            None => tree.leaves() == seq![pane_id],
            Some(rest) => rest.leaves() == tree.leaves().filter(|id: Uuid| id != pane_id)
                && rest.leaves().len() > 0,
        },
    decreases tree,
{
    let other = |id: Uuid| id != pane_id;
    lemma_has_leaves(tree);
    match tree {
        Tree::Leaf(leaf) => {
            assert(seq![leaf].drop_last() =~= seq![]);
            reveal_with_fuel(Seq::filter, 2);
        },
        Tree::Split { first, second, .. } => {
            let a = first.leaves();
            let b = second.leaves();
            Seq::filter_distributes_over_add(a, b, other);
            lemma_concat_unique(a, b);
            lemma_has_leaves(*first);
            lemma_has_leaves(*second);
            lemma_remove_leaves_the_others(*first, pane_id);
            lemma_remove_leaves_the_others(*second, pane_id);
            assert(seq![pane_id][0] == pane_id);
            if !a.contains(pane_id) {
                lemma_filter_keeps_all(a, pane_id);
            }
            if !b.contains(pane_id) {
                lemma_filter_keeps_all(b, pane_id);
            }
            if *first == Tree::Leaf(pane_id) || *second == Tree::Leaf(pane_id) {
                lemma_filter_drops_one(pane_id);
                assert(a + Seq::<Uuid>::empty() =~= a);
                assert(Seq::<Uuid>::empty() + b =~= b);
            }
        },
    }
}

proof fn lemma_has_leaves<L>(tree: Tree<L>)
    ensures
        tree.leaves().len() > 0,
    decreases tree,
{
    if let Tree::Split { first, .. } = tree {
        lemma_has_leaves(*first);
    }
}

proof fn lemma_concat_unique(a: Seq<Uuid>, b: Seq<Uuid>)
    requires
        (a + b).no_duplicates(),
    ensures
        a.no_duplicates(),
        b.no_duplicates(),
        forall|id: Uuid| a.contains(id) ==> !b.contains(id),
{
    assert forall|i: int, j: int| 0 <= i < a.len() && 0 <= j < a.len() && i != j implies a[i]
        != a[j] by {
        assert((a + b)[i] == a[i] && (a + b)[j] == a[j]);
    }
    assert forall|i: int, j: int| 0 <= i < b.len() && 0 <= j < b.len() && i != j implies b[i]
        != b[j] by {
        assert((a + b)[a.len() + i] == b[i] && (a + b)[a.len() + j] == b[j]);
    }
    assert forall|id: Uuid| a.contains(id) implies !b.contains(id) by {
        let i = choose|i: int| 0 <= i < a.len() && a[i] == id;
        assert((a + b)[i] == a[i]);
        assert forall|j: int| 0 <= j < b.len() implies b[j] != id by {
            assert((a + b)[a.len() + j] == b[j]);
        }
    }
}

proof fn lemma_filter_keeps_all(ids: Seq<Uuid>, pane_id: Uuid)
    requires
        !ids.contains(pane_id),
    ensures
        ids.filter(|id: Uuid| id != pane_id) == ids,
    decreases ids.len(),
{
    reveal(Seq::filter);
    if ids.len() > 0 {
        assert(ids.contains(ids.last()));
        assert forall|id: Uuid| ids.drop_last().contains(id) implies ids.contains(id) by {
            let i = choose|i: int| 0 <= i < ids.drop_last().len() && ids.drop_last()[i] == id;
            assert(ids[i] == id);
        }
        lemma_filter_keeps_all(ids.drop_last(), pane_id);
        assert(ids.drop_last().push(ids.last()) =~= ids);
    }
}

proof fn lemma_filter_drops_one(pane_id: Uuid)
    ensures
        seq![pane_id].filter(|id: Uuid| id != pane_id) == Seq::<Uuid>::empty(),
{
    assert(seq![pane_id].drop_last() =~= seq![]);
    reveal_with_fuel(Seq::filter, 2);
}

/// Removing a pane that has no leaf changes nothing.
pub proof fn lemma_remove_absent_changes_nothing(tree: Tree<Uuid>, pane_id: Uuid)
    requires
        !tree.leaves().contains(pane_id),
    ensures
        tree.without(pane_id) == Some(tree),
{
    match tree {
        Tree::Leaf(leaf) => {
            assert(tree.leaves()[0] == leaf);
        },
        Tree::Split { first, second, .. } => {
            lemma_concat_contains(first.leaves(), second.leaves(), pane_id);
            assert(Tree::Leaf(pane_id).leaves()[0] == pane_id);
        },
    }
}

proof fn lemma_concat_contains(a: Seq<Uuid>, b: Seq<Uuid>, id: Uuid)
    ensures
        (a + b).contains(id) <==> a.contains(id) || b.contains(id),
{
    broadcast use vstd::seq_lib::group_seq_properties;

}

/// Removing the pane that a split brought undoes the split.
pub proof fn lemma_remove_undoes_split(
    tree: Tree<Uuid>,
    target: Uuid,
    orientation: Orientation,
    new_pane: Uuid,
)
    requires
        layout::occurrences(tree.leaves(), target) == 1,
        !tree.leaves().contains(new_pane),
    ensures
        tree.nested(target, orientation, new_pane).without(new_pane) == Some(tree),
    decreases tree,
{
    let nested = tree.nested(target, orientation, new_pane);
    vstd::seq_lib::to_multiset_contains(tree.leaves(), target);
    match tree {
        Tree::Leaf(leaf) => {
            lemma_single_count(leaf, target);
            assert(tree.leaves()[0] == leaf);
        },
        Tree::Split { first, second, .. } => {
            lemma_concat_contains(first.leaves(), second.leaves(), new_pane);
            lemma_concat_count(first.leaves(), second.leaves(), target);
            let new_first = first.nested(target, orientation, new_pane);
            let new_second = second.nested(target, orientation, new_pane);
            lemma_nested_names(*first, target, orientation, new_pane);
            lemma_nested_names(*second, target, orientation, new_pane);
            vstd::seq_lib::to_multiset_contains(first.leaves(), target);
            vstd::seq_lib::to_multiset_contains(second.leaves(), target);
            if first.leaves().contains(target) {
                lemma_remove_undoes_split(*first, target, orientation, new_pane);
            } else {
                lemma_remove_undoes_split(*second, target, orientation, new_pane);
            }
        },
    }
}

/// Where a split takes place, its new pane is named by a leaf and the result is
/// no leaf; elsewhere the tree is as it was.
proof fn lemma_nested_names(
    tree: Tree<Uuid>,
    target: Uuid,
    orientation: Orientation,
    new_pane: Uuid,
)
    requires
        !tree.leaves().contains(new_pane),
    ensures
        tree.leaves().contains(target) ==> tree.nested(
            target,
            orientation,
            new_pane,
        ).leaves().contains(new_pane) && tree.nested(target, orientation, new_pane) is Split,
        !tree.leaves().contains(target) ==> tree.nested(target, orientation, new_pane) == tree,
        tree.nested(target, orientation, new_pane) != Tree::Leaf(new_pane),
    decreases tree,
{
    match tree {
        Tree::Leaf(leaf) => {
            assert(tree.leaves()[0] == leaf);
            let nested = tree.nested(target, orientation, new_pane);
            if leaf == target {
                reveal_with_fuel(Tree::leaves, 2);
                assert(nested.leaves()[1] == new_pane);
            }
        },
        Tree::Split { first, second, .. } => {
            lemma_concat_contains(first.leaves(), second.leaves(), new_pane);
            lemma_concat_contains(first.leaves(), second.leaves(), target);
            lemma_nested_names(*first, target, orientation, new_pane);
            lemma_nested_names(*second, target, orientation, new_pane);
            lemma_concat_contains(
                first.nested(target, orientation, new_pane).leaves(),
                second.nested(target, orientation, new_pane).leaves(),
                new_pane,
            );
        },
    }
}

/// Splitting keeps the ratios of every split adding up to one, and proper.
pub proof fn lemma_split_keeps_ratios(
    tree: Tree<Uuid>,
    target: Uuid,
    orientation: Orientation,
    new_pane: Uuid,
)
    ensures
        tree.balanced() ==> tree.nested(target, orientation, new_pane).balanced(),
        tree.proper() ==> tree.nested(target, orientation, new_pane).proper(),
    decreases tree,
{
    match tree {
        Tree::Leaf(leaf) => {
            ratio::lemma_halves_are_complementary();
            lemma_half_is_proper();
            reveal_with_fuel(Tree::balanced, 2);
            reveal_with_fuel(Tree::proper, 2);
        },
        Tree::Split { first, second, .. } => {
            lemma_split_keeps_ratios(*first, target, orientation, new_pane);
            lemma_split_keeps_ratios(*second, target, orientation, new_pane);
        },
    }
}

/// Removing keeps the ratios of every split adding up to one, and proper.
pub proof fn lemma_remove_keeps_ratios(tree: Tree<Uuid>, pane_id: Uuid)
    ensures
        tree.without(pane_id) matches Some(rest) ==> {
            &&& tree.balanced() ==> rest.balanced()
            &&& tree.proper() ==> rest.proper()
        },
    decreases tree,
{
    if let Tree::Split { first, second, .. } = tree {
        lemma_remove_keeps_ratios(*first, pane_id);
        lemma_remove_keeps_ratios(*second, pane_id);
    }
}

spec fn names(geometry: Seq<(Uuid, Rect)>) -> Seq<Uuid> {
    geometry.map_values(|entry: (Uuid, Rect)| entry.0)
}

proof fn lemma_rect_for_concat(a: Seq<(Uuid, Rect)>, b: Seq<(Uuid, Rect)>, id: Uuid)
    ensures
        names(a).contains(id) ==> layout::rect_for(a + b, id) == layout::rect_for(a, id),
        !names(a).contains(id) ==> layout::rect_for(a + b, id) == layout::rect_for(b, id),
    decreases a.len(),
{
    if a.len() == 0 {
        assert(a + b =~= b);
    } else {
        assert((a + b).drop_first() =~= a.drop_first() + b);
        lemma_rect_for_concat(a.drop_first(), b, id);
        assert(names(a)[0] == a[0].0);
        assert(names(a) =~= seq![a[0].0] + names(a.drop_first()));
        lemma_concat_contains(seq![a[0].0], names(a.drop_first()), id);
        if seq![a[0].0].contains(id) {
            assert(a[0].0 == id);
        }
    }
}

/// How a split in half divides `area`.
pub open spec fn halves(area: Rect, orientation: Orientation) -> (Rect, Rect) {
    match orientation {
        Orientation::Horizontal => (
            Rect { cols: area.cols / 2, ..area },
            Rect { col: area.col + area.cols / 2, cols: area.cols - area.cols / 2, ..area },
        ),
        Orientation::Vertical => (
            Rect { rows: area.rows / 2, ..area },
            Rect { row: area.row + area.rows / 2, rows: area.rows - area.rows / 2, ..area },
        ),
    }
}

/// Splitting a pane divides its own rectangle between it and the new pane, the
/// odd cell going to the new one. Every other pane keeps its rectangle.
pub proof fn lemma_split_divides_only_the_target(
    tree: Tree<Uuid>,
    target: Uuid,
    orientation: Orientation,
    new_pane: Uuid,
    area: Rect,
)
    requires
        0 <= area.rows <= 0xFFFF,
        0 <= area.cols <= 0xFFFF,
        tree.fits(area.rows, area.cols),
        tree.leaves().contains(target),
        !tree.leaves().contains(new_pane),
    ensures
        ({
            let before = tree.geometry(area);
            let after = tree.nested(target, orientation, new_pane).geometry(area);
            let (kept, given) = halves(layout::rect_for(before, target), orientation);
            &&& layout::rect_for(after, target) == kept
            &&& layout::rect_for(after, new_pane) == given
            &&& forall|id: Uuid|
                tree.leaves().contains(id) && id != target ==> #[trigger] layout::rect_for(
                    after,
                    id,
                ) == layout::rect_for(before, id)
        }),
    decreases tree,
{
    let nested = tree.nested(target, orientation, new_pane);
    match tree {
        Tree::Leaf(leaf) => {
            assert(tree.leaves()[0] == leaf);
            ratio::lemma_half_takes_half(area.rows as nat);
            ratio::lemma_half_takes_half(area.cols as nat);
            let (kept, given) = nested.parts(area);
            reveal_with_fuel(Tree::geometry, 2);
            let after = nested.geometry(area);
            assert(after =~= seq![(target, kept), (new_pane, given)]);
            assert(target != new_pane);
            assert(after.drop_first()[0] == (new_pane, given));
            reveal_with_fuel(layout::rect_for, 3);
            let before = tree.geometry(area);
            assert(before[0] == (target, area));
            assert(layout::rect_for(before, target) == area);
            assert(halves(area, orientation) == (kept, given));
            assert(layout::rect_for(after, target) == kept);
            assert(layout::rect_for(after, new_pane) == given);
            assert forall|id: Uuid| tree.leaves().contains(id) && id != target implies
                #[trigger] layout::rect_for(after, id) == layout::rect_for(before, id) by {
                assert(id == leaf);
            }
        },
        Tree::Split { first, second, .. } => {
            let (a, b) = tree.parts(area);
            let new_first = first.nested(target, orientation, new_pane);
            let new_second = second.nested(target, orientation, new_pane);
            lemma_concat_contains(first.leaves(), second.leaves(), new_pane);
            lemma_concat_contains(first.leaves(), second.leaves(), target);
            lemma_nested_names(*first, target, orientation, new_pane);
            lemma_nested_names(*second, target, orientation, new_pane);
            layout::lemma_geometry_names_leaves(*first, a);
            layout::lemma_geometry_names_leaves(new_first, a);
            let in_first = first.leaves().contains(target);
            if in_first {
                lemma_split_divides_only_the_target(*first, target, orientation, new_pane, a);
            }
            if second.leaves().contains(target) {
                lemma_split_divides_only_the_target(*second, target, orientation, new_pane, b);
            }
            let before = tree.geometry(area);
            let after = nested.geometry(area);
            assert(before == first.geometry(a) + second.geometry(b));
            assert(nested.parts(area) == (a, b));
            assert(after == new_first.geometry(a) + new_second.geometry(b));
            lemma_nested_membership(*first, target, orientation, new_pane);
            assert forall|id: Uuid| true implies {
                &&& #[trigger] layout::rect_for(after, id) == if new_first.leaves().contains(id) {
                    layout::rect_for(new_first.geometry(a), id)
                } else {
                    layout::rect_for(new_second.geometry(b), id)
                }
                &&& layout::rect_for(before, id) == if first.leaves().contains(id) {
                    layout::rect_for(first.geometry(a), id)
                } else {
                    layout::rect_for(second.geometry(b), id)
                }
            } by {
                lemma_rect_for_concat(new_first.geometry(a), new_second.geometry(b), id);
                lemma_rect_for_concat(first.geometry(a), second.geometry(b), id);
            }
            assert(layout::rect_for(after, target) == layout::rect_for(after, target));
            assert forall|id: Uuid| tree.leaves().contains(id) && id != target implies
                #[trigger] layout::rect_for(after, id) == layout::rect_for(before, id) by {
                lemma_concat_contains(first.leaves(), second.leaves(), id);
            }
        },
    }
}

/// A split brings no pane but the new one, and loses none.
proof fn lemma_nested_membership(
    tree: Tree<Uuid>,
    target: Uuid,
    orientation: Orientation,
    new_pane: Uuid,
)
    ensures
        forall|id: Uuid|
            id != new_pane ==> (#[trigger] tree.nested(
                target,
                orientation,
                new_pane,
            ).leaves().contains(id) <==> tree.leaves().contains(id)),
        tree.leaves().contains(new_pane) ==> tree.nested(
            target,
            orientation,
            new_pane,
        ).leaves().contains(new_pane),
        !tree.leaves().contains(target) && !tree.leaves().contains(new_pane) ==> !tree.nested(
            target,
            orientation,
            new_pane,
        ).leaves().contains(new_pane),
{
    let nested = tree.nested(target, orientation, new_pane);
    lemma_nested_leaves(tree, target, orientation, new_pane);
    assert forall|id: Uuid| id != new_pane implies (#[trigger] nested.leaves().contains(id)
        <==> tree.leaves().contains(id)) by {
        vstd::seq_lib::to_multiset_contains(tree.leaves(), id);
        vstd::seq_lib::to_multiset_contains(nested.leaves(), id);
    }
    vstd::seq_lib::to_multiset_contains(tree.leaves(), new_pane);
    vstd::seq_lib::to_multiset_contains(nested.leaves(), new_pane);
    vstd::seq_lib::to_multiset_contains(tree.leaves(), target);
}

/// A split that is not refused leaves both of its panes at least the least
/// size.
pub proof fn lemma_split_keeps_minimum_size(
    tree: Tree<Uuid>,
    target: Uuid,
    orientation: Orientation,
    new_pane: Uuid,
    window_rows: int,
    window_cols: int,
)
    requires
        0 <= window_rows <= 0xFFFF,
        0 <= window_cols <= 0xFFFF,
        tree.fits(window_rows, window_cols),
        !tree.leaves().contains(new_pane),
        layout::split_refusal(tree, target, orientation, window_rows, window_cols) is None,
    ensures
        ({
            let after = tree.nested(target, orientation, new_pane).geometry(
                layout::window(window_rows, window_cols),
            );
            let kept = layout::rect_for(after, target);
            let given = layout::rect_for(after, new_pane);
            &&& kept.rows >= MIN_PANE_ROWS && kept.cols >= MIN_PANE_COLS
            &&& given.rows >= MIN_PANE_ROWS && given.cols >= MIN_PANE_COLS
        }),
{
    let area = layout::window(window_rows, window_cols);
    lemma_split_divides_only_the_target(tree, target, orientation, new_pane, area);
}

/// A split leaves a layout that fits its window fitting it.
pub proof fn lemma_split_keeps_fitting(
    tree: Tree<Uuid>,
    target: Uuid,
    orientation: Orientation,
    new_pane: Uuid,
    rows: int,
    cols: int,
)
    requires
        0 <= rows <= 0xFFFF,
        0 <= cols <= 0xFFFF,
        tree.fits(rows, cols),
    ensures
        tree.nested(target, orientation, new_pane).fits(rows, cols),
    decreases tree,
{
    match tree {
        Tree::Leaf(leaf) => {
            ratio::lemma_half_takes_half(rows as nat);
            ratio::lemma_half_takes_half(cols as nat);
            reveal_with_fuel(Tree::fits, 2);
        },
        Tree::Split { first, second, .. } => {
            let (a, b) = tree.parts(layout::window(rows, cols));
            assert(tree.nested(target, orientation, new_pane).parts(layout::window(rows, cols)) == (
                a,
                b,
            ));
            lemma_split_keeps_fitting(*first, target, orientation, new_pane, a.rows, a.cols);
            lemma_split_keeps_fitting(*second, target, orientation, new_pane, b.rows, b.cols);
        },
    }
}

/// Where a pane is in the geometry, it is among the leaves.
proof fn lemma_placed_is_leaf(tree: Tree<Uuid>, area: Rect, i: int)
    requires
        0 <= i < tree.geometry(area).len(),
    ensures
        tree.leaves().contains(tree.geometry(area)[i].0),
{
    layout::lemma_geometry_names_leaves(tree, area);
    let placed = tree.geometry(area).map_values(|entry: (Uuid, Rect)| entry.0);
    assert(placed[i] == tree.geometry(area)[i].0);
    assert(tree.leaves()[i] == tree.geometry(area)[i].0);
}

/// Where every pane has one leaf, the rectangle found for a pane is the one that
/// it is placed at.
pub proof fn lemma_found_where_placed(geometry: Seq<(Uuid, Rect)>, i: int)
    requires
        0 <= i < geometry.len(),
        forall|j: int| 0 <= j < i ==> (#[trigger] geometry[j]).0 != geometry[i].0,
    ensures
        layout::rect_for(geometry, geometry[i].0) == geometry[i].1,
    decreases i,
{
    if i > 0 {
        let rest = geometry.drop_first();
        assert(geometry[0].0 != geometry[i].0);
        assert(rest[i - 1] == geometry[i]);
        assert forall|j: int| 0 <= j < i - 1 implies (#[trigger] rest[j]).0 != rest[i - 1].0 by {
            assert(rest[j] == geometry[j + 1]);
        }
        lemma_found_where_placed(rest, i - 1);
    }
}

/// A split is granted wherever there is room for it: a pane that is placed at a
/// rectangle of `rows` by `cols` is split one above the other if that leaves each
/// half two rows and there are ten columns, and side by side if that leaves each half
/// ten columns and there are twenty rows. Everywhere else it is refused, and the
/// refusal tells the size that the smaller half would have had, or how few rows
/// there are. A pane that is not placed at all is not found.
pub proof fn lemma_split_is_granted_where_there_is_room(
    tree: Tree<Uuid>,
    target: Uuid,
    orientation: Orientation,
    window_rows: int,
    window_cols: int,
    i: int,
)
    requires
        0 <= window_rows <= 0xFFFF,
        0 <= window_cols <= 0xFFFF,
        tree.fits(window_rows, window_cols),
        0 <= i < tree.geometry(layout::window(window_rows, window_cols)).len(),
        tree.geometry(layout::window(window_rows, window_cols))[i].0 == target,
        forall|j: int|
            0 <= j < i ==> (#[trigger] tree.geometry(
                layout::window(window_rows, window_cols),
            )[j]).0 != target,
    ensures
        ({
            let rect = tree.geometry(layout::window(window_rows, window_cols))[i].1;
            let refusal = layout::split_refusal(
                tree,
                target,
                orientation,
                window_rows,
                window_cols,
            );
            match orientation {
                Orientation::Vertical => {
                    &&& refusal is None <==> rect.rows >= 4 && rect.cols >= 10
                    &&& refusal is Some ==> (refusal->0 matches layout::LayoutError::BelowMinimumSize {
                        rows,
                        cols,
                    } && 2 * rows <= rect.rows <= 2 * rows + 1 && cols == rect.cols)
                },
                Orientation::Horizontal => {
                    &&& refusal is None <==> rect.rows >= 20 && rect.cols >= 20
                    &&& (rect.rows < 2 || rect.cols < 20) ==> (refusal matches Some(error) && error
                        matches layout::LayoutError::BelowMinimumSize { rows, cols } && rows
                        == rect.rows && 2 * cols <= rect.cols <= 2 * cols + 1)
                    &&& (2 <= rect.rows < 20 && rect.cols >= 20) ==> (refusal matches Some(error)
                        && error matches layout::LayoutError::BelowRecommendedSize { rows } && rows
                        == rect.rows)
                },
            }
        }),
{
    let area = layout::window(window_rows, window_cols);
    let geometry = tree.geometry(area);
    lemma_found_where_placed(geometry, i);
    lemma_placed_is_leaf(tree, area, i);
    lemma_panes_lie_within(tree, area);
    assert(within(geometry[i].1, area));
}

/// A pane that has no leaf cannot be split, and the refusal names it.
pub proof fn lemma_split_of_a_stranger_is_refused(
    tree: Tree<Uuid>,
    target: Uuid,
    orientation: Orientation,
    window_rows: int,
    window_cols: int,
)
    ensures
        !tree.leaves().contains(target) <==> (layout::split_refusal(
            tree,
            target,
            orientation,
            window_rows,
            window_cols,
        ) matches Some(error) && error == (layout::LayoutError::PaneNotFound { pane_id: target })),
{
}

/// What stands at a place in a tree: the place is the row of turns that leads there,
/// each to the second child or the first.
pub open spec fn at<L>(tree: Tree<L>, path: Seq<bool>) -> Option<Tree<L>>
    decreases path.len(),
{
    if path.len() == 0 {
        Some(tree)
    } else {
        match tree {
            Tree::Leaf(_) => None,
            Tree::Split { first, second, .. } => at(
                if path[0] {
                    *second
                } else {
                    *first
                },
                path.drop_first(),
            ),
        }
    }
}

/// The tree with something else at a place, and all that is not below the place as
/// it was.
pub open spec fn with_at<L>(tree: Tree<L>, path: Seq<bool>, part: Tree<L>) -> Tree<L>
    decreases path.len(),
{
    if path.len() == 0 {
        part
    } else {
        match tree {
            Tree::Leaf(_) => tree,
            Tree::Split { orientation, first, first_ratio, second, second_ratio } => Tree::Split {
                orientation,
                first: if path[0] {
                    first
                } else {
                    Box::new(with_at(*first, path.drop_first(), part))
                },
                first_ratio,
                second: if path[0] {
                    Box::new(with_at(*second, path.drop_first(), part))
                } else {
                    second
                },
                second_ratio,
            },
        }
    }
}

/// What is put at a place is found there.
pub proof fn lemma_put_is_found<L>(tree: Tree<L>, path: Seq<bool>, part: Tree<L>)
    requires
        at(tree, path) is Some,
    ensures
        at(with_at(tree, path, part), path) == Some(part),
    decreases path.len(),
{
    if path.len() > 0 {
        if let Tree::Split { first, second, .. } = tree {
            lemma_put_is_found(
                if path[0] {
                    *second
                } else {
                    *first
                },
                path.drop_first(),
                part,
            );
        }
    }
}

/// Putting what is there changes nothing.
pub proof fn lemma_putting_back_changes_nothing<L>(tree: Tree<L>, path: Seq<bool>)
    requires
        at(tree, path) is Some,
    ensures
        with_at(tree, path, at(tree, path)->0) == tree,
    decreases path.len(),
{
    if path.len() > 0 {
        if let Tree::Split { first, second, .. } = tree {
            lemma_putting_back_changes_nothing(
                if path[0] {
                    *second
                } else {
                    *first
                },
                path.drop_first(),
            );
        }
    }
}

proof fn lemma_part_has_fewer_leaves<L>(tree: Tree<L>, path: Seq<bool>, leaf: L)
    requires
        at(tree, path) is Some,
        (at(tree, path)->0).leaves().contains(leaf),
    ensures
        tree.leaves().contains(leaf),
    decreases path.len(),
{
    if path.len() > 0 {
        if let Tree::Split { first, second, .. } = tree {
            let next = if path[0] {
                *second
            } else {
                *first
            };
            lemma_part_has_fewer_leaves(next, path.drop_first(), leaf);
            let i = choose|i: int| 0 <= i < next.leaves().len() && next.leaves()[i] == leaf;
            if path[0] {
                assert(tree.leaves()[first.leaves().len() + i] == leaf);
            } else {
                assert(tree.leaves()[i] == leaf);
            }
        }
    }
}

/// Where every pane has one leaf, a split puts, in the place of the pane's leaf, two
/// leaves with equal ratios, the pane first and the new one second. Everything else
/// in the tree stays as it is.
pub proof fn lemma_split_happens_in_place(
    tree: Tree<Uuid>,
    path: Seq<bool>,
    target: Uuid,
    orientation: Orientation,
    new_pane: Uuid,
)
    requires
        tree.leaves().no_duplicates(),
        at(tree, path) == Some(Tree::Leaf(target)),
    ensures
        tree.nested(target, orientation, new_pane) == with_at(
            tree,
            path,
            Tree::Split {
                orientation,
                first: Box::new(Tree::Leaf(target)),
                first_ratio: Ratio { bits: 0x3F00_0000 },
                second: Box::new(Tree::Leaf(new_pane)),
                second_ratio: Ratio { bits: 0x3F00_0000 },
            },
        ),
    decreases path.len(),
{
    if path.len() > 0 {
        if let Tree::Split { first, second, .. } = tree {
            let a = first.leaves();
            let b = second.leaves();
            lemma_concat_unique(a, b);
            let rest = path.drop_first();
            let next = if path[0] {
                *second
            } else {
                *first
            };
            assert(Tree::Leaf(target).leaves()[0] == target);
            lemma_part_has_fewer_leaves(next, rest, target);
            lemma_split_happens_in_place(next, rest, target, orientation, new_pane);
            if path[0] {
                lemma_untouched_by_split(*first, target, orientation, new_pane);
            } else {
                lemma_untouched_by_split(*second, target, orientation, new_pane);
            }
        }
    }
}

proof fn lemma_untouched_by_split(
    tree: Tree<Uuid>,
    target: Uuid,
    orientation: Orientation,
    new_pane: Uuid,
)
    requires
        !tree.leaves().contains(target),
    ensures
        tree.nested(target, orientation, new_pane) == tree,
    decreases tree,
{
    match tree {
        Tree::Leaf(leaf) => {
            assert(tree.leaves()[0] == leaf);
        },
        Tree::Split { first, second, .. } => {
            lemma_concat_contains(first.leaves(), second.leaves(), target);
            lemma_untouched_by_split(*first, target, orientation, new_pane);
            lemma_untouched_by_split(*second, target, orientation, new_pane);
        },
    }
}

/// Where every pane has one leaf, and a split somewhere in the tree has a pane's leaf
/// for a child, removing the pane puts the other child in that split's place, just
/// as it is. Everything else in the tree stays as it is: every other split keeps its
/// orientation, its ratios and its children's order.
pub proof fn lemma_remove_puts_the_sibling_in_place(
    tree: Tree<Uuid>,
    path: Seq<bool>,
    pane_id: Uuid,
    sibling: Tree<Uuid>,
    second: bool,
)
    requires
        tree.leaves().no_duplicates(),
        at(tree, path.push(second)) == Some(Tree::Leaf(pane_id)),
        at(tree, path.push(!second)) == Some(sibling),
    ensures
        tree.without(pane_id) == Some(with_at(tree, path, sibling)),
    decreases path.len(),
{
    let here = path.push(second);
    let there = path.push(!second);
    if path.len() == 0 {
        assert(here.drop_first() =~= seq![]);
        assert(there.drop_first() =~= seq![]);
        if let Tree::Split { first, second: last, .. } = tree {
            let a = first.leaves();
            let b = last.leaves();
            lemma_concat_unique(a, b);
            assert(Tree::Leaf(pane_id).leaves()[0] == pane_id);
            if second {
                assert(*last == Tree::Leaf(pane_id));
                assert(b.contains(pane_id));
                if *first == Tree::Leaf(pane_id) {
                    assert(a.contains(pane_id));
                }
            }
        }
    } else {
        let rest = path.drop_first();
        assert(here.drop_first() =~= rest.push(second));
        assert(there.drop_first() =~= rest.push(!second));
        if let Tree::Split { first, second: last, .. } = tree {
            let a = first.leaves();
            let b = last.leaves();
            lemma_concat_unique(a, b);
            let next = if path[0] {
                *last
            } else {
                *first
            };
            assert(here[0] == path[0]);
            assert(there[0] == path[0]);
            assert(at(next, rest.push(second)) == Some(Tree::Leaf(pane_id)));
            assert(Tree::Leaf(pane_id).leaves()[0] == pane_id);
            lemma_part_has_fewer_leaves(next, rest.push(second), pane_id);
            lemma_remove_puts_the_sibling_in_place(next, rest, pane_id, sibling, second);
            assert(next is Split) by {
                assert(rest.push(second).len() > 0);
            }
            if path[0] {
                if *first == Tree::Leaf(pane_id) {
                    assert(a.contains(pane_id));
                }
            } else {
                if *last == Tree::Leaf(pane_id) {
                    assert(b.contains(pane_id));
                }
            }
        }
    }
}

/// A pane that has a leaf has it at some place, which is either the whole tree or a
/// child of a split.
pub proof fn lemma_leaf_has_a_place(tree: Tree<Uuid>, pane_id: Uuid) -> (path: Seq<bool>)
    requires
        tree.leaves().contains(pane_id),
    ensures
        at(tree, path) == Some(Tree::Leaf(pane_id)),
    decreases tree,
{
    match tree {
        Tree::Leaf(leaf) => {
            assert(leaf == pane_id);
            Seq::empty()
        },
        Tree::Split { first, second, .. } => {
            lemma_concat_contains(first.leaves(), second.leaves(), pane_id);
            if first.leaves().contains(pane_id) {
                let rest = lemma_leaf_has_a_place(*first, pane_id);
                let path = seq![false] + rest;
                assert(path.drop_first() =~= rest);
                path
            } else {
                let rest = lemma_leaf_has_a_place(*second, pane_id);
                let path = seq![true] + rest;
                assert(path.drop_first() =~= rest);
                path
            }
        },
    }
}

/// Only a layout that is the one leaf is emptied by removing its pane.
pub proof fn lemma_only_the_last_pane_empties(tree: Tree<Uuid>, pane_id: Uuid)
    ensures
        tree.without(pane_id) is None <==> tree == Tree::Leaf(pane_id),
{
}

/// A side-by-side split cuts its area at one column: everything of its first child
/// lies left of the cut and everything of its second child right of it, both over the
/// whole height.
pub proof fn lemma_horizontal_is_side_by_side<L>(
    first: Tree<L>,
    first_ratio: Ratio,
    second: Tree<L>,
    second_ratio: Ratio,
    area: Rect,
)
    ensures
        ({
            let tree = Tree::Split {
                orientation: Orientation::Horizontal,
                first: Box::new(first),
                first_ratio,
                second: Box::new(second),
                second_ratio,
            };
            let cut = ratio::share_of(area.cols as nat, first_ratio) as int;
            tree.geometry(area) == first.geometry(
                (Rect { row: area.row, col: area.col, rows: area.rows, cols: cut }),
            ) + second.geometry(
                (Rect {
                    row: area.row,
                    col: area.col + cut,
                    rows: area.rows,
                    cols: area.cols - cut,
                }),
            )
        }),
{
}

/// A split one above the other cuts its area at one row: everything of its first
/// child lies above the cut and everything of its second child below it, both over
/// the whole width.
pub proof fn lemma_vertical_is_stacked<L>(
    first: Tree<L>,
    first_ratio: Ratio,
    second: Tree<L>,
    second_ratio: Ratio,
    area: Rect,
)
    ensures
        ({
            let tree = Tree::Split {
                orientation: Orientation::Vertical,
                first: Box::new(first),
                first_ratio,
                second: Box::new(second),
                second_ratio,
            };
            let cut = ratio::share_of(area.rows as nat, first_ratio) as int;
            tree.geometry(area) == first.geometry(
                (Rect { row: area.row, col: area.col, rows: cut, cols: area.cols }),
            ) + second.geometry(
                (Rect {
                    row: area.row + cut,
                    col: area.col,
                    rows: area.rows - cut,
                    cols: area.cols,
                }),
            )
        }),
{
}

/// A window with one pane is all that pane's.
pub proof fn lemma_single_pane_fills_the_window(pane_id: Uuid, rows: int, cols: int)
    ensures
        Tree::Leaf(pane_id).geometry(layout::window(rows, cols)) == seq![
            (pane_id, Rect { row: 0, col: 0, rows, cols }),
        ],
{
}

/// Whether one place comes before another: where their ways part, the one goes to the
/// first child and the other to the second.
pub open spec fn comes_before(one: Seq<bool>, other: Seq<bool>) -> bool
    decreases one.len(),
{
    one.len() > 0 && other.len() > 0 && if one[0] == other[0] {
        comes_before(one.drop_first(), other.drop_first())
    } else {
        other[0]
    }
}

/// Leaves are listed in the order of their places: every leaf of a tree is, and of two
/// the one in a first child is before the one in the second. The result is where the
/// two are listed.
pub proof fn lemma_leaves_are_listed_in_order<L>(
    tree: Tree<L>,
    one: Seq<bool>,
    other: Seq<bool>,
    a: L,
    b: L,
) -> (places: (int, int))
    requires
        at(tree, one) == Some(Tree::Leaf(a)),
        at(tree, other) == Some(Tree::Leaf(b)),
        comes_before(one, other),
    ensures
        0 <= places.0 < places.1 < tree.leaves().len(),
        tree.leaves()[places.0] == a,
        tree.leaves()[places.1] == b,
    decreases one.len(),
{
    match tree {
        Tree::Leaf(_) => (0, 0),
        Tree::Split { first, second, .. } => {
            let front = first.leaves().len() as int;
            if one[0] == other[0] {
                if one[0] {
                    let places = lemma_leaves_are_listed_in_order(
                        *second,
                        one.drop_first(),
                        other.drop_first(),
                        a,
                        b,
                    );
                    (front + places.0, front + places.1)
                } else {
                    lemma_leaves_are_listed_in_order(
                        *first,
                        one.drop_first(),
                        other.drop_first(),
                        a,
                        b,
                    )
                }
            } else {
                let i = lemma_leaf_is_listed(*first, one.drop_first(), a);
                let j = lemma_leaf_is_listed(*second, other.drop_first(), b);
                (i, front + j)
            }
        },
    }
}

/// A leaf is listed among those of its tree. The result is where.
pub proof fn lemma_leaf_is_listed<L>(tree: Tree<L>, path: Seq<bool>, leaf: L) -> (place: int)
    requires
        at(tree, path) == Some(Tree::Leaf(leaf)),
    ensures
        0 <= place < tree.leaves().len(),
        tree.leaves()[place] == leaf,
    decreases path.len(),
{
    match tree {
        Tree::Leaf(_) => 0,
        Tree::Split { first, second, .. } => {
            if path[0] {
                first.leaves().len() + lemma_leaf_is_listed(*second, path.drop_first(), leaf)
            } else {
                lemma_leaf_is_listed(*first, path.drop_first(), leaf)
            }
        },
    }
}

} // verus!
