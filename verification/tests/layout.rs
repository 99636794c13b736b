use std::collections::HashSet;
use tymux::{
    LayoutError, LayoutNode, Orientation, PtyRect, Ratio, RemoveOutcome, Uuid, MIN_PANE_COLS,
    MIN_PANE_ROWS,
};

fn new_id() -> Uuid {
    uuid::Uuid::new_v4().as_u128()
}

fn ratio(value: f32) -> Ratio {
    Ratio { bits: value.to_bits() }
}

fn leaf(id: Uuid) -> LayoutNode {
    LayoutNode::leaf(id)
}

fn pair(orientation: Orientation, first: LayoutNode, second: LayoutNode) -> LayoutNode {
    LayoutNode::Split { orientation, children: vec![(first, ratio(0.5)), (second, ratio(0.5))] }
}

fn area(geometry: &[(Uuid, PtyRect)]) -> u32 {
    geometry.iter().map(|(_, r)| r.rows as u32 * r.cols as u32).sum()
}

#[test]
fn compute_geometry_should_split_evenly_when_horizontal_split_has_equal_ratios() {
    let a = new_id();
    let b = new_id();
    let tree = pair(Orientation::Horizontal, leaf(a), leaf(b));

    let geo = tree.compute_geometry(24, 80);
    assert_eq!(
        geo,
        vec![
            (a, PtyRect { row: 0, col: 0, rows: 24, cols: 40 }),
            (b, PtyRect { row: 0, col: 40, rows: 24, cols: 40 }),
        ]
    );
}

#[test]
fn compute_geometry_should_assign_remainder_column_to_last_child_when_width_is_odd() {
    let a = new_id();
    let b = new_id();
    let tree = pair(Orientation::Horizontal, leaf(a), leaf(b));

    let geo = tree.compute_geometry(24, 81);
    let a_rect = geo.iter().find(|(id, _)| *id == a).unwrap().1;
    let b_rect = geo.iter().find(|(id, _)| *id == b).unwrap().1;
    assert_eq!(a_rect.cols, 40);
    assert_eq!(b_rect.cols, 41, "the odd remainder column goes to the last child");
    assert_eq!(a_rect.cols + b_rect.cols, 81);
}

#[test]
fn compute_geometry_should_sum_to_parent_rect_when_tree_has_nested_splits() {
    let a = new_id();
    let b = new_id();
    let c = new_id();
    let tree =
        pair(Orientation::Horizontal, leaf(a), pair(Orientation::Vertical, leaf(b), leaf(c)));

    let geo = tree.compute_geometry(24, 80);
    assert_eq!(geo.len(), 3);
    assert_eq!(area(&geo), 24 * 80);

    let b_rect = geo.iter().find(|(id, _)| *id == b).unwrap().1;
    let c_rect = geo.iter().find(|(id, _)| *id == c).unwrap().1;
    assert_eq!(b_rect.cols, 40);
    assert_eq!(c_rect.cols, 40);
    assert_eq!(b_rect.rows + c_rect.rows, 24);
}

#[test]
fn layout_node_should_nest_split_under_target_leaf_when_split_called() {
    let a = new_id();
    let b = new_id();
    let mut tree = leaf(a);
    tree.split(a, Orientation::Vertical, b, 24, 80).unwrap();

    match &tree {
        LayoutNode::Split { orientation, children } => {
            assert_eq!(*orientation, Orientation::Vertical);
            assert_eq!(children.len(), 2);
            assert_eq!(children[0].0, leaf(a));
            assert_eq!(children[1].0, leaf(b));
        }
        _ => panic!("expected split() to produce a Split node"),
    }
}

#[test]
fn layout_node_should_leave_sibling_untouched_when_split_called_on_nested_leaf() {
    let a = new_id();
    let b = new_id();
    let c = new_id();
    let mut tree = pair(Orientation::Horizontal, leaf(a), leaf(b));
    tree.split(b, Orientation::Vertical, c, 24, 80).unwrap();

    match &tree {
        LayoutNode::Split { children, .. } => {
            assert_eq!(children[0].0, leaf(a), "sibling A must be untouched");
            assert!(matches!(children[1].0, LayoutNode::Split { .. }));
        }
        _ => panic!("expected root to remain a Split"),
    }
}

#[test]
fn layout_node_split_should_reject_with_actual_dimensions_when_below_minimum_size() {
    let a = new_id();
    let b = new_id();
    let mut tree = leaf(a);
    let err = tree.split(a, Orientation::Vertical, b, 3, 10).unwrap_err();
    assert!(matches!(err, LayoutError::BelowMinimumSize { .. }));
    assert_eq!(err, LayoutError::BelowMinimumSize { rows: 1, cols: 10 });
    assert_eq!(
        err.message(),
        "split would produce a pane of 1 rows x 10 cols, below the minimum of 2 rows x 10 cols"
    );
    assert_eq!(tree, leaf(a), "a rejected split must leave the tree untouched");
}

#[test]
fn layout_node_split_should_reject_horizontal_split_when_pane_rows_below_recommended_threshold() {
    let a = new_id();
    let b = new_id();
    let mut tree = leaf(a);
    let err = tree.split(a, Orientation::Horizontal, b, 15, 80).unwrap_err();
    assert_eq!(err, LayoutError::BelowRecommendedSize { rows: 15 });
    assert_eq!(tree, leaf(a), "a rejected split must leave the tree untouched");
    assert_eq!(
        err.message(),
        "Can't split: pane is 15 rows, minimum for a horizontal split is ~20 rows. \
         Resize your terminal or close another pane first."
    );
}

#[test]
fn layout_node_split_should_allow_vertical_split_even_when_resulting_rows_below_recommended_threshold(
) {
    let a = new_id();
    let b = new_id();
    let mut tree = leaf(a);
    tree.split(a, Orientation::Vertical, b, 24, 80).unwrap();
    assert!(matches!(tree, LayoutNode::Split { .. }));
}

#[test]
fn layout_node_split_should_allow_horizontal_split_when_pane_rows_at_or_above_recommended_threshold(
) {
    let a = new_id();
    let b = new_id();
    let mut tree = leaf(a);
    tree.split(a, Orientation::Horizontal, b, 20, 80).unwrap();
    assert!(matches!(tree, LayoutNode::Split { .. }));
}

#[test]
fn layout_node_should_collapse_split_when_sibling_pane_closes() {
    let a = new_id();
    let b = new_id();
    let tree = pair(Orientation::Horizontal, leaf(a), leaf(b));
    match tree.remove(b) {
        RemoveOutcome::Collapsed(survivor) => assert_eq!(survivor, leaf(a)),
        RemoveOutcome::WindowEmpty => panic!("expected a surviving sibling"),
    }
}

#[test]
fn layout_node_should_collapse_nested_split_when_grandchild_pane_closes() {
    let a = new_id();
    let b = new_id();
    let c = new_id();
    let tree =
        pair(Orientation::Horizontal, leaf(a), pair(Orientation::Vertical, leaf(b), leaf(c)));
    match tree.remove(c) {
        RemoveOutcome::Collapsed(new_tree) => match new_tree {
            LayoutNode::Split { children, .. } => {
                assert_eq!(children[0].0, leaf(a));
                assert_eq!(
                    children[1].0,
                    leaf(b),
                    "B should survive C's removal, nested split collapsed away"
                );
            }
            _ => panic!("expected the root to remain a 2-leaf Split after nested collapse"),
        },
        RemoveOutcome::WindowEmpty => panic!("expected survivors"),
    }
}

#[test]
fn remove_last_leaf_reports_window_empty() {
    let a = new_id();
    let tree = leaf(a);
    assert_eq!(tree.remove(a), RemoveOutcome::WindowEmpty);
}

fn assert_ratio_and_structural_invariants(node: &LayoutNode) {
    match node {
        LayoutNode::Leaf { .. } => {}
        LayoutNode::Split { children, .. } => {
            assert_eq!(children.len(), 2);
            let ratio_sum: f32 = children.iter().map(|(_, r)| f32::from_bits(r.bits)).sum();
            assert!((ratio_sum - 1.0).abs() < 0.01);
            for (child, _) in children {
                assert_ratio_and_structural_invariants(child);
            }
        }
    }
}

#[test]
fn nested_collapse_and_odd_remainder_cases_are_explicitly_covered() {
    let a = new_id();
    let b = new_id();
    let c = new_id();
    let mut tree = LayoutNode::leaf(a);
    tree.split(a, Orientation::Horizontal, b, 200, 401).unwrap();
    tree.split(b, Orientation::Vertical, c, 200, 200).unwrap();

    let geo = tree.compute_geometry(200, 401);
    assert_eq!(area(&geo), 200 * 401, "odd-remainder split must still tile the full window");

    match tree.remove(c) {
        RemoveOutcome::Collapsed(survivor) => {
            let leaves = survivor.leaves();
            assert_eq!(leaves.len(), 2);
            assert!(leaves.contains(&a));
            assert!(leaves.contains(&b));
            assert_ratio_and_structural_invariants(&survivor);
        }
        RemoveOutcome::WindowEmpty => panic!("expected survivors after removing a nested leaf"),
    }
}

/// A small deterministic generator for the operation sequences below.
fn next(state: &mut u64) -> u64 {
    *state = state.wrapping_mul(6364136223846793005).wrapping_add(1442695040888963407);
    *state >> 33
}

#[test]
fn layout_node_invariants_should_hold_after_any_sequence_of_split_remove_resize_ops() {
    for seed in 0..256u64 {
        let mut state = seed;
        let mut tree = Some(LayoutNode::leaf(new_id()));
        let mut rows: u16 = 200;
        let mut cols: u16 = 400;
        let count = 20 + next(&mut state) % 41;
        for _ in 0..count {
            let Some(current) = tree.take() else { break };
            let pick = next(&mut state) as usize;
            match next(&mut state) % 3 {
                0 => {
                    rows = 100 + (next(&mut state) % 201) as u16;
                    cols = 200 + (next(&mut state) % 401) as u16;
                    assert_ratio_and_structural_invariants(&current);
                    tree = Some(current);
                }
                1 => {
                    let leaves = current.leaves();
                    let target = leaves[pick % leaves.len()];
                    let horizontal = next(&mut state) % 2 == 0;
                    let orientation =
                        if horizontal { Orientation::Horizontal } else { Orientation::Vertical };
                    let new_pane = new_id();
                    let before = current.clone();
                    let mut mutated = current;
                    match mutated.split(target, orientation, new_pane, rows, cols) {
                        Ok(()) => {
                            assert_ratio_and_structural_invariants(&mutated);
                            for (id, rect) in mutated.compute_geometry(rows, cols) {
                                if id == target || id == new_pane {
                                    assert!(
                                        rect.rows >= MIN_PANE_ROWS && rect.cols >= MIN_PANE_COLS
                                    );
                                }
                            }
                            let leaves = mutated.leaves();
                            let unique: HashSet<Uuid> = leaves.iter().copied().collect();
                            assert_eq!(leaves.len(), unique.len());
                            assert_eq!(
                                mutated.clone().remove(new_pane),
                                RemoveOutcome::Collapsed(before),
                                "removing the new pane undoes the split"
                            );
                        }
                        Err(_) => {
                            assert_eq!(mutated, before);
                        }
                    }
                    tree = Some(mutated);
                }
                _ => {
                    let leaves = current.leaves();
                    let target = leaves[pick % leaves.len()];
                    match current.remove(target) {
                        RemoveOutcome::Collapsed(survivor) => {
                            assert_ratio_and_structural_invariants(&survivor);
                            let expected: Vec<Uuid> =
                                leaves.into_iter().filter(|id| *id != target).collect();
                            assert_eq!(survivor.leaves(), expected);
                            tree = Some(survivor);
                        }
                        RemoveOutcome::WindowEmpty => {
                            tree = None;
                        }
                    }
                }
            }
        }
    }
}

#[test]
fn panes_tile_the_window_cell_by_cell() {
    let ids: Vec<Uuid> = (0..5).map(|_| new_id()).collect();
    let mut tree = leaf(ids[0]);
    tree.split(ids[0], Orientation::Horizontal, ids[1], 51, 83).unwrap();
    tree.split(ids[1], Orientation::Vertical, ids[2], 51, 83).unwrap();
    tree.split(ids[0], Orientation::Vertical, ids[3], 51, 83).unwrap();
    tree.split(ids[2], Orientation::Horizontal, ids[4], 51, 83).unwrap();
    let geo = tree.compute_geometry(51, 83);
    assert_eq!(geo.iter().map(|(id, _)| *id).collect::<Vec<_>>(), tree.leaves());
    for y in 0..60u16 {
        for x in 0..90u16 {
            let covering = geo
                .iter()
                .filter(|(_, r)| {
                    r.row <= y && y < r.row + r.rows && r.col <= x && x < r.col + r.cols
                })
                .count();
            assert_eq!(covering, if y < 51 && x < 83 { 1 } else { 0 });
        }
    }
}

#[test]
fn splitting_leaves_other_panes_where_they_are() {
    let (a, b, c) = (new_id(), new_id(), new_id());
    let mut tree = leaf(a);
    tree.split(a, Orientation::Horizontal, b, 25, 81).unwrap();
    let before = tree.compute_geometry(25, 81);
    tree.split(b, Orientation::Vertical, c, 25, 81).unwrap();
    let after = tree.compute_geometry(25, 81);
    assert_eq!(before[0], after[0]);
    assert_eq!(before[1].1, PtyRect { row: 0, col: 40, rows: 25, cols: 41 });
    assert_eq!(after[1], (b, PtyRect { row: 0, col: 40, rows: 12, cols: 41 }));
    assert_eq!(after[2], (c, PtyRect { row: 12, col: 40, rows: 13, cols: 41 }));
}

#[test]
fn splitting_an_unknown_pane_is_refused() {
    let (a, b) = (new_id(), 0x12345678_9abc_4def_8123_456789abcdef_u128);
    let mut tree = leaf(a);
    let err = tree.split(b, Orientation::Vertical, new_id(), 24, 80).unwrap_err();
    assert_eq!(err, LayoutError::PaneNotFound { pane_id: b });
    assert_eq!(
        err.message(),
        "no leaf with pane_id 12345678-9abc-4def-8123-456789abcdef in this layout"
    );
}

#[test]
fn a_ratio_above_one_does_not_fit() {
    let tree = LayoutNode::Split {
        orientation: Orientation::Horizontal,
        children: vec![(leaf(1), ratio(1.009)), (leaf(2), ratio(0.0))],
    };
    assert!(tree.geometry_fits(24, 80));
    assert!(!tree.geometry_fits(24, 200));
}

#[test]
fn removing_an_absent_pane_changes_nothing() {
    let tree = pair(Orientation::Vertical, leaf(1), leaf(2));
    assert_eq!(tree.clone().remove(3), RemoveOutcome::Collapsed(tree));
}

#[test]
fn leaves_are_listed_and_found() {
    let tree =
        pair(Orientation::Vertical, leaf(7), pair(Orientation::Horizontal, leaf(8), leaf(7)));
    assert_eq!(tree.leaves(), vec![7, 8, 7]);
    assert!(!tree.names_once(7));
    assert!(tree.names_once(8));
    assert!(tree.names_once(9));
    assert!(tree.contains(8));
    assert!(!tree.contains(9));
}
