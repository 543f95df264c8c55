use wm::common::{ContainerKind, TilingDirection, TilingLayout};
use wm::error::WmError;
use wm::layout::{
    apply_tiling_layout, find_neighbor_window, flatten_child_split_containers, layout_container_for,
    set_tiling_direction, toggle_single_child_split, toggle_tiling_direction, toggle_tiling_layout, toggle_vertical,
};
use wm::tree::{attach_container, ContainerTree};

fn node(tree: &mut ContainerTree, kind: ContainerKind, dir: TilingDirection) -> usize {
    tree.add_container(kind, dir, TilingLayout::Tiling)
}

fn child(tree: &mut ContainerTree, parent: usize, kind: ContainerKind, dir: TilingDirection) -> usize {
    let id = node(tree, kind, dir);
    attach_container(tree, id, parent, None).unwrap();
    id
}

/// A workspace (horizontal) with `n` tiling windows.
fn workspace_with(n: usize) -> (ContainerTree, usize, Vec<usize>) {
    let mut tree = ContainerTree::new();
    let ws = node(&mut tree, ContainerKind::Workspace, TilingDirection::Horizontal);
    let mut windows = Vec::new();
    for _ in 0..n {
        windows.push(child(&mut tree, ws, ContainerKind::TilingWindow, TilingDirection::Horizontal));
    }
    (tree, ws, windows)
}

#[test]
fn tiling_window_targets_its_immediate_parent() {
    let mut tree = ContainerTree::new();
    let split = node(&mut tree, ContainerKind::Split, TilingDirection::Horizontal);
    let window = child(&mut tree, split, ContainerKind::TilingWindow, TilingDirection::Horizontal);
    let target = layout_container_for(&tree, window).unwrap();
    assert_eq!(target, split);
}

#[test]
fn non_tiling_window_does_not_target_workspace() {
    let mut tree = ContainerTree::new();
    let workspace = node(&mut tree, ContainerKind::Workspace, TilingDirection::Horizontal);
    let window = child(&mut tree, workspace, ContainerKind::NonTilingWindow, TilingDirection::Horizontal);
    assert!(layout_container_for(&tree, window).is_none());
}

#[test]
fn applying_layout_is_idempotent_and_preserves_direction() {
    let mut tree = ContainerTree::new();
    let split = node(&mut tree, ContainerKind::Split, TilingDirection::Horizontal);
    let direction = tree.tiling_direction(split);

    assert!(apply_tiling_layout(&mut tree, split, TilingLayout::Accordion));
    assert_eq!(tree.tiling_layout(split), TilingLayout::Accordion);
    assert_eq!(tree.tiling_direction(split), direction);
    assert!(!apply_tiling_layout(&mut tree, split, TilingLayout::Accordion));
}

#[test]
fn one_child_promotion_preserves_child_direction_and_layout() {
    let mut tree = ContainerTree::new();
    let workspace = node(&mut tree, ContainerKind::Workspace, TilingDirection::Horizontal);
    let split = child(&mut tree, workspace, ContainerKind::Split, TilingDirection::Vertical);
    tree.set_tiling_layout(split, TilingLayout::Accordion);
    let window = child(&mut tree, split, ContainerKind::TilingWindow, TilingDirection::Horizontal);

    flatten_child_split_containers(&mut tree, workspace).expect("Single split child should flatten.");

    assert!(tree.is_detached(split));
    assert_eq!(tree.parent(window), Some(workspace));
    assert_eq!(tree.tiling_direction(workspace), TilingDirection::Vertical);
    assert_eq!(tree.tiling_layout(workspace), TilingLayout::Accordion);
}

#[test]
fn same_direction_with_different_layout_does_not_flatten() {
    let mut tree = ContainerTree::new();
    let workspace = node(&mut tree, ContainerKind::Workspace, TilingDirection::Horizontal);
    let split = child(&mut tree, workspace, ContainerKind::Split, TilingDirection::Horizontal);
    child(&mut tree, split, ContainerKind::TilingWindow, TilingDirection::Horizontal);
    tree.set_tiling_layout(split, TilingLayout::Accordion);
    child(&mut tree, workspace, ContainerKind::TilingWindow, TilingDirection::Horizontal);

    flatten_child_split_containers(&mut tree, workspace).expect("Different layouts should remain nested.");

    assert_eq!(tree.parent(split), Some(workspace));
}

#[test]
fn same_direction_and_layout_flattens_nested_split() {
    let mut tree = ContainerTree::new();
    let workspace = node(&mut tree, ContainerKind::Workspace, TilingDirection::Horizontal);
    let w1 = child(&mut tree, workspace, ContainerKind::TilingWindow, TilingDirection::Horizontal);
    let split = child(&mut tree, workspace, ContainerKind::Split, TilingDirection::Horizontal);
    let w2 = child(&mut tree, split, ContainerKind::TilingWindow, TilingDirection::Horizontal);
    let w3 = child(&mut tree, split, ContainerKind::TilingWindow, TilingDirection::Horizontal);

    flatten_child_split_containers(&mut tree, workspace).unwrap();

    assert_eq!(tree.children(workspace), vec![w1, w2, w3]);
    assert!(tree.is_detached(split));
}

#[test]
fn redundant_split_with_single_split_child_flattens_both() {
    let mut tree = ContainerTree::new();
    let workspace = node(&mut tree, ContainerKind::Workspace, TilingDirection::Horizontal);
    let w1 = child(&mut tree, workspace, ContainerKind::TilingWindow, TilingDirection::Horizontal);
    let outer = child(&mut tree, workspace, ContainerKind::Split, TilingDirection::Horizontal);
    let inner = child(&mut tree, outer, ContainerKind::Split, TilingDirection::Vertical);
    let w2 = child(&mut tree, inner, ContainerKind::TilingWindow, TilingDirection::Horizontal);
    let w3 = child(&mut tree, inner, ContainerKind::TilingWindow, TilingDirection::Horizontal);

    flatten_child_split_containers(&mut tree, workspace).unwrap();

    assert_eq!(tree.children(workspace), vec![w1, w2, w3]);
    assert!(tree.is_detached(outer));
    assert!(tree.is_detached(inner));
    assert_eq!(tree.parent(w2), Some(workspace));
    assert_eq!(tree.parent(w3), Some(workspace));
    assert_eq!(tree.tiling_direction(workspace), TilingDirection::Horizontal);
}

#[test]
fn single_split_child_of_workspace_is_promoted() {
    let mut tree = ContainerTree::new();
    let workspace = node(&mut tree, ContainerKind::Workspace, TilingDirection::Horizontal);
    let split = child(&mut tree, workspace, ContainerKind::Split, TilingDirection::Vertical);
    let w1 = child(&mut tree, split, ContainerKind::TilingWindow, TilingDirection::Horizontal);

    flatten_child_split_containers(&mut tree, workspace).unwrap();

    assert_eq!(tree.children(workspace), vec![w1]);
    assert_eq!(tree.tiling_direction(workspace), TilingDirection::Vertical);
}

#[test]
fn toggling_direction_preserves_distinct_accordion_split() {
    let mut tree = ContainerTree::new();
    let workspace = node(&mut tree, ContainerKind::Workspace, TilingDirection::Horizontal);
    let split = child(&mut tree, workspace, ContainerKind::Split, TilingDirection::Vertical);
    let window = child(&mut tree, split, ContainerKind::TilingWindow, TilingDirection::Horizontal);
    tree.set_tiling_layout(split, TilingLayout::Accordion);
    child(&mut tree, workspace, ContainerKind::TilingWindow, TilingDirection::Horizontal);

    let toggled = toggle_single_child_split(&mut tree, window, split).expect("Direction toggle should succeed.");

    assert_eq!(toggled, split);
    assert!(!tree.is_detached(split));
    assert_eq!(tree.tiling_direction(split), TilingDirection::Horizontal);
    assert_eq!(tree.tiling_layout(split), TilingLayout::Accordion);
}

#[test]
fn toggling_direction_dissolves_matching_single_child_split() {
    let mut tree = ContainerTree::new();
    let workspace = node(&mut tree, ContainerKind::Workspace, TilingDirection::Horizontal);
    let split = child(&mut tree, workspace, ContainerKind::Split, TilingDirection::Vertical);
    let window = child(&mut tree, split, ContainerKind::TilingWindow, TilingDirection::Horizontal);
    child(&mut tree, workspace, ContainerKind::TilingWindow, TilingDirection::Horizontal);

    let toggled = toggle_single_child_split(&mut tree, window, split).unwrap();

    assert_eq!(toggled, workspace);
    assert!(tree.is_detached(split));
    assert_eq!(tree.parent(window), Some(workspace));
}

#[test]
fn toggle_tiling_layout_switches_between_tiling_and_accordion() {
    let (mut tree, ws, windows) = workspace_with(2);
    let changed = toggle_tiling_layout(&mut tree, windows[0]).unwrap().unwrap();
    assert_eq!(changed.container, ws);
    assert_eq!(changed.workspace, ws);
    assert_eq!(changed.layout, TilingLayout::Accordion);
    toggle_tiling_layout(&mut tree, windows[1]).unwrap();
    assert_eq!(tree.tiling_layout(ws), TilingLayout::Tiling);
}

#[test]
fn toggle_tiling_direction_on_workspace_flips_it() {
    let (mut tree, ws, _) = workspace_with(0);
    let changed = toggle_tiling_direction(&mut tree, ws).unwrap().unwrap();
    assert_eq!(changed.container, ws);
    assert_eq!(changed.direction, TilingDirection::Vertical);
    assert_eq!(tree.tiling_direction(ws), TilingDirection::Vertical);
}

#[test]
fn toggle_tiling_direction_wraps_window_with_siblings() {
    let (mut tree, ws, windows) = workspace_with(2);
    let changed = toggle_tiling_direction(&mut tree, windows[1]).unwrap().unwrap();
    let split = changed.container;
    assert_eq!(tree.kind(split), ContainerKind::Split);
    assert_eq!(changed.direction, TilingDirection::Vertical);
    assert_eq!(tree.children(split), vec![windows[1]]);
    assert_eq!(tree.children(ws), vec![windows[0], split]);
}

#[test]
fn set_tiling_direction_is_a_no_op_when_already_set() {
    let (mut tree, ws, windows) = workspace_with(1);
    let r = set_tiling_direction(&mut tree, windows[0], TilingDirection::Horizontal).unwrap();
    assert!(r.is_none());
    assert_eq!(tree.tiling_direction(ws), TilingDirection::Horizontal);
}

#[test]
fn neighbor_is_found_left_first_then_right() {
    let (tree, _, windows) = workspace_with(3);
    assert_eq!(find_neighbor_window(&tree, windows[1]), Ok((windows[0], true)));
    assert_eq!(find_neighbor_window(&tree, windows[0]), Ok((windows[1], false)));
    let (single, _, only) = workspace_with(1);
    assert_eq!(find_neighbor_window(&single, only[0]), Err(WmError::NoNeighbor));
}

#[test]
fn toggle_vertical_groups_and_ungroups_two_windows() {
    let (mut tree, ws, windows) = workspace_with(2);
    let redraw = toggle_vertical(&mut tree, windows[1]).unwrap();
    assert_eq!(redraw, Some(ws));
    let split = tree.parent(windows[1]).unwrap();
    assert_ne!(split, ws);
    assert_eq!(tree.tiling_direction(split), TilingDirection::Vertical);
    assert_eq!(tree.children(split), vec![windows[0], windows[1]]);
    assert_eq!(tree.children(ws), vec![split]);

    let redraw = toggle_vertical(&mut tree, windows[1]).unwrap();
    assert_eq!(redraw, Some(ws));
    assert!(tree.is_detached(split));
    assert_eq!(tree.parent(windows[0]), Some(ws));
    assert_eq!(tree.parent(windows[1]), Some(ws));
}

#[test]
fn toggle_vertical_twice_restores_the_order_of_siblings() {
    let (mut tree, ws, windows) = workspace_with(4);
    toggle_vertical(&mut tree, windows[2]).unwrap();
    let split = tree.parent(windows[2]).unwrap();
    assert_eq!(tree.children(ws), vec![windows[0], split, windows[3]]);
    assert_eq!(tree.children(split), vec![windows[1], windows[2]]);

    toggle_vertical(&mut tree, windows[2]).unwrap();
    assert_eq!(tree.children(ws), windows);
    assert!(tree.is_detached(split));

    // The first window pairs with the one after it.
    toggle_vertical(&mut tree, windows[0]).unwrap();
    let split = tree.parent(windows[0]).unwrap();
    assert_eq!(tree.children(ws), vec![split, windows[2], windows[3]]);
    assert_eq!(tree.children(split), vec![windows[0], windows[1]]);
    toggle_vertical(&mut tree, windows[0]).unwrap();
    assert_eq!(tree.children(ws), windows);
}

#[test]
fn toggle_vertical_moves_window_out_of_large_vertical_split() {
    let mut tree = ContainerTree::new();
    let ws = node(&mut tree, ContainerKind::Workspace, TilingDirection::Horizontal);
    let first = child(&mut tree, ws, ContainerKind::TilingWindow, TilingDirection::Horizontal);
    let split = child(&mut tree, ws, ContainerKind::Split, TilingDirection::Vertical);
    let a = child(&mut tree, split, ContainerKind::TilingWindow, TilingDirection::Horizontal);
    let b = child(&mut tree, split, ContainerKind::TilingWindow, TilingDirection::Horizontal);
    let c = child(&mut tree, split, ContainerKind::TilingWindow, TilingDirection::Horizontal);

    assert_eq!(toggle_vertical(&mut tree, b), Ok(Some(ws)));
    assert_eq!(tree.children(ws), vec![first, split, b]);
    assert_eq!(tree.children(split), vec![a, c]);
}

#[test]
fn toggle_vertical_ignores_non_tiling_containers_and_needs_a_neighbor() {
    let (mut tree, ws, windows) = workspace_with(1);
    assert_eq!(toggle_vertical(&mut tree, ws), Ok(None));
    assert_eq!(toggle_vertical(&mut tree, windows[0]), Err(WmError::NoNeighbor));
    let lonely = tree.add_container(ContainerKind::TilingWindow, TilingDirection::Horizontal, TilingLayout::Tiling);
    assert_eq!(toggle_vertical(&mut tree, lonely), Err(WmError::NoParent));
}
