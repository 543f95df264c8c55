use wm::app_command::WindowState;
use wm::common::{ContainerKind, Direction, TilingDirection, TilingLayout};
use wm::directional_moves::{
    insert_into_ancestor, invert_workspace_tiling_direction, move_floating_to_workspace, move_tiling_window,
    move_to_sibling_container, move_to_workspace_in_direction, move_window_in_direction_with_wrap, tiling_sibling_in_direction, TilingMove,
    WindowMove,
};
use wm::error::WmError;
use wm::sync::{DisplayState, WindowInfo};
use wm::tree::{attach_container, ContainerTree};

const H: TilingDirection = TilingDirection::Horizontal;
const V: TilingDirection = TilingDirection::Vertical;

fn add(tree: &mut ContainerTree, parent: Option<usize>, kind: ContainerKind, dir: TilingDirection) -> usize {
    let id = tree.add_container(kind, dir, TilingLayout::Tiling);
    if let Some(p) = parent {
        attach_container(tree, id, p, None).unwrap();
    }
    id
}

/// root -> monitor -> workspace with the given direction.
fn workspace(dir: TilingDirection) -> (ContainerTree, usize, usize) {
    let mut tree = ContainerTree::new();
    let root = add(&mut tree, None, ContainerKind::Root, H);
    let mon = add(&mut tree, Some(root), ContainerKind::Monitor, H);
    let ws = add(&mut tree, Some(mon), ContainerKind::Workspace, dir);
    (tree, mon, ws)
}

fn infos(tree: &ContainerTree, state: WindowState) -> Vec<WindowInfo> {
    (0..tree.len()).map(|_| WindowInfo { state, prev_state: None, display_state: DisplayState::Shown }).collect()
}

#[test]
fn sibling_in_direction_skips_non_tiling_containers() {
    let (mut tree, _, ws) = workspace(H);
    let a = add(&mut tree, Some(ws), ContainerKind::TilingWindow, H);
    let f = add(&mut tree, Some(ws), ContainerKind::NonTilingWindow, H);
    let b = add(&mut tree, Some(ws), ContainerKind::TilingWindow, H);
    assert_eq!(tiling_sibling_in_direction(&tree, a, Direction::Right), Some(b));
    assert_eq!(tiling_sibling_in_direction(&tree, b, Direction::Left), Some(a));
    assert_eq!(tiling_sibling_in_direction(&tree, a, Direction::Up), None);
    assert_eq!(tiling_sibling_in_direction(&tree, f, Direction::Down), Some(b));
}

#[test]
fn moving_past_a_sibling_window_swaps_places() {
    let (mut tree, _, ws) = workspace(H);
    let w1 = add(&mut tree, Some(ws), ContainerKind::TilingWindow, H);
    let w2 = add(&mut tree, Some(ws), ContainerKind::TilingWindow, H);
    assert_eq!(
        move_tiling_window(&mut tree, w1, Direction::Right),
        Ok(TilingMove::PassedSibling { sibling: w2, parent: ws })
    );
    assert_eq!(tree.children(ws), vec![w2, w1]);
}

#[test]
fn moving_into_a_split_across_its_axis_goes_after_its_focused_window() {
    let (mut tree, _, ws) = workspace(H);
    let w1 = add(&mut tree, Some(ws), ContainerKind::TilingWindow, H);
    let split = add(&mut tree, Some(ws), ContainerKind::Split, V);
    let a = add(&mut tree, Some(split), ContainerKind::TilingWindow, H);
    let b = add(&mut tree, Some(split), ContainerKind::TilingWindow, H);
    assert_eq!(
        move_tiling_window(&mut tree, w1, Direction::Right),
        Ok(TilingMove::IntoSplit { target: split, old_parent: ws })
    );
    assert_eq!(tree.children(split), vec![a, w1, b]);
    assert_eq!(tree.children(ws), vec![split]);
}

#[test]
fn moving_into_a_split_along_its_axis_goes_before_its_first_window() {
    let (mut tree, _, ws) = workspace(H);
    let w1 = add(&mut tree, Some(ws), ContainerKind::TilingWindow, H);
    let split = add(&mut tree, Some(ws), ContainerKind::Split, H);
    let a = add(&mut tree, Some(split), ContainerKind::TilingWindow, H);
    let b = add(&mut tree, Some(split), ContainerKind::TilingWindow, H);
    assert_eq!(
        move_to_sibling_container(&mut tree, w1, split, Direction::Right),
        Ok(TilingMove::IntoSplit { target: split, old_parent: ws })
    );
    assert_eq!(tree.children(split), vec![w1, a, b]);
}

#[test]
fn moving_into_an_empty_split_changes_nothing() {
    let (mut tree, _, ws) = workspace(H);
    let w1 = add(&mut tree, Some(ws), ContainerKind::TilingWindow, H);
    let split = add(&mut tree, Some(ws), ContainerKind::Split, V);
    assert_eq!(move_to_sibling_container(&mut tree, w1, split, Direction::Right), Ok(TilingMove::Stayed));
    assert_eq!(tree.children(ws), vec![w1, split]);
}

#[test]
fn moving_past_the_workspace_edge_hands_over_to_the_next_workspace() {
    let (mut tree, _, ws) = workspace(H);
    let w1 = add(&mut tree, Some(ws), ContainerKind::TilingWindow, H);
    let w2 = add(&mut tree, Some(ws), ContainerKind::TilingWindow, H);
    assert_eq!(move_tiling_window(&mut tree, w2, Direction::Right), Ok(TilingMove::ToWorkspace));
    assert_eq!(tree.children(ws), vec![w1, w2]);
    // A window alone in its workspace goes across in any direction.
    let (mut tree, _, ws) = workspace(H);
    let w = add(&mut tree, Some(ws), ContainerKind::TilingWindow, H);
    assert_eq!(move_tiling_window(&mut tree, w, Direction::Up), Ok(TilingMove::ToWorkspace));
}

#[test]
fn moving_across_the_workspace_axis_turns_the_workspace() {
    let (mut tree, _, ws) = workspace(H);
    let w1 = add(&mut tree, Some(ws), ContainerKind::TilingWindow, H);
    let w2 = add(&mut tree, Some(ws), ContainerKind::TilingWindow, H);
    assert_eq!(move_tiling_window(&mut tree, w2, Direction::Up), Ok(TilingMove::Inverted { workspace: ws }));
    assert_eq!(tree.tiling_direction(ws), V);
    assert_eq!(tree.children(ws), vec![w2, w1]);
}

#[test]
fn turning_the_workspace_wraps_the_other_windows() {
    let (mut tree, _, ws) = workspace(H);
    let w1 = add(&mut tree, Some(ws), ContainerKind::TilingWindow, H);
    let w2 = add(&mut tree, Some(ws), ContainerKind::TilingWindow, H);
    let w3 = add(&mut tree, Some(ws), ContainerKind::TilingWindow, H);
    assert_eq!(invert_workspace_tiling_direction(&mut tree, w1, Direction::Down), Ok(TilingMove::Inverted { workspace: ws }));
    assert_eq!(tree.tiling_direction(ws), V);
    let children = tree.children(ws);
    assert_eq!(children.len(), 2);
    let split = children[0];
    assert_eq!(children[1], w1);
    assert_eq!(tree.kind(split), ContainerKind::Split);
    assert_eq!(tree.tiling_direction(split), H);
    assert_eq!(tree.children(split), vec![w2, w3]);
}

#[test]
fn moving_out_of_a_split_goes_into_the_ancestor_along_the_axis() {
    let (mut tree, _, ws) = workspace(H);
    let w1 = add(&mut tree, Some(ws), ContainerKind::TilingWindow, H);
    let split = add(&mut tree, Some(ws), ContainerKind::Split, V);
    let a = add(&mut tree, Some(split), ContainerKind::TilingWindow, H);
    let b = add(&mut tree, Some(split), ContainerKind::TilingWindow, H);
    assert_eq!(move_tiling_window(&mut tree, a, Direction::Right), Ok(TilingMove::IntoAncestor { ancestor: ws }));
    assert_eq!(tree.children(ws), vec![w1, split, a]);
    assert_eq!(tree.children(split), vec![b]);
}

#[test]
fn inserting_into_an_ancestor_before_or_after() {
    let (mut tree, _, ws) = workspace(H);
    let w1 = add(&mut tree, Some(ws), ContainerKind::TilingWindow, H);
    let split = add(&mut tree, Some(ws), ContainerKind::Split, V);
    let a = add(&mut tree, Some(split), ContainerKind::TilingWindow, H);
    let _b = add(&mut tree, Some(split), ContainerKind::TilingWindow, H);
    assert_eq!(insert_into_ancestor(&mut tree, a, ws, Direction::Left), Ok(TilingMove::IntoAncestor { ancestor: ws }));
    assert_eq!(tree.children(ws), vec![w1, a, split]);
    assert_eq!(insert_into_ancestor(&mut tree, w1, split, Direction::Left), Err(WmError::AncestorNotFound));
}

#[test]
fn a_lone_split_parent_is_dissolved_first() {
    let (mut tree, _, ws) = workspace(H);
    let w1 = add(&mut tree, Some(ws), ContainerKind::TilingWindow, H);
    let split = add(&mut tree, Some(ws), ContainerKind::Split, V);
    let a = add(&mut tree, Some(split), ContainerKind::TilingWindow, H);
    assert_eq!(
        move_tiling_window(&mut tree, a, Direction::Left),
        Ok(TilingMove::PassedSibling { sibling: w1, parent: ws })
    );
    assert_eq!(tree.children(ws), vec![a, w1]);
    assert!(tree.is_detached(split));
}

#[test]
fn moving_to_the_next_workspace_enters_at_the_near_side() {
    let (mut tree, _, ws) = workspace(H);
    let w1 = add(&mut tree, Some(ws), ContainerKind::TilingWindow, H);
    let root = tree.parent(tree.parent(ws).unwrap()).unwrap();
    let mon2 = add(&mut tree, Some(root), ContainerKind::Monitor, H);
    let ws2 = add(&mut tree, Some(mon2), ContainerKind::Workspace, H);
    let x = add(&mut tree, Some(ws2), ContainerKind::TilingWindow, H);
    assert_eq!(move_to_workspace_in_direction(&mut tree, w1, None, Direction::Right, None), Ok(None));
    assert_eq!(move_to_workspace_in_direction(&mut tree, w1, Some(ws2), Direction::Right, None), Ok(Some(ws2)));
    assert_eq!(tree.children(ws2), vec![w1, x]);
    assert_eq!(move_to_workspace_in_direction(&mut tree, w1, Some(ws), Direction::Left, None), Ok(Some(ws)));
    assert_eq!(tree.children(ws), vec![w1]);
    assert_eq!(move_to_workspace_in_direction(&mut tree, x, Some(ws), Direction::Up, None), Ok(Some(ws)));
    assert_eq!(tree.children(ws), vec![w1, x]);
}

#[test]
fn moving_to_another_workspace_needs_parent_workspace_and_monitor() {
    let mut tree = ContainerTree::new();
    let lone = add(&mut tree, None, ContainerKind::TilingWindow, H);
    assert_eq!(move_to_workspace_in_direction(&mut tree, lone, None, Direction::Left, None), Err(WmError::NoParent));
    let split = add(&mut tree, None, ContainerKind::Split, H);
    let w = add(&mut tree, Some(split), ContainerKind::TilingWindow, H);
    assert_eq!(move_to_workspace_in_direction(&mut tree, w, None, Direction::Left, None), Err(WmError::NoWorkspace));
    let ws = add(&mut tree, None, ContainerKind::Workspace, H);
    let w2 = add(&mut tree, Some(ws), ContainerKind::TilingWindow, H);
    assert_eq!(move_to_workspace_in_direction(&mut tree, w2, None, Direction::Left, None), Err(WmError::NoMonitor));
}

#[test]
fn non_tiling_windows_are_handed_on_by_state() {
    let (mut tree, _, ws) = workspace(H);
    let f = add(&mut tree, Some(ws), ContainerKind::NonTilingWindow, H);
    let mut info = infos(&tree, WindowState::Floating { centered: false, shown_on_top: false });
    assert_eq!(move_window_in_direction_with_wrap(&mut tree, &info, f, Direction::Left), Ok(WindowMove::Floating));
    info[f].state = WindowState::Fullscreen { maximized: false, shown_on_top: false };
    assert_eq!(move_window_in_direction_with_wrap(&mut tree, &info, f, Direction::Left), Ok(WindowMove::ToWorkspace));
    info[f].state = WindowState::Minimized;
    assert_eq!(move_window_in_direction_with_wrap(&mut tree, &info, f, Direction::Left), Ok(WindowMove::Nothing));
    assert_eq!(move_window_in_direction_with_wrap(&mut tree, &info, ws, Direction::Left), Ok(WindowMove::Nothing));
}

#[test]
fn tiling_windows_move_in_the_tree_through_the_dispatcher() {
    let (mut tree, _, ws) = workspace(H);
    let w1 = add(&mut tree, Some(ws), ContainerKind::TilingWindow, H);
    let w2 = add(&mut tree, Some(ws), ContainerKind::TilingWindow, H);
    let info = infos(&tree, WindowState::Tiling);
    assert_eq!(
        move_window_in_direction_with_wrap(&mut tree, &info, w2, Direction::Left),
        Ok(WindowMove::Tiling(TilingMove::PassedSibling { sibling: w1, parent: ws }))
    );
    assert_eq!(tree.children(ws), vec![w2, w1]);
}

#[test]
fn focus_stays_behind_in_the_workspace_left() {
    let (mut tree, mon, ws) = workspace(H);
    let w1 = add(&mut tree, Some(ws), ContainerKind::TilingWindow, H);
    let w2 = add(&mut tree, Some(ws), ContainerKind::TilingWindow, H);
    let root = tree.parent(mon).unwrap();
    let mon2 = add(&mut tree, Some(root), ContainerKind::Monitor, H);
    let ws2 = add(&mut tree, Some(mon2), ContainerKind::Workspace, H);
    assert_eq!(move_to_workspace_in_direction(&mut tree, w1, Some(ws2), Direction::Right, Some(w2)), Ok(Some(ws2)));
    assert_eq!(tree.focus_order(ws), vec![w2]);
    // Focus was handed back up to the workspace only.
    assert_eq!(tree.focus_order(root), vec![mon, mon2]);
}

#[test]
fn a_wrapping_floating_window_goes_to_the_end_of_the_workspace() {
    let (mut tree, mon, ws) = workspace(H);
    let f = add(&mut tree, Some(ws), ContainerKind::NonTilingWindow, H);
    let w = add(&mut tree, Some(ws), ContainerKind::TilingWindow, H);
    let ws2 = add(&mut tree, Some(mon), ContainerKind::Workspace, H);
    let x = add(&mut tree, Some(ws2), ContainerKind::TilingWindow, H);
    assert_eq!(move_floating_to_workspace(&mut tree, f, ws2, Some(w)), Ok(Some(ws2)));
    assert_eq!(tree.children(ws2), vec![x, f]);
    assert_eq!(tree.focus_order(ws)[0], w);
    let lone = add(&mut tree, None, ContainerKind::NonTilingWindow, H);
    assert_eq!(move_floating_to_workspace(&mut tree, lone, ws2, None), Err(WmError::NoWorkspace));
}
