use wm::app_command::WindowState;
use wm::common::{ContainerKind, TilingDirection, TilingLayout};
use wm::error::WmError;
use wm::sync::{DisplayState, Rect, WindowInfo};
use wm::tree::{attach_container, ContainerTree, TreeError};
use wm::window_removal::{collect_ancestors, unmanage_window};
use wm::window_state::{add_manual_window, spiral_rebuild_step, start_spiral_rebuild, window_state_to_create};

const H: TilingDirection = TilingDirection::Horizontal;
const V: TilingDirection = TilingDirection::Vertical;

fn add(tree: &mut ContainerTree, parent: Option<usize>, kind: ContainerKind, dir: TilingDirection) -> usize {
    let id = tree.add_container(kind, dir, TilingLayout::Tiling);
    if let Some(p) = parent {
        attach_container(tree, id, p, None).unwrap();
    }
    id
}

fn workspace(dir: TilingDirection) -> (ContainerTree, usize, usize) {
    let mut tree = ContainerTree::new();
    let root = add(&mut tree, None, ContainerKind::Root, H);
    let mon = add(&mut tree, Some(root), ContainerKind::Monitor, H);
    let ws = add(&mut tree, Some(mon), ContainerKind::Workspace, dir);
    (tree, mon, ws)
}

fn infos(tree: &ContainerTree, state: WindowState) -> Vec<WindowInfo> {
    (0..tree.len()).map(|_| WindowInfo { state, prev_state: None, display_state: DisplayState::Shown }).collect()
}

#[test]
fn ancestors_are_collected_nearest_first() {
    let (mut tree, mon, ws) = workspace(H);
    let split = add(&mut tree, Some(ws), ContainerKind::Split, V);
    let w = add(&mut tree, Some(split), ContainerKind::TilingWindow, H);
    assert_eq!(collect_ancestors(&tree, w, 3), vec![split, ws, mon]);
    assert_eq!(collect_ancestors(&tree, w, 1), vec![split]);
    assert_eq!(collect_ancestors(&tree, mon, 3), vec![0]);
}

#[test]
fn removing_a_window_flattens_the_lone_split_left_behind() {
    let (mut tree, _, ws) = workspace(H);
    let w1 = add(&mut tree, Some(ws), ContainerKind::TilingWindow, H);
    let split = add(&mut tree, Some(ws), ContainerKind::Split, V);
    let a = add(&mut tree, Some(split), ContainerKind::TilingWindow, H);
    let info = infos(&tree, WindowState::Tiling);
    assert_eq!(unmanage_window(&mut tree, &info, w1, Some(a)), Ok(Some(ws)));
    assert!(tree.is_detached(w1));
    assert_eq!(tree.children(ws), vec![a]);
    assert_eq!(tree.tiling_direction(ws), V);
    assert_eq!(tree.focus_order(ws)[0], a);
}

#[test]
fn removing_the_last_window_of_a_split_dissolves_it() {
    let (mut tree, _, ws) = workspace(H);
    let w1 = add(&mut tree, Some(ws), ContainerKind::TilingWindow, H);
    let split = add(&mut tree, Some(ws), ContainerKind::Split, V);
    let a = add(&mut tree, Some(split), ContainerKind::TilingWindow, H);
    let info = infos(&tree, WindowState::Tiling);
    // The split is dissolved by the detach itself; its former place is
    // gone, so the workspace is redrawn.
    assert_eq!(unmanage_window(&mut tree, &info, a, Some(w1)), Ok(Some(ws)));
    assert!(tree.is_detached(split));
    assert_eq!(tree.children(ws), vec![w1]);
}

#[test]
fn removing_a_non_tiling_window_redraws_nothing() {
    let (mut tree, _, ws) = workspace(H);
    let w1 = add(&mut tree, Some(ws), ContainerKind::TilingWindow, H);
    let f = add(&mut tree, Some(ws), ContainerKind::NonTilingWindow, H);
    let info = infos(&tree, WindowState::Floating { centered: true, shown_on_top: false });
    assert_eq!(unmanage_window(&mut tree, &info, f, None), Ok(None));
    assert_eq!(tree.children(ws), vec![w1]);
}

#[test]
fn removing_a_detached_window_is_refused() {
    let (mut tree, _, _) = workspace(H);
    let lone = add(&mut tree, None, ContainerKind::TilingWindow, H);
    let info = infos(&tree, WindowState::Tiling);
    assert_eq!(unmanage_window(&mut tree, &info, lone, None), Err(WmError::Tree(TreeError::NoParent)));
}

#[test]
fn manual_placement_follows_the_focused_tiling_window() {
    let (mut tree, _, ws) = workspace(H);
    let w1 = add(&mut tree, Some(ws), ContainerKind::TilingWindow, H);
    let w2 = add(&mut tree, Some(ws), ContainerKind::TilingWindow, H);
    let split = add(&mut tree, Some(ws), ContainerKind::Split, V);
    assert_eq!(add_manual_window(&tree, Some(split), true, w1, ws), Ok((split, 0)));
    assert_eq!(add_manual_window(&tree, None, true, w1, ws), Ok((ws, 1)));
    assert_eq!(add_manual_window(&tree, None, true, w2, ws), Ok((ws, 2)));
    // Not a window: the most recently focused tiling window of the workspace.
    assert_eq!(add_manual_window(&tree, None, true, ws, ws), Ok((ws, 1)));
    assert_eq!(add_manual_window(&tree, None, false, w1, ws), Ok((ws, 3)));
    let lone = add(&mut tree, None, ContainerKind::TilingWindow, H);
    assert_eq!(add_manual_window(&tree, None, true, lone, ws), Err(WmError::NoParent));
}

#[test]
fn new_windows_start_in_the_state_their_properties_call_for() {
    let full = WindowState::Fullscreen { maximized: true, shown_on_top: false };
    let floating = WindowState::Floating { centered: true, shown_on_top: false };
    let initial = WindowState::Tiling;
    assert_eq!(window_state_to_create(true, true, false, full, floating, initial), WindowState::Minimized);
    assert_eq!(window_state_to_create(false, true, false, full, floating, initial), full);
    assert_eq!(window_state_to_create(false, false, false, full, floating, initial), floating);
    assert_eq!(window_state_to_create(false, false, true, full, floating, initial), initial);
}

#[test]
fn rebuilding_the_spiral_nests_each_window_beside_the_last() {
    let (mut tree, _, ws) = workspace(H);
    let w1 = add(&mut tree, Some(ws), ContainerKind::TilingWindow, H);
    let split = add(&mut tree, Some(ws), ContainerKind::Split, V);
    let w2 = add(&mut tree, Some(split), ContainerKind::TilingWindow, H);
    let w3 = add(&mut tree, Some(split), ContainerKind::TilingWindow, H);
    start_spiral_rebuild(&mut tree, ws, &vec![w1, w2, w3]).unwrap();
    assert_eq!(tree.children(ws), vec![w1]);
    assert!(tree.is_detached(w2) && tree.is_detached(w3));
    let wide = Rect { left: 0, top: 0, right: 200, bottom: 100 };
    spiral_rebuild_step(&mut tree, ws, w2, Some(wide)).unwrap();
    let s1 = tree.children(ws)[0];
    assert_eq!(tree.children(s1), vec![w1, w2]);
    assert_eq!(tree.tiling_direction(s1), H);
    let tall = Rect { left: 0, top: 0, right: 100, bottom: 200 };
    spiral_rebuild_step(&mut tree, ws, w3, Some(tall)).unwrap();
    let s2 = tree.children(s1)[1];
    assert_eq!(tree.children(s2), vec![w2, w3]);
    assert_eq!(tree.tiling_direction(s2), V);
    // Without an area the split goes across its parent.
    let (mut tree, _, ws) = workspace(H);
    let a = add(&mut tree, None, ContainerKind::TilingWindow, H);
    let b = add(&mut tree, None, ContainerKind::TilingWindow, H);
    start_spiral_rebuild(&mut tree, ws, &vec![a, b]).unwrap();
    spiral_rebuild_step(&mut tree, ws, b, None).unwrap();
    let s = tree.children(ws)[0];
    assert_eq!(tree.tiling_direction(s), V);
    assert_eq!(tree.children(s), vec![a, b]);
}

#[test]
fn rebuilding_into_an_empty_workspace_appends() {
    let (mut tree, _, ws) = workspace(H);
    let f = add(&mut tree, Some(ws), ContainerKind::NonTilingWindow, H);
    let a = add(&mut tree, None, ContainerKind::TilingWindow, H);
    start_spiral_rebuild(&mut tree, ws, &vec![]).unwrap();
    spiral_rebuild_step(&mut tree, ws, a, None).unwrap();
    assert_eq!(tree.children(ws), vec![f, a]);
    // A window that is still attached is refused.
    let (mut other, _, ws2) = workspace(H);
    let c = add(&mut other, Some(ws2), ContainerKind::TilingWindow, H);
    assert!(spiral_rebuild_step(&mut other, ws2, c, None).is_err());
}
