use wm::app_command::WindowState;
use wm::common::{ContainerKind, TilingDirection, TilingLayout};
use wm::error::WmError;
use wm::monitors::WorkspaceBinding;
use wm::stack::{add_master_stack_window, add_to_master, add_to_stack, MasterRedraw};
use wm::sync::{DisplayState, Rect, WindowInfo};
use wm::tree::{attach_container, ContainerTree};
use wm::window_moves::{place_in_workspace, workspace_on_monitor};
use wm::window_state::{
    insertion_target, set_non_tiling, set_tiling, spiral_placement, spiral_split, split_direction, update_window_state,
    SpiralPlacement,
};

fn add(tree: &mut ContainerTree, parent: Option<usize>, kind: ContainerKind) -> usize {
    let id = tree.add_container(kind, TilingDirection::Horizontal, TilingLayout::Tiling);
    if let Some(p) = parent {
        attach_container(tree, id, p, None).unwrap();
    }
    id
}

fn infos(tree: &ContainerTree, state: WindowState) -> Vec<WindowInfo> {
    (0..tree.len()).map(|_| WindowInfo { state, prev_state: None, display_state: DisplayState::Shown }).collect()
}

/// root -> monitor -> ws -> [split -> [w1], w2]
fn setup() -> (ContainerTree, usize, usize, usize, usize, usize) {
    let mut tree = ContainerTree::new();
    let root = add(&mut tree, None, ContainerKind::Root);
    let mon = add(&mut tree, Some(root), ContainerKind::Monitor);
    let ws = add(&mut tree, Some(mon), ContainerKind::Workspace);
    let split = add(&mut tree, Some(ws), ContainerKind::Split);
    let w1 = add(&mut tree, Some(split), ContainerKind::TilingWindow);
    let w2 = add(&mut tree, Some(ws), ContainerKind::TilingWindow);
    (tree, root, ws, split, w1, w2)
}

#[test]
fn stack_windows_go_to_the_front() {
    let mut tree = ContainerTree::new();
    let ws = add(&mut tree, None, ContainerKind::Workspace);
    let a = add(&mut tree, Some(ws), ContainerKind::TilingWindow);
    let b = add(&mut tree, None, ContainerKind::TilingWindow);
    assert_eq!(add_to_stack(&mut tree, b, ws), Err(WmError::NotMasterStack));
    tree.set_tiling_layout(ws, TilingLayout::MasterStack { master_window: Some(a) });
    add_to_stack(&mut tree, b, ws).unwrap();
    assert_eq!(tree.children(ws), vec![b, a]);
}

#[test]
fn well_formedness_is_checked_at_run_time() {
    let (tree, _, _, _, _, _) = setup();
    assert!(tree.is_well_formed());
    assert!(ContainerTree::new().is_well_formed());
    // Adding to the stack lists the window without its parent link.
    let mut tree = ContainerTree::new();
    let ws = add(&mut tree, None, ContainerKind::Workspace);
    let a = add(&mut tree, Some(ws), ContainerKind::TilingWindow);
    let b = add(&mut tree, None, ContainerKind::TilingWindow);
    tree.set_tiling_layout(ws, TilingLayout::MasterStack { master_window: Some(a) });
    assert!(tree.is_well_formed());
    add_to_stack(&mut tree, b, ws).unwrap();
    assert!(!tree.is_well_formed());
}

#[test]
fn new_master_swaps_with_the_old_one() {
    let mut tree = ContainerTree::new();
    let ws = add(&mut tree, None, ContainerKind::Workspace);
    let a = add(&mut tree, Some(ws), ContainerKind::TilingWindow);
    let b = add(&mut tree, Some(ws), ContainerKind::TilingWindow);
    let old = add(&mut tree, None, ContainerKind::TilingWindow);
    tree.set_tiling_layout(ws, TilingLayout::MasterStack { master_window: Some(old) });
    assert_eq!(add_to_master(&mut tree, b, ws), Ok(MasterRedraw::OldMaster(old)));
    assert_eq!(tree.children(ws), vec![a, old]);
    assert_eq!(tree.tiling_layout(ws), TilingLayout::MasterStack { master_window: Some(b) });
}

#[test]
fn master_stack_window_targets() {
    let mut tree = ContainerTree::new();
    let ws = add(&mut tree, None, ContainerKind::Workspace);
    assert_eq!(add_master_stack_window(&mut tree, ws), (ws, 0, None));
    let a = add(&mut tree, Some(ws), ContainerKind::TilingWindow);
    let (stack, index, redraw) = add_master_stack_window(&mut tree, ws);
    assert_eq!(index, 0);
    assert_eq!(redraw, Some(a));
    assert_eq!(tree.kind(stack), ContainerKind::Split);
    assert_eq!(tree.tiling_direction(stack), TilingDirection::Vertical);
    assert_eq!(tree.children(ws), vec![a, stack]);
    assert_eq!(add_master_stack_window(&mut tree, ws), (stack, 0, None));
}

#[test]
fn floating_a_nested_window_moves_it_to_its_workspace() {
    let (mut tree, _, ws, split, w1, w2) = setup();
    let info = infos(&tree, WindowState::Tiling);
    let floating = WindowState::Floating { centered: true, shown_on_top: false };
    let changed = set_non_tiling(&mut tree, &info, w1, floating, false).unwrap();
    let nt = changed.window;
    assert_eq!(tree.kind(nt), ContainerKind::NonTilingWindow);
    assert_eq!(changed.rebuilt_workspace, Some(ws));
    let target = changed.insertion_target.unwrap();
    assert_eq!((target.parent, target.index, target.sibling_count), (split, 0, 0));
    assert!(tree.is_detached(split));
    assert!(tree.is_detached(w1));
    assert_eq!(tree.children(ws), vec![w2, nt]);
}

#[test]
fn minimizing_a_window_that_is_not_minimized_only_minimizes_it() {
    let (mut tree, _, _, _, w1, _) = setup();
    let info = infos(&tree, WindowState::Tiling);
    let changed = set_non_tiling(&mut tree, &info, w1, WindowState::Minimized, false).unwrap();
    assert!(changed.minimize_natively);
    assert_eq!(changed.window, w1);
}

#[test]
fn tiling_a_floating_window_appends_a_tiling_window() {
    let mut tree = ContainerTree::new();
    let ws = add(&mut tree, None, ContainerKind::Workspace);
    let a = add(&mut tree, Some(ws), ContainerKind::TilingWindow);
    let f = add(&mut tree, Some(ws), ContainerKind::NonTilingWindow);
    let b = add(&mut tree, Some(ws), ContainerKind::TilingWindow);
    let changed = set_tiling(&mut tree, f).unwrap();
    let tw = changed.window;
    assert_eq!(tree.kind(tw), ContainerKind::TilingWindow);
    assert_eq!(tree.children(ws), vec![a, b, tw]);
    assert!(tree.is_detached(f));
    assert_eq!(set_tiling(&mut tree, a), Err(WmError::InvalidWindowState));
}

#[test]
fn updating_to_the_same_state_changes_nothing() {
    let (mut tree, _, ws, _, w1, _) = setup();
    let info = infos(&tree, WindowState::Tiling);
    let changed = update_window_state(&mut tree, &info, w1, WindowState::Tiling, false).unwrap();
    assert_eq!(changed.window, w1);
    assert_eq!(changed.reorder, None);
    assert_eq!(tree.children(ws).len(), 2);
}

#[test]
fn changing_state_gives_a_window_of_the_target_kind_in_its_workspace() {
    let (mut tree, _, ws, _, w1, _) = setup();
    let info = infos(&tree, WindowState::Tiling);
    let floating = WindowState::Floating { centered: false, shown_on_top: false };
    let changed = update_window_state(&mut tree, &info, w1, floating, false).unwrap();
    let nt = changed.window;
    assert_ne!(nt, w1);
    assert_eq!(tree.kind(nt), ContainerKind::NonTilingWindow);
    assert_eq!(changed.reorder, Some(ws));
    assert_eq!(tree.parent(nt), Some(ws));

    let info = infos(&tree, floating);
    let changed = update_window_state(&mut tree, &info, nt, WindowState::Tiling, false).unwrap();
    let tw = changed.window;
    assert_eq!(tree.kind(tw), ContainerKind::TilingWindow);
    assert_eq!(tree.parent(tw), Some(ws));
    assert!(tree.is_detached(nt));
}

#[test]
fn spiral_splits_the_last_window() {
    let (mut tree, _, ws, _, _, w2) = setup();
    assert_eq!(spiral_placement(&tree, ws), SpiralPlacement::Split { parent: ws, child: w2 });
    let wide = Rect { left: 0, top: 0, right: 200, bottom: 100 };
    assert_eq!(split_direction(Some(wide), None), TilingDirection::Horizontal);
    assert_eq!(split_direction(None, Some(TilingDirection::Horizontal)), TilingDirection::Vertical);
    let s = spiral_split(&mut tree, ws, w2, TilingDirection::Vertical).unwrap();
    assert_eq!(tree.children(s), vec![w2]);
    assert_eq!(tree.parent(s), Some(ws));
    let empty = add(&mut tree, None, ContainerKind::Workspace);
    assert_eq!(spiral_placement(&tree, empty), SpiralPlacement::Workspace(0));
}

#[test]
fn new_tiling_windows_go_after_the_focused_one() {
    let (tree, root, ws, split, _, _) = setup();
    assert_eq!(insertion_target(&tree, root, true), Ok((split, 1)));
    assert_eq!(insertion_target(&tree, root, false), Ok((ws, 2)));
}

#[test]
fn moved_tiling_windows_go_after_the_focused_tiling_window() {
    let (mut tree, _, _, _, _, w2) = setup();
    let target = add(&mut tree, None, ContainerKind::Workspace);
    let t1 = add(&mut tree, Some(target), ContainerKind::TilingWindow);
    let t2 = add(&mut tree, Some(target), ContainerKind::TilingWindow);
    let info = infos(&tree, WindowState::Tiling);
    place_in_workspace(&mut tree, &info, w2, target).unwrap();
    assert_eq!(tree.children(target), vec![t1, w2, t2]);
}

#[test]
fn next_workspace_on_monitor_cycles_through_its_workspaces() {
    let mut tree = ContainerTree::new();
    let root = add(&mut tree, None, ContainerKind::Root);
    let m0 = add(&mut tree, Some(root), ContainerKind::Monitor);
    let m1 = add(&mut tree, Some(root), ContainerKind::Monitor);
    let a = add(&mut tree, Some(m0), ContainerKind::Workspace);
    let b = add(&mut tree, Some(m1), ContainerKind::Workspace);
    let w = add(&mut tree, Some(a), ContainerKind::TilingWindow);
    let mut names: Vec<String> = (0..tree.len()).map(|_| String::new()).collect();
    names[a] = "1".to_string();
    names[b] = "2".to_string();
    let cfgs = vec![
        WorkspaceBinding { name: "1".to_string(), bind_to_monitor: None },
        WorkspaceBinding { name: "2".to_string(), bind_to_monitor: None },
        WorkspaceBinding { name: "3".to_string(), bind_to_monitor: None },
        WorkspaceBinding { name: "4".to_string(), bind_to_monitor: Some(0) },
    ];
    // Workspace 1 is active here, 2 on the other monitor, 3 goes by
    // alternation (index 2 of 2 monitors: this one), 4 is bound here.
    assert_eq!(workspace_on_monitor(&tree, root, &names, &cfgs, w, true), Ok(Some("3".to_string())));
    assert_eq!(workspace_on_monitor(&tree, root, &names, &cfgs, w, false), Ok(Some("4".to_string())));
}
