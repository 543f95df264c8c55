use wm::app_command::WindowState;
use wm::common::{ContainerKind, TilingDirection, TilingLayout};
use wm::error::WmError;
use wm::sync::{DisplayState, Rect, WindowInfo};
use wm::tree::{attach_container, ContainerTree};
use wm::window_moves::{collect_tiling_windows, move_window_into_workspace};
use wm::window_state::place_new_window;

const H: TilingDirection = TilingDirection::Horizontal;

fn add(tree: &mut ContainerTree, parent: Option<usize>, kind: ContainerKind) -> usize {
    let id = tree.add_container(kind, H, TilingLayout::Tiling);
    if let Some(p) = parent {
        attach_container(tree, id, p, None).unwrap();
    }
    id
}

fn infos(tree: &ContainerTree) -> Vec<WindowInfo> {
    (0..tree.len())
        .map(|i| WindowInfo {
            state: if tree.kind(i) == ContainerKind::NonTilingWindow {
                WindowState::Floating { centered: false, shown_on_top: false }
            } else {
                WindowState::Tiling
            },
            prev_state: None,
            display_state: DisplayState::Shown,
        })
        .collect()
}

struct Setup {
    tree: ContainerTree,
    root: usize,
    mon2: usize,
    ws1: usize,
    ws2: usize,
    ws3: usize,
    w1: usize,
    w2: usize,
    x: usize,
}

/// root -> [mon1 -> ws1 -> [w1, w2], mon2 -> [ws2 -> [x], ws3]]
fn setup() -> Setup {
    let mut tree = ContainerTree::new();
    let root = add(&mut tree, None, ContainerKind::Root);
    let mon1 = add(&mut tree, Some(root), ContainerKind::Monitor);
    let ws1 = add(&mut tree, Some(mon1), ContainerKind::Workspace);
    let w1 = add(&mut tree, Some(ws1), ContainerKind::TilingWindow);
    let w2 = add(&mut tree, Some(ws1), ContainerKind::TilingWindow);
    let mon2 = add(&mut tree, Some(root), ContainerKind::Monitor);
    let ws2 = add(&mut tree, Some(mon2), ContainerKind::Workspace);
    let x = add(&mut tree, Some(ws2), ContainerKind::TilingWindow);
    let ws3 = add(&mut tree, Some(mon2), ContainerKind::Workspace);
    Setup { tree, root, mon2, ws1, ws2, ws3, w1, w2, x }
}

#[test]
fn tiling_windows_are_listed_in_tree_order() {
    let mut s = setup();
    let split = add(&mut s.tree, Some(s.ws1), ContainerKind::Split);
    let y = add(&mut s.tree, Some(split), ContainerKind::TilingWindow);
    let _f = add(&mut s.tree, Some(s.ws1), ContainerKind::NonTilingWindow);
    assert_eq!(collect_tiling_windows(&s.tree, s.ws1), vec![s.w1, s.w2, y]);
}

#[test]
fn a_tiling_window_moves_after_the_target_workspace_window() {
    let mut s = setup();
    let info = infos(&s.tree);
    let mv = move_window_into_workspace(&mut s.tree, &info, s.w1, s.ws2, Some(s.w2)).unwrap().unwrap();
    assert_eq!(s.tree.children(s.ws2), vec![s.x, s.w1]);
    assert_eq!(s.tree.focus_order(s.ws1)[0], s.w2);
    assert_eq!(mv.source_windows, vec![s.w2]);
    assert_eq!(mv.target_windows, vec![s.x, s.w1]);
}

#[test]
fn moving_to_a_hidden_workspace_keeps_its_monitor_showing_what_it_showed() {
    let mut s = setup();
    let info = infos(&s.tree);
    let mv = move_window_into_workspace(&mut s.tree, &info, s.w2, s.ws3, None).unwrap().unwrap();
    assert_eq!(s.tree.children(s.ws3), vec![s.w2]);
    assert_eq!(s.tree.focus_order(s.mon2), vec![s.ws2, s.ws3]);
    assert_eq!(s.tree.focus_order(s.ws2)[0], s.x);
    assert_eq!(mv.source_windows, vec![s.w1]);
    assert_eq!(mv.target_windows, vec![s.w2]);
}

#[test]
fn moving_to_the_same_workspace_does_nothing() {
    let mut s = setup();
    let info = infos(&s.tree);
    assert!(move_window_into_workspace(&mut s.tree, &info, s.w1, s.ws1, None).unwrap().is_none());
    assert_eq!(s.tree.children(s.ws1), vec![s.w1, s.w2]);
}

#[test]
fn a_floating_window_goes_to_the_end_and_lists_nothing() {
    let mut s = setup();
    let f = add(&mut s.tree, Some(s.ws1), ContainerKind::NonTilingWindow);
    let info = infos(&s.tree);
    let mv = move_window_into_workspace(&mut s.tree, &info, f, s.ws2, None).unwrap().unwrap();
    assert_eq!(s.tree.children(s.ws2), vec![s.x, f]);
    assert!(mv.source_windows.is_empty() && mv.target_windows.is_empty());
}

#[test]
fn moving_needs_a_workspace_on_a_monitor() {
    let mut s = setup();
    let lone = add(&mut s.tree, None, ContainerKind::TilingWindow);
    let ws = add(&mut s.tree, None, ContainerKind::Workspace);
    let w = add(&mut s.tree, Some(ws), ContainerKind::TilingWindow);
    let info = infos(&s.tree);
    assert_eq!(move_window_into_workspace(&mut s.tree, &info, lone, s.ws2, None).err(), Some(WmError::NoWorkspace));
    assert_eq!(move_window_into_workspace(&mut s.tree, &info, w, s.ws2, None).err(), Some(WmError::NoMonitor));
    assert_eq!(move_window_into_workspace(&mut s.tree, &info, s.w1, ws, None).err(), Some(WmError::NoMonitor));
}

#[test]
fn new_windows_are_placed_by_state_focus_and_spiral() {
    let mut s = setup();
    let f1 = add(&mut s.tree, None, ContainerKind::NonTilingWindow);
    place_new_window(&mut s.tree, s.root, f1, None, s.ws1, false, None).unwrap();
    assert_eq!(s.tree.children(s.ws1), vec![s.w1, s.w2, f1]);
    let f2 = add(&mut s.tree, None, ContainerKind::NonTilingWindow);
    place_new_window(&mut s.tree, s.root, f2, None, s.ws3, false, None).unwrap();
    assert_eq!(s.tree.children(s.ws3), vec![f2]);
    let f3 = add(&mut s.tree, None, ContainerKind::NonTilingWindow);
    place_new_window(&mut s.tree, s.root, f3, Some(s.ws3), s.ws3, false, None).unwrap();
    assert_eq!(s.tree.children(s.ws3), vec![f3, f2]);
    let t1 = add(&mut s.tree, None, ContainerKind::TilingWindow);
    place_new_window(&mut s.tree, s.root, t1, None, s.ws3, true, None).unwrap();
    assert_eq!(s.tree.children(s.ws3), vec![t1, f3, f2]);
    let t2 = add(&mut s.tree, None, ContainerKind::TilingWindow);
    let wide = Rect { left: 0, top: 0, right: 300, bottom: 100 };
    place_new_window(&mut s.tree, s.root, t2, None, s.ws3, true, Some(wide)).unwrap();
    let split = s.tree.children(s.ws3)[0];
    assert_eq!(s.tree.kind(split), ContainerKind::Split);
    assert_eq!(s.tree.tiling_direction(split), H);
    assert_eq!(s.tree.children(split), vec![t1, t2]);
    // A window already in the tree is refused.
    assert!(place_new_window(&mut s.tree, s.root, s.w1, None, s.ws3, true, None).is_err());
}
