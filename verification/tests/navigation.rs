use wm::app_command::WindowState;
use wm::common::{ContainerKind, Direction, TilingDirection, TilingLayout};
use wm::error::WmError;
use wm::navigation::{
    child_in_direction, descendant_in_direction, floating_focus_target, focus_in_accordion, focus_in_direction_with_wrap,
    focus_monitor_in_direction, focus_workspace_edge, tiling_focus_target, workspace_focus_target, FocusMove,
};
use wm::stack::{focus_in_direction as master_stack_focus, window_focus_target};
use wm::sync::{DisplayState, WindowInfo};
use wm::tree::{attach_container, ContainerTree};

fn add(tree: &mut ContainerTree, parent: Option<usize>, kind: ContainerKind, dir: TilingDirection) -> usize {
    let id = tree.add_container(kind, dir, TilingLayout::Tiling);
    if let Some(p) = parent {
        attach_container(tree, id, p, None).unwrap();
    }
    id
}

fn infos(tree: &ContainerTree, state: WindowState) -> Vec<WindowInfo> {
    (0..tree.len()).map(|_| WindowInfo { state, prev_state: None, display_state: DisplayState::Shown }).collect()
}

/// root -> monitor -> ws (horizontal) -> [w1, split (vertical) -> [a, b], w2]
struct Layout {
    tree: ContainerTree,
    mon: usize,
    ws: usize,
    w1: usize,
    split: usize,
    a: usize,
    b: usize,
    w2: usize,
}

fn layout() -> Layout {
    let h = TilingDirection::Horizontal;
    let v = TilingDirection::Vertical;
    let mut tree = ContainerTree::new();
    let root = add(&mut tree, None, ContainerKind::Root, h);
    let mon = add(&mut tree, Some(root), ContainerKind::Monitor, h);
    let ws = add(&mut tree, Some(mon), ContainerKind::Workspace, h);
    let w1 = add(&mut tree, Some(ws), ContainerKind::TilingWindow, h);
    let split = add(&mut tree, Some(ws), ContainerKind::Split, v);
    let a = add(&mut tree, Some(split), ContainerKind::TilingWindow, h);
    let b = add(&mut tree, Some(split), ContainerKind::TilingWindow, h);
    let w2 = add(&mut tree, Some(ws), ContainerKind::TilingWindow, h);
    Layout { tree, mon, ws, w1, split, a, b, w2 }
}

#[test]
fn child_in_direction_along_and_across_the_axis() {
    let l = layout();
    assert_eq!(child_in_direction(&l.tree, l.ws, Direction::Left), Some(l.w1));
    assert_eq!(child_in_direction(&l.tree, l.ws, Direction::Right), Some(l.w2));
    // Across the axis: the most recently focused tiling child.
    assert_eq!(child_in_direction(&l.tree, l.ws, Direction::Up), Some(l.w1));
    assert_eq!(child_in_direction(&l.tree, l.split, Direction::Down), Some(l.b));
}

#[test]
fn descendant_in_direction_descends_through_splits() {
    let l = layout();
    assert_eq!(descendant_in_direction(&l.tree, l.split, Direction::Up), Some(l.a));
    assert_eq!(descendant_in_direction(&l.tree, l.split, Direction::Down), Some(l.b));
    assert_eq!(descendant_in_direction(&l.tree, l.split, Direction::Left), Some(l.a));
}

#[test]
fn tiling_focus_moves_between_siblings() {
    let l = layout();
    assert_eq!(tiling_focus_target(&l.tree, l.a, Direction::Down), Ok(Some(l.b)));
    assert_eq!(tiling_focus_target(&l.tree, l.b, Direction::Up), Ok(Some(l.a)));
    // Climbs out of the split to find the next window along the axis.
    assert_eq!(tiling_focus_target(&l.tree, l.a, Direction::Right), Ok(Some(l.w2)));
    assert_eq!(tiling_focus_target(&l.tree, l.b, Direction::Left), Ok(Some(l.w1)));
}

#[test]
fn tiling_focus_enters_split_on_the_near_side() {
    let l = layout();
    // Entering the vertical split sideways picks its most recently focused child.
    assert_eq!(tiling_focus_target(&l.tree, l.w1, Direction::Right), Ok(Some(l.a)));
    assert_eq!(tiling_focus_target(&l.tree, l.w2, Direction::Left), Ok(Some(l.a)));
}

#[test]
fn tiling_focus_at_the_edge_finds_nothing() {
    let l = layout();
    assert_eq!(tiling_focus_target(&l.tree, l.w2, Direction::Right), Ok(None));
    assert_eq!(tiling_focus_target(&l.tree, l.w1, Direction::Up), Ok(None));
}

#[test]
fn tiling_focus_needs_direction_containers() {
    let mut tree = ContainerTree::new();
    let w = add(&mut tree, None, ContainerKind::TilingWindow, TilingDirection::Horizontal);
    assert_eq!(tiling_focus_target(&tree, w, Direction::Left), Err(WmError::NoDirectionContainer));
}

#[test]
fn floating_focus_cycles_through_floating_siblings() {
    let h = TilingDirection::Horizontal;
    let mut tree = ContainerTree::new();
    let ws = add(&mut tree, None, ContainerKind::Workspace, h);
    let f1 = add(&mut tree, Some(ws), ContainerKind::NonTilingWindow, h);
    let t = add(&mut tree, Some(ws), ContainerKind::TilingWindow, h);
    let f2 = add(&mut tree, Some(ws), ContainerKind::NonTilingWindow, h);
    let f3 = add(&mut tree, Some(ws), ContainerKind::NonTilingWindow, h);
    let floating = WindowState::Floating { centered: false, shown_on_top: false };
    let info = infos(&tree, floating);
    let _ = t;
    assert_eq!(floating_focus_target(&tree, &info, f2, Direction::Left), Some(f3));
    assert_eq!(floating_focus_target(&tree, &info, f3, Direction::Left), Some(f2));
    assert_eq!(floating_focus_target(&tree, &info, f2, Direction::Right), Some(f1));
    assert_eq!(floating_focus_target(&tree, &info, f1, Direction::Right), Some(f2));
    assert_eq!(floating_focus_target(&tree, &info, f2, Direction::Up), None);
}

#[test]
fn workspace_focus_goes_to_the_near_edge_of_the_next_monitor() {
    let h = TilingDirection::Horizontal;
    let mut l = layout();
    let mon2 = add(&mut l.tree, None, ContainerKind::Monitor, h);
    let ws2 = add(&mut l.tree, Some(mon2), ContainerKind::Workspace, h);
    let x = add(&mut l.tree, Some(ws2), ContainerKind::TilingWindow, h);
    let y = add(&mut l.tree, Some(ws2), ContainerKind::TilingWindow, h);
    let info = infos(&l.tree, WindowState::Tiling);
    // Moving right enters on the left side of the target workspace.
    assert_eq!(workspace_focus_target(&l.tree, &info, l.w2, Direction::Right, Some(mon2)), Ok(Some(x)));
    assert_eq!(workspace_focus_target(&l.tree, &info, l.w2, Direction::Left, Some(mon2)), Ok(Some(y)));
    assert_eq!(workspace_focus_target(&l.tree, &info, l.w2, Direction::Right, None), Ok(None));
    // A container with no monitor above it cannot look across monitors.
    let lone = add(&mut l.tree, None, ContainerKind::TilingWindow, h);
    let info = infos(&l.tree, WindowState::Tiling);
    assert_eq!(workspace_focus_target(&l.tree, &info, lone, Direction::Right, Some(l.mon)), Err(WmError::NoMonitor));
}

#[test]
fn empty_workspace_is_itself_the_target() {
    let h = TilingDirection::Horizontal;
    let mut l = layout();
    let mon2 = add(&mut l.tree, None, ContainerKind::Monitor, h);
    let ws2 = add(&mut l.tree, Some(mon2), ContainerKind::Workspace, h);
    let info = infos(&l.tree, WindowState::Tiling);
    assert_eq!(workspace_focus_target(&l.tree, &info, l.w2, Direction::Right, Some(mon2)), Ok(Some(ws2)));
}

#[test]
fn focus_in_direction_focuses_the_target() {
    let mut l = layout();
    let info = infos(&l.tree, WindowState::Tiling);
    assert_eq!(focus_in_direction_with_wrap(&mut l.tree, &info, l.a, Direction::Down, None), Ok(FocusMove::Focused(l.b)));
    assert_eq!(l.tree.focus_order(l.split)[0], l.b);
    assert_eq!(l.tree.focus_order(l.ws)[0], l.split);
    assert_eq!(l.tree.focus_order(l.mon)[0], l.ws);
}

#[test]
fn focus_in_direction_wraps_without_a_target() {
    let mut l = layout();
    let info = infos(&l.tree, WindowState::Tiling);
    let before = l.tree.focus_order(l.ws);
    assert_eq!(
        focus_in_direction_with_wrap(&mut l.tree, &info, l.w2, Direction::Right, None),
        Ok(FocusMove::Wrap { next: true })
    );
    assert_eq!(
        focus_in_direction_with_wrap(&mut l.tree, &info, l.w1, Direction::Left, None),
        Ok(FocusMove::Wrap { next: false })
    );
    assert_eq!(l.tree.focus_order(l.ws), before);
}

#[test]
fn focus_workspace_edge_picks_the_side_entered_from() {
    let mut l = layout();
    assert_eq!(focus_workspace_edge(&mut l.tree, l.ws, Direction::Right), l.w1);
    assert_eq!(l.tree.focus_order(l.ws)[0], l.w1);
    assert_eq!(focus_workspace_edge(&mut l.tree, l.ws, Direction::Left), l.w2);
    assert_eq!(l.tree.focus_order(l.ws)[0], l.w2);
}

#[test]
fn accordion_focus_moves_across_its_axis_only() {
    let mut tree = ContainerTree::new();
    let ws = add(&mut tree, None, ContainerKind::Workspace, TilingDirection::HorizontalAccordion);
    let a = add(&mut tree, Some(ws), ContainerKind::TilingWindow, TilingDirection::Horizontal);
    let b = add(&mut tree, Some(ws), ContainerKind::TilingWindow, TilingDirection::Horizontal);
    let c = add(&mut tree, Some(ws), ContainerKind::TilingWindow, TilingDirection::Horizontal);
    assert_eq!(focus_in_accordion(&mut tree, b, Direction::Left), None);
    assert_eq!(focus_in_accordion(&mut tree, b, Direction::Down), Some(c));
    assert_eq!(tree.focus_order(ws)[0], c);
    assert_eq!(focus_in_accordion(&mut tree, b, Direction::Up), Some(a));
    assert_eq!(tree.focus_order(ws)[0], a);
    assert_eq!(focus_in_accordion(&mut tree, a, Direction::Up), None);
    let mut tree = ContainerTree::new();
    let ws = add(&mut tree, None, ContainerKind::Workspace, TilingDirection::VerticalAccordion);
    let a = add(&mut tree, Some(ws), ContainerKind::TilingWindow, TilingDirection::Horizontal);
    let b = add(&mut tree, Some(ws), ContainerKind::TilingWindow, TilingDirection::Horizontal);
    assert_eq!(focus_in_accordion(&mut tree, a, Direction::Right), Some(b));
    assert_eq!(focus_in_accordion(&mut tree, a, Direction::Down), None);
    // Outside an accordion nothing happens.
    let l = layout();
    let mut tree = l.tree;
    assert_eq!(focus_in_accordion(&mut tree, l.w1, Direction::Right), None);
}

#[test]
fn master_stack_focus_targets() {
    let h = TilingDirection::Horizontal;
    let mut tree = ContainerTree::new();
    let root = add(&mut tree, None, ContainerKind::Root, h);
    let mon = add(&mut tree, Some(root), ContainerKind::Monitor, h);
    let ws = add(&mut tree, Some(mon), ContainerKind::Workspace, h);
    let s1 = add(&mut tree, Some(ws), ContainerKind::TilingWindow, h);
    let s2 = add(&mut tree, Some(ws), ContainerKind::TilingWindow, h);
    let m = add(&mut tree, Some(ws), ContainerKind::TilingWindow, h);
    tree.set_tiling_layout(ws, TilingLayout::MasterStack { master_window: Some(m) });
    assert_eq!(window_focus_target(&tree, s1, ws, Direction::Down), Some(s2));
    assert_eq!(window_focus_target(&tree, s2, ws, Direction::Up), Some(s1));
    assert_eq!(window_focus_target(&tree, s2, ws, Direction::Left), Some(m));
    assert_eq!(window_focus_target(&tree, s2, ws, Direction::Right), None);
    let info = infos(&tree, WindowState::Tiling);
    assert_eq!(master_stack_focus(&mut tree, &info, s2, ws, Direction::Left, None), Some(m));
    assert_eq!(tree.focus_order(ws)[0], m);
    // Nothing within the workspace and no monitor that way: no target.
    assert_eq!(master_stack_focus(&mut tree, &info, s2, ws, Direction::Right, None), None);
    assert_eq!(tree.focus_order(ws)[0], m);
}

#[test]
fn master_stack_focus_crosses_to_the_next_monitor() {
    let h = TilingDirection::Horizontal;
    let mut l = layout();
    let mon2 = add(&mut l.tree, None, ContainerKind::Monitor, h);
    let ws2 = add(&mut l.tree, Some(mon2), ContainerKind::Workspace, h);
    let x = add(&mut l.tree, Some(ws2), ContainerKind::TilingWindow, h);
    l.tree.set_tiling_layout(l.ws, TilingLayout::MasterStack { master_window: Some(l.w1) });
    let info = infos(&l.tree, WindowState::Tiling);
    assert_eq!(master_stack_focus(&mut l.tree, &info, l.w2, l.ws, Direction::Right, Some(mon2)), Some(x));
    assert_eq!(l.tree.focus_order(ws2)[0], x);
}

#[test]
fn focusing_the_monitor_that_way_focuses_its_last_focused_window() {
    let h = TilingDirection::Horizontal;
    let mut l = layout();
    let root = l.tree.parent(l.mon).unwrap();
    let mon2 = add(&mut l.tree, Some(root), ContainerKind::Monitor, h);
    let ws2 = add(&mut l.tree, Some(mon2), ContainerKind::Workspace, h);
    let x = add(&mut l.tree, Some(ws2), ContainerKind::TilingWindow, h);
    assert_eq!(focus_monitor_in_direction(&mut l.tree, root, None), Ok(None));
    assert_eq!(focus_monitor_in_direction(&mut l.tree, root, Some(mon2)), Ok(Some((l.ws, ws2))));
    assert_eq!(l.tree.focus_order(root)[0], mon2);
    assert_eq!(l.tree.focus_order(ws2)[0], x);
    // A monitor without a workspace is refused.
    let mon3 = add(&mut l.tree, Some(root), ContainerKind::Monitor, h);
    assert_eq!(focus_monitor_in_direction(&mut l.tree, root, Some(mon3)), Err(WmError::NoDisplayedWorkspace));
}

#[test]
fn focusing_an_empty_monitor_workspace_focuses_the_workspace() {
    let h = TilingDirection::Horizontal;
    let mut l = layout();
    let root = l.tree.parent(l.mon).unwrap();
    let mon2 = add(&mut l.tree, Some(root), ContainerKind::Monitor, h);
    let ws2 = add(&mut l.tree, Some(mon2), ContainerKind::Workspace, h);
    assert_eq!(focus_monitor_in_direction(&mut l.tree, root, Some(mon2)), Ok(Some((l.ws, ws2))));
    assert_eq!(l.tree.focus_order(mon2)[0], ws2);
    assert_eq!(l.tree.focus_order(root)[0], mon2);
}
