use wm::app_command::WindowState;
use wm::common::{ContainerKind, TilingDirection, TilingLayout};
use wm::error::WmError;
use wm::sync::{
    apply_window_effects, focused_container, jump_cursor, move_cursor_to_active_window, next_display_state,
    platform_sync, redraw_containers, should_start_animation, should_start_new_animation, toggle_tray_icon_mode, transitioning_fullscreen,
    update_container_gaps, z_order, AnimationSwitches, CursorJumpTrigger, DisplayState, EffectSwitches, HideSettings,
    PendingSync, Rect, RunningAnimation, TrayIconMode, WindowInfo, ZOrder, AnimationThreshold,
    AnimationSettings, AnimationStart, WindowAnimationPlan, WindowMotion, plan_window_animation, use_resize_timing,
};
use wm::tree::{attach_container, ContainerTree};

fn add(tree: &mut ContainerTree, parent: Option<usize>, kind: ContainerKind) -> usize {
    let id = tree.add_container(kind, TilingDirection::Horizontal, TilingLayout::Tiling);
    if let Some(p) = parent {
        attach_container(tree, id, p, None).unwrap();
    }
    id
}

/// root -> [monitor -> [ws1 -> [w1, w2], ws2 -> [w3]]]; ws1 displayed.
fn setup() -> (ContainerTree, usize, usize, usize, Vec<usize>) {
    let mut tree = ContainerTree::new();
    let root = add(&mut tree, None, ContainerKind::Root);
    let mon = add(&mut tree, Some(root), ContainerKind::Monitor);
    let ws1 = add(&mut tree, Some(mon), ContainerKind::Workspace);
    let ws2 = add(&mut tree, Some(mon), ContainerKind::Workspace);
    let w1 = add(&mut tree, Some(ws1), ContainerKind::TilingWindow);
    let w2 = add(&mut tree, Some(ws1), ContainerKind::TilingWindow);
    let w3 = add(&mut tree, Some(ws2), ContainerKind::TilingWindow);
    (tree, root, ws1, ws2, vec![w1, w2, w3])
}

fn info(tree: &ContainerTree, state: WindowState, ds: DisplayState) -> Vec<WindowInfo> {
    (0..tree.len()).map(|_| WindowInfo { state, prev_state: None, display_state: ds }).collect()
}

fn rect(left: i32, top: i32, right: i32, bottom: i32) -> Rect {
    Rect { left, top, right, bottom }
}

/// Each container goes to the same rectangle, seen for the first time.
fn still_motion(tree: &ContainerTree) -> Vec<WindowMotion> {
    (0..tree.len()).map(|_| WindowMotion { target: rect(0, 0, 100, 100), previous_target: None, existing: None }).collect()
}

fn animations(enabled: bool) -> AnimationSettings {
    AnimationSettings { enabled, switches: AnimationSwitches { open: true, close: true, movement: true } }
}

const STILL: WindowAnimationPlan = WindowAnimationPlan { record_target: false, start: None, from_animation: false };

#[test]
fn focused_container_follows_focus_order_to_a_leaf() {
    let (tree, root, _, _, w) = setup();
    assert_eq!(focused_container(&tree, root), Some(w[0]));
    assert_eq!(move_cursor_to_active_window(&tree, root), Some(w[0]));
}

#[test]
fn empty_focused_workspace_gets_no_cursor_move() {
    let mut tree = ContainerTree::new();
    let root = add(&mut tree, None, ContainerKind::Root);
    let mon = add(&mut tree, Some(root), ContainerKind::Monitor);
    let ws = add(&mut tree, Some(mon), ContainerKind::Workspace);
    assert_eq!(focused_container(&tree, root), Some(ws));
    assert_eq!(move_cursor_to_active_window(&tree, root), None);
}

#[test]
fn display_state_transitions() {
    assert_eq!(next_display_state(DisplayState::Hidden, true), DisplayState::Showing);
    assert_eq!(next_display_state(DisplayState::Hiding, true), DisplayState::Showing);
    assert_eq!(next_display_state(DisplayState::Shown, false), DisplayState::Hiding);
    assert_eq!(next_display_state(DisplayState::Shown, true), DisplayState::Shown);
    assert_eq!(next_display_state(DisplayState::Hidden, false), DisplayState::Hidden);
}

#[test]
fn z_order_rules() {
    let top = WindowState::Floating { centered: false, shown_on_top: true };
    assert_eq!(z_order(top, false, 3, None), ZOrder::TopMost);
    assert_eq!(z_order(WindowState::Tiling, true, 3, Some(4)), ZOrder::AfterWindow(4));
    assert_eq!(z_order(WindowState::Tiling, true, 4, Some(4)), ZOrder::Normal);
    assert_eq!(z_order(WindowState::Tiling, false, 3, Some(4)), ZOrder::Normal);
}

#[test]
fn fullscreen_transitions_are_detected() {
    let fs = WindowState::Fullscreen { maximized: false, shown_on_top: false };
    let maxed = WindowState::Fullscreen { maximized: true, shown_on_top: false };
    assert!(transitioning_fullscreen(Some(WindowState::Tiling), fs));
    assert!(!transitioning_fullscreen(Some(WindowState::Tiling), maxed));
    assert!(transitioning_fullscreen(Some(maxed), WindowState::Tiling));
    assert!(!transitioning_fullscreen(None, fs));
}

#[test]
fn animation_thresholds() {
    let on = AnimationSwitches { open: true, close: true, movement: true };
    let t = rect(0, 0, 100, 100);
    assert!(should_start_animation(true, false, on, None, None, t));
    let running = RunningAnimation { complete: false, target: rect(3, 3, 103, 103) };
    assert!(should_start_animation(false, false, on, Some(running), None, t));
    let close_by = RunningAnimation { complete: false, target: rect(2, 2, 102, 102) };
    assert!(!should_start_animation(false, false, on, Some(close_by), None, t));
    assert!(should_start_animation(false, false, on, None, Some(rect(11, 0, 111, 100)), t));
    assert!(!should_start_animation(false, false, on, None, Some(rect(10, 0, 110, 100)), t));
    assert!(!should_start_animation(false, false, on, None, None, t));
}

#[test]
fn configured_thresholds_decide_new_animations() {
    let moves = AnimationThreshold { enabled: true, threshold_px: 10 };
    let resizes = AnimationThreshold { enabled: true, threshold_px: 40 };
    let off = AnimationThreshold { enabled: false, threshold_px: 0 };
    let t = rect(0, 0, 100, 100);
    let far = rect(20, 0, 120, 100);
    // Disabled: never.
    assert!(!should_start_new_animation(false, off, resizes, None, Some(far), t));
    // No animation: the distance from the previous target against the threshold in use.
    assert!(should_start_new_animation(false, moves, resizes, None, Some(far), t));
    assert!(!should_start_new_animation(true, moves, resizes, None, Some(far), t));
    assert!(!should_start_new_animation(false, moves, resizes, None, Some(rect(10, 0, 110, 100)), t));
    assert!(!should_start_new_animation(false, moves, resizes, None, None, t));
    // Completed animation: the distance from its target.
    let done = RunningAnimation { complete: true, target: far };
    assert!(should_start_new_animation(false, moves, resizes, Some(done), None, t));
    let done_close = RunningAnimation { complete: true, target: rect(1, 0, 101, 100) };
    assert!(!should_start_new_animation(false, moves, resizes, Some(done_close), None, t));
    // In progress: any change of target.
    let running = RunningAnimation { complete: false, target: rect(1, 0, 101, 100) };
    assert!(should_start_new_animation(false, moves, resizes, Some(running), None, t));
    let same = RunningAnimation { complete: false, target: t };
    assert!(!should_start_new_animation(false, moves, resizes, Some(same), None, t));
    // A threshold past i32::MAX reads as negative: any distance is over it.
    let wrapped = AnimationThreshold { enabled: true, threshold_px: 0x8000_0000 };
    assert!(should_start_new_animation(false, wrapped, resizes, None, Some(t), t));
}

#[test]
fn sync_plan_follows_pending_flags() {
    let (tree, root, _, _, w) = setup();
    let mut pending = PendingSync {
        needs_focus_update: true,
        containers_to_redraw: vec![],
        workspaces_to_reorder: vec![],
        needs_cursor_jump: true,
        needs_focused_effect_update: true,
        needs_all_effects_update: false,
    };
    let plan = platform_sync(&tree, root, &mut pending, false, Some(w[1])).unwrap();
    assert_eq!(pending, PendingSync::new());
    assert_eq!(plan.focused, w[0]);
    assert!(plan.sync_focus);
    assert!(!plan.redraw);
    assert!(!plan.jump_cursor);
    assert_eq!(plan.focused_effects_window, Some(w[0]));
    assert_eq!(plan.unfocused_effects_windows, vec![w[1]]);
    assert_eq!(plan.prev_effects_window, Some(w[0]));
}

#[test]
fn all_effects_update_covers_every_other_window() {
    let (tree, root, ws1, _, w) = setup();
    let mut pending = PendingSync {
        needs_focus_update: false,
        containers_to_redraw: vec![ws1],
        workspaces_to_reorder: vec![],
        needs_cursor_jump: false,
        needs_focused_effect_update: false,
        needs_all_effects_update: true,
    };
    let plan = platform_sync(&tree, root, &mut pending, true, None).unwrap();
    assert!(plan.redraw);
    assert_eq!(plan.containers_to_redraw, vec![ws1]);
    assert!(plan.workspaces_to_reorder.is_empty());
    assert_eq!(pending, PendingSync::new());
    assert_eq!(plan.unfocused_effects_windows, vec![w[1], w[2]]);
}

#[test]
fn sync_needs_a_focused_container() {
    let mut tree = ContainerTree::new();
    let root = add(&mut tree, None, ContainerKind::Root);
    let mut pending = PendingSync {
        needs_focus_update: true,
        containers_to_redraw: vec![root],
        workspaces_to_reorder: vec![],
        needs_cursor_jump: false,
        needs_focused_effect_update: false,
        needs_all_effects_update: false,
    };
    let before = pending.clone();
    assert_eq!(platform_sync(&tree, root, &mut pending, false, None), Err(WmError::NoFocusedContainer));
    assert_eq!(pending, before);
}

#[test]
fn redraw_hides_windows_of_hidden_workspaces() {
    let (tree, root, ws1, ws2, w) = setup();
    let info = info(&tree, WindowState::Tiling, DisplayState::Shown);
    let hide = HideSettings { cloak: true, show_all_in_taskbar: false };
    let (updates, err) = redraw_containers(&tree, &info, root, w[0], &vec![ws1, ws2], &vec![], false, hide, animations(false), &still_motion(&tree));
    assert_eq!(err, None);
    assert_eq!(updates.len(), 3);
    let w3 = updates.iter().find(|u| u.window == w[2]).unwrap();
    assert_eq!(w3.display_state, DisplayState::Hiding);
    assert!(w3.is_closing);
    assert!(w3.update_taskbar);
    let w1 = updates.iter().find(|u| u.window == w[0]).unwrap();
    assert_eq!(w1.display_state, DisplayState::Shown);
    assert!(w1.is_visible);
    assert_eq!(updates.last().unwrap().window, w[0]);
}

#[test]
fn focus_change_brings_the_focused_workspace_to_front() {
    let (tree, root, _, _, w) = setup();
    let info = info(&tree, WindowState::Tiling, DisplayState::Shown);
    let hide = HideSettings { cloak: false, show_all_in_taskbar: true };
    let (updates, err) = redraw_containers(&tree, &info, root, w[0], &vec![], &vec![], true, hide, animations(true), &still_motion(&tree));
    assert_eq!(err, None);
    assert_eq!(updates.len(), 2);
    for u in &updates {
        assert!(u.z_order_only);
    }
    let other = updates.iter().find(|u| u.window == w[1]).unwrap();
    assert_eq!(other.z_order, ZOrder::AfterWindow(w[0]));
}

#[test]
fn effects_apply_only_where_configured() {
    let focused = EffectSwitches { border: true, hide_title_bar: false, corner_style: false, transparency: false };
    let other = EffectSwitches { border: false, hide_title_bar: false, corner_style: false, transparency: true };
    let f = apply_window_effects(focused, other, true);
    assert_eq!(f.border, Some(true));
    assert_eq!(f.hide_title_bar, None);
    assert_eq!(f.transparency, Some(false));
    let o = apply_window_effects(focused, other, false);
    assert_eq!(o.border, Some(false));
    assert_eq!(o.transparency, Some(true));
}

#[test]
fn cursor_jumps_to_the_focused_monitor_from_another() {
    let (tree, _, ws1, _, w) = setup();
    let mon = tree.parent(ws1).unwrap();
    assert_eq!(jump_cursor(&tree, w[0], CursorJumpTrigger::WindowFocus, None), Ok(Some(w[0])));
    assert_eq!(jump_cursor(&tree, w[0], CursorJumpTrigger::MonitorFocus, Some(99)), Ok(Some(mon)));
    assert_eq!(jump_cursor(&tree, w[0], CursorJumpTrigger::MonitorFocus, Some(mon)), Ok(None));
    assert_eq!(jump_cursor(&tree, w[0], CursorJumpTrigger::MonitorFocus, None), Ok(None));
}

#[test]
fn gaps_follow_tiling_containers_and_workspaces() {
    let (tree, root, ws1, ws2, w) = setup();
    let (tiling, workspaces) = update_container_gaps(&tree, root);
    assert_eq!(tiling, vec![w[0], w[1], w[2]]);
    assert_eq!(workspaces, vec![ws1, ws2]);
}

#[test]
fn tray_icon_toggle_flips_the_mode() {
    assert_eq!(toggle_tray_icon_mode(TrayIconMode::Shown), TrayIconMode::Hidden);
    assert_eq!(toggle_tray_icon_mode(TrayIconMode::Hidden), TrayIconMode::Shown);
}

#[test]
fn without_animations_windows_go_straight_to_their_targets() {
    let (tree, root, ws1, ws2, w) = setup();
    let info = info(&tree, WindowState::Tiling, DisplayState::Hidden);
    let hide = HideSettings { cloak: false, show_all_in_taskbar: true };
    let mut motion = still_motion(&tree);
    motion[w[0]] = WindowMotion {
        target: rect(0, 0, 100, 100),
        previous_target: Some(rect(300, 0, 400, 100)),
        existing: Some(RunningAnimation { complete: false, target: rect(200, 0, 300, 100) }),
    };
    let (updates, err) = redraw_containers(&tree, &info, root, w[0], &vec![ws1, ws2], &vec![], false, hide, animations(false), &motion);
    assert_eq!(err, None);
    assert_eq!(updates.len(), 3);
    for u in &updates {
        assert_eq!(u.animation, STILL);
    }
    // With animations on, the opening windows of the displayed workspace animate.
    let (updates, _) = redraw_containers(&tree, &info, root, w[0], &vec![ws1, ws2], &vec![], false, hide, animations(true), &motion);
    let w2 = updates.iter().find(|u| u.window == w[1]).unwrap();
    assert!(w2.is_opening);
    assert_eq!(w2.animation, WindowAnimationPlan { record_target: true, start: Some(AnimationStart::Open), from_animation: true });
    let w1 = updates.iter().find(|u| u.window == w[0]).unwrap();
    assert_eq!(w1.animation, WindowAnimationPlan { record_target: true, start: None, from_animation: true });
}

#[test]
fn window_animation_plans() {
    let on = animations(true);
    let t = rect(0, 0, 100, 100);
    let moved = WindowMotion { target: t, previous_target: Some(rect(50, 0, 150, 100)), existing: None };
    assert_eq!(plan_window_animation(animations(false), false, false, moved), STILL);
    assert_eq!(
        plan_window_animation(on, false, false, moved),
        WindowAnimationPlan { record_target: true, start: Some(AnimationStart::Movement { from: rect(50, 0, 150, 100) }), from_animation: true }
    );
    let nudged = WindowMotion { target: t, previous_target: Some(rect(5, 0, 105, 100)), existing: None };
    assert_eq!(plan_window_animation(on, false, false, nudged), WindowAnimationPlan { record_target: true, start: None, from_animation: false });
    let closing = WindowMotion { target: t, previous_target: None, existing: None };
    assert_eq!(
        plan_window_animation(on, false, true, closing),
        WindowAnimationPlan { record_target: true, start: Some(AnimationStart::Close), from_animation: true }
    );
    // A running animation retargeted by more than 5 px, but no previous target: nothing new starts.
    let retarget = WindowMotion { target: t, previous_target: None, existing: Some(RunningAnimation { complete: false, target: rect(20, 0, 120, 100) }) };
    assert_eq!(plan_window_animation(on, false, false, retarget), WindowAnimationPlan { record_target: true, start: None, from_animation: true });
}

#[test]
fn resize_timing_is_shared_across_a_resizing_cycle() {
    assert!(use_resize_timing(true, false, false));
    assert!(use_resize_timing(false, true, true));
    assert!(!use_resize_timing(false, true, false));
    assert!(!use_resize_timing(false, false, true));
}
