use wm::app_command::{
    join_words, toggled_state, CommandAction, InvokeCommand, InvokeFocusCommand, InvokeMoveCommand,
    InvokePositionCommand, LogLevel, RunContext, Verbosity, WindowPositionTarget, WindowState, WorkspaceTarget,
};
use wm::common::{ContainerKind, Direction, TilingDirection, TilingLayout};
use wm::error::WmError;
use wm::layout::TilingDirectionChanged;
use wm::tree::{attach_container, ContainerTree};

fn ctx(root: usize) -> RunContext {
    RunContext {
        root,
        floating_centered: true,
        floating_shown_on_top: false,
        fullscreen_maximized: true,
        fullscreen_shown_on_top: false,
        window_state: WindowState::Tiling,
        prev_window_state: None,
        default_state: WindowState::Tiling,
    }
}

/// root -> monitor -> workspace -> [tiling window, tiling window]
fn setup() -> (ContainerTree, usize, usize, usize, usize) {
    let mut tree = ContainerTree::new();
    let root = tree.add_container(ContainerKind::Root, TilingDirection::Horizontal, TilingLayout::Tiling);
    let mon = tree.add_container(ContainerKind::Monitor, TilingDirection::Horizontal, TilingLayout::Tiling);
    attach_container(&mut tree, mon, root, None).unwrap();
    let ws = tree.add_container(ContainerKind::Workspace, TilingDirection::Horizontal, TilingLayout::Tiling);
    attach_container(&mut tree, ws, mon, None).unwrap();
    let w1 = tree.add_container(ContainerKind::TilingWindow, TilingDirection::Horizontal, TilingLayout::Tiling);
    attach_container(&mut tree, w1, ws, None).unwrap();
    let w2 = tree.add_container(ContainerKind::TilingWindow, TilingDirection::Horizontal, TilingLayout::Tiling);
    attach_container(&mut tree, w2, ws, None).unwrap();
    (tree, root, ws, w1, w2)
}

fn focus_args() -> InvokeFocusCommand {
    InvokeFocusCommand {
        direction: None,
        workspace: None,
        monitor: None,
        next_active_workspace: false,
        prev_active_workspace: false,
        next_workspace: false,
        prev_workspace: false,
        recent_workspace: false,
    }
}

#[test]
fn verbose_wins_over_quiet() {
    assert_eq!(Verbosity { verbose: true, quiet: true }.level(), LogLevel::Debug);
    assert_eq!(Verbosity { verbose: false, quiet: true }.level(), LogLevel::Error);
    assert_eq!(Verbosity { verbose: false, quiet: false }.level(), LogLevel::Info);
}

#[test]
fn toggling_into_the_current_state_returns_to_the_previous_one() {
    let floating = WindowState::Floating { centered: true, shown_on_top: false };
    assert_eq!(toggled_state(WindowState::Tiling, None, floating, WindowState::Tiling), floating);
    let other_floating = WindowState::Floating { centered: false, shown_on_top: true };
    assert_eq!(toggled_state(floating, Some(WindowState::Minimized), other_floating, WindowState::Tiling), WindowState::Minimized);
    assert_eq!(toggled_state(floating, None, other_floating, WindowState::Tiling), WindowState::Tiling);
}

#[test]
fn shell_command_words_are_joined_by_spaces() {
    let words = vec!["echo".to_string(), "a".to_string(), "b".to_string()];
    assert_eq!(join_words(&words), "echo a b");
    assert_eq!(join_words(&vec![]), "");
}

#[test]
fn detached_subject_is_refused() {
    let (mut tree, root, _, _, _) = setup();
    let lonely = tree.add_container(ContainerKind::TilingWindow, TilingDirection::Horizontal, TilingLayout::Tiling);
    assert_eq!(InvokeCommand::Close.run(lonely, &mut tree, ctx(root)), Err(WmError::SubjectDetached));
}

#[test]
fn window_commands_do_nothing_on_workspaces() {
    let (mut tree, root, ws, _, _) = setup();
    assert_eq!(InvokeCommand::Close.run(ws, &mut tree, ctx(root)), Ok(vec![]));
    assert_eq!(InvokeCommand::Close.run(ws, &mut tree, ctx(root)).unwrap().len(), 0);
}

#[test]
fn focus_steps_run_in_order() {
    let (mut tree, root, _, w1, _) = setup();
    let mut args = focus_args();
    args.direction = Some(Direction::Left);
    args.workspace = Some("2".to_string());
    args.recent_workspace = true;
    let plan = InvokeCommand::Focus(args).run(w1, &mut tree, ctx(root)).unwrap();
    assert_eq!(plan, vec![
        CommandAction::FocusInDirection(Direction::Left),
        CommandAction::FocusWorkspace(WorkspaceTarget::Name("2".to_string())),
        CommandAction::FocusWorkspace(WorkspaceTarget::Recent),
    ]);
}

#[test]
fn move_steps_target_the_window() {
    let (mut tree, root, _, w1, _) = setup();
    let args = InvokeMoveCommand {
        direction: None,
        workspace: None,
        next_active_workspace: false,
        prev_active_workspace: false,
        next_workspace: true,
        prev_workspace: false,
        recent_workspace: false,
    };
    let plan = InvokeCommand::Move(args).run(w1, &mut tree, ctx(root)).unwrap();
    assert_eq!(plan, vec![CommandAction::MoveWindowToWorkspace(WorkspaceTarget::Next)]);
}

#[test]
fn set_floating_sizes_then_centres() {
    let (mut tree, root, _, w1, _) = setup();
    let cmd = InvokeCommand::SetFloating {
        shown_on_top: None,
        centered: None,
        x_pos: Some(5),
        y_pos: None,
        width: Some("50%".to_string()),
        height: None,
    };
    let plan = cmd.run(w1, &mut tree, ctx(root)).unwrap();
    assert_eq!(plan, vec![
        CommandAction::UpdateWindowState(WindowState::Floating { centered: true, shown_on_top: false }),
        CommandAction::SetWindowSize { width: Some("50%".to_string()), height: None },
        CommandAction::SetPosition(WindowPositionTarget::Centered),
    ]);
}

#[test]
fn position_uses_coordinates_unless_centred() {
    let (mut tree, root, _, w1, _) = setup();
    let cmd = InvokeCommand::Position(InvokePositionCommand { centered: false, x_pos: Some(1), y_pos: Some(2) });
    assert_eq!(cmd.run(w1, &mut tree, ctx(root)).unwrap(), vec![
        CommandAction::SetPosition(WindowPositionTarget::Coordinates(Some(1), Some(2))),
    ]);
}

#[test]
fn toggle_tiling_from_tiling_goes_to_the_default_state() {
    let (mut tree, root, _, w1, _) = setup();
    let mut c = ctx(root);
    c.default_state = WindowState::Floating { centered: false, shown_on_top: false };
    assert_eq!(InvokeCommand::ToggleTiling.run(w1, &mut tree, c).unwrap(), vec![
        CommandAction::UpdateWindowState(WindowState::Floating { centered: false, shown_on_top: false }),
    ]);
}

#[test]
fn toggle_tiling_direction_changes_the_tree() {
    let (mut tree, root, ws, w1, w2) = setup();
    let plan = InvokeCommand::ToggleTilingDirection.run(w2, &mut tree, ctx(root)).unwrap();
    let split = tree.parent(w2).unwrap();
    assert_eq!(plan, vec![CommandAction::DirectionChanged(TilingDirectionChanged {
        container: split,
        direction: TilingDirection::Vertical,
    })]);
    assert_eq!(tree.children(ws), vec![w1, split]);
}

#[test]
fn move_workspace_names_the_subject_workspace() {
    let (mut tree, root, ws, w1, _) = setup();
    let plan = InvokeCommand::MoveWorkspace { direction: Direction::Right }.run(w1, &mut tree, ctx(root)).unwrap();
    assert_eq!(plan, vec![CommandAction::MoveWorkspaceInDirection { workspace: ws, direction: Direction::Right }]);
}

#[test]
fn redraw_targets_the_root_and_exec_joins_words() {
    let (mut tree, root, ws, _, _) = setup();
    assert_eq!(InvokeCommand::WmRedraw.run(ws, &mut tree, ctx(root)).unwrap(), vec![CommandAction::Redraw(root)]);
    let cmd = InvokeCommand::ShellExec { command: vec!["notepad".to_string(), "x.txt".to_string()] };
    assert_eq!(cmd.run(ws, &mut tree, ctx(root)).unwrap(), vec![CommandAction::ShellExec("notepad x.txt".to_string())]);
}
