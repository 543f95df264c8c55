use vstd::prelude::*;
use vstd::string::StringExecFns;
use crate::common::{ContainerKind, Direction, TilingDirection};
use crate::error::WmError;
use crate::tree::{ContainerTree, ContainerView, KindClass, tree_wf, workspace_of};
use crate::layout::{
    TilingDirectionChanged, spec_toggle_tiling_direction, spec_set_tiling_direction,
    toggle_tiling_direction, set_tiling_direction,
};

verus! {

/// How much the window manager logs.
#[derive(Clone, Copy, Debug, PartialEq, Eq, Structural)]
pub enum LogLevel {
    Debug,
    Info,
    Error,
}

/// Verbosity flags of the command line.
#[derive(Clone, Copy, Debug, PartialEq, Eq, Structural)]
pub struct Verbosity {
    /// Enables verbose logging.
    pub verbose: bool,
    /// Disables logging.
    pub quiet: bool,
}

/// `verbose` wins over `quiet`; neither gives the default level.
pub open spec fn spec_level(verbose: bool, quiet: bool) -> LogLevel {
    if verbose {
        LogLevel::Debug
    } else if quiet {
        LogLevel::Error
    } else {
        LogLevel::Info
    }
}

impl Verbosity {
    /// Gets the log level based on the verbosity flags.
    pub fn level(&self) -> (res: LogLevel)
        ensures
            res == spec_level(self.verbose, self.quiet),
    {
        match (self.verbose, self.quiet) {
            (true, _) => LogLevel::Debug,
            (_, true) => LogLevel::Error,
            _ => LogLevel::Info,
        }
    }
}

/// A part of the window manager's state that can be queried.
#[derive(Clone, Copy, Debug, PartialEq, Eq, Structural)]
pub enum QueryCommand {
    /// Metadata about the application (e.g. version number).
    AppMetadata,
    /// The active binding modes.
    BindingModes,
    /// The focused container (either a window or an empty workspace).
    Focused,
    /// The tiling direction of the focused container.
    TilingDirection,
    /// All monitors.
    Monitors,
    /// All windows.
    Windows,
    /// All active workspaces.
    Workspaces,
}

/// An event that a client can subscribe to.
#[derive(Clone, Copy, Debug, PartialEq, Eq, Structural)]
pub enum SubscribableEvent {
    All,
    ApplicationExiting,
    BindingModesChanged,
    FocusChanged,
    FocusedContainerMoved,
    MonitorAdded,
    MonitorUpdated,
    MonitorRemoved,
    TilingDirectionChanged,
    UserConfigChanged,
    WindowManaged,
    WindowUnmanaged,
    WorkspaceActivated,
    WorkspaceDeactivated,
    WorkspaceUpdated,
}

/// Whether a window shows its title bar.
#[derive(Clone, Copy, Debug, PartialEq, Eq, Structural)]
pub enum TitleBarVisibility {
    Shown,
    Hidden,
}

/// The kind of a window animation.
#[derive(Clone, Copy, Debug, PartialEq, Eq, Structural)]
pub enum AnimationType {
    Movement,
    Open,
    Close,
}

/// Where a floating window is placed.
#[derive(Clone, Copy, Debug, PartialEq, Eq, Structural)]
pub enum WindowPositionTarget {
    Centered,
    Coordinates(Option<i32>, Option<i32>),
}

/// The state of a window, with the options of the floating and fullscreen
/// states.
#[derive(Clone, Copy, Debug, PartialEq, Eq, Structural)]
pub enum WindowState {
    Tiling,
    Floating { centered: bool, shown_on_top: bool },
    Fullscreen { maximized: bool, shown_on_top: bool },
    Minimized,
}

/// Whether two states are the same state, whatever their options.
pub open spec fn same_state(a: WindowState, b: WindowState) -> bool {
    match (a, b) {
        (WindowState::Tiling, WindowState::Tiling) => true,
        (WindowState::Floating { .. }, WindowState::Floating { .. }) => true,
        (WindowState::Fullscreen { .. }, WindowState::Fullscreen { .. }) => true,
        (WindowState::Minimized, WindowState::Minimized) => true,
        _ => false,
    }
}

/// The state a toggle command gives a window: the target state, or, when
/// the window is already in it, its previous state (the default state when
/// it has none).
pub open spec fn spec_toggled_state(
    current: WindowState,
    prev: Option<WindowState>,
    target: WindowState,
    default: WindowState,
) -> WindowState {
    if same_state(current, target) {
        match prev {
            Some(p) => p,
            None => default,
        }
    } else {
        target
    }
}

/// See [`spec_toggled_state`].
pub fn toggled_state(
    current: WindowState,
    prev: Option<WindowState>,
    target: WindowState,
    default: WindowState,
) -> (res: WindowState)
    ensures
        res == spec_toggled_state(current, prev, target, default),
{
    let same = match (current, target) {
        (WindowState::Tiling, WindowState::Tiling) => true,
        (WindowState::Floating { .. }, WindowState::Floating { .. }) => true,
        (WindowState::Fullscreen { .. }, WindowState::Fullscreen { .. }) => true,
        (WindowState::Minimized, WindowState::Minimized) => true,
        _ => false,
    };
    if same {
        match prev {
            Some(p) => p,
            None => default,
        }
    } else {
        target
    }
}

/// The words of a command line joined by single spaces.
pub open spec fn spec_join_words(ws: Seq<Seq<char>>) -> Seq<char>
    decreases ws.len(),
{
    if ws.len() == 0 {
        Seq::empty()
    } else if ws.len() == 1 {
        ws[0]
    } else {
        spec_join_words(ws.drop_last()) + seq![' '] + ws.last()
    }
}

pub open spec fn string_views(ws: Seq<String>) -> Seq<Seq<char>> {
    ws.map_values(|w: String| w@)
}

/// Joins `words` with single spaces.
pub fn join_words(words: &Vec<String>) -> (res: String)
    ensures
        res@ == spec_join_words(string_views(words@)),
{
    let mut res = String::new();
    let mut i: usize = 0;
    proof {
        reveal_strlit(" ");
    }
    while i < words.len()
        invariant
            i <= words.len(),
            res@ == spec_join_words(string_views(words@.take(i as int))),
            " "@ == seq![' '],
        decreases words.len() - i,
    {
        proof {
            let ws = string_views(words@.take(i as int + 1));
            assert(ws.drop_last() =~= string_views(words@.take(i as int)));
            assert(ws.last() == words@[i as int]@);
        }
        if i > 0 {
            res.append(" ");
        }
        res.append(words[i].as_str());
        i = i + 1;
    }
    proof {
        assert(words@.take(words.len() as int) =~= words@);
    }
    res
}


/// Border adjustments of `adjust-borders`, each a length such as `10px`.
#[derive(Clone, Debug, PartialEq, Eq)]
pub struct InvokeAdjustBordersCommand {
    pub top: Option<String>,
    pub right: Option<String>,
    pub bottom: Option<String>,
    pub left: Option<String>,
}

/// The arguments of `focus`.
#[derive(Clone, Debug, PartialEq, Eq)]
pub struct InvokeFocusCommand {
    pub direction: Option<Direction>,
    pub workspace: Option<String>,
    pub monitor: Option<usize>,
    pub next_active_workspace: bool,
    pub prev_active_workspace: bool,
    pub next_workspace: bool,
    pub prev_workspace: bool,
    pub recent_workspace: bool,
}

/// The arguments of `move`.
#[derive(Clone, Debug, PartialEq, Eq)]
pub struct InvokeMoveCommand {
    /// Direction to move the window.
    pub direction: Option<Direction>,
    /// Name of workspace to move the window.
    pub workspace: Option<String>,
    pub next_active_workspace: bool,
    pub prev_active_workspace: bool,
    pub next_workspace: bool,
    pub prev_workspace: bool,
    pub recent_workspace: bool,
}

/// The arguments of `resize` and `size`, each a length such as `20%`.
#[derive(Clone, Debug, PartialEq, Eq)]
pub struct InvokeResizeCommand {
    pub width: Option<String>,
    pub height: Option<String>,
}

/// The arguments of `position`.
#[derive(Clone, Copy, Debug, PartialEq, Eq, Structural)]
pub struct InvokePositionCommand {
    pub centered: bool,
    pub x_pos: Option<i32>,
    pub y_pos: Option<i32>,
}

/// A window manager command.
#[derive(Clone, Debug, PartialEq, Eq)]
pub enum InvokeCommand {
    AdjustBorders(InvokeAdjustBordersCommand),
    Close,
    Focus(InvokeFocusCommand),
    Ignore,
    Move(InvokeMoveCommand),
    MoveWorkspace { direction: Direction },
    Position(InvokePositionCommand),
    Resize(InvokeResizeCommand),
    SetFloating {
        shown_on_top: Option<bool>,
        centered: Option<bool>,
        x_pos: Option<i32>,
        y_pos: Option<i32>,
        width: Option<String>,
        height: Option<String>,
    },
    SetFullscreen { shown_on_top: Option<bool>, maximized: Option<bool> },
    SetMinimized,
    SetTiling,
    SetTitleBarVisibility { visibility: TitleBarVisibility },
    ShellExec { command: Vec<String> },
    Size(InvokeResizeCommand),
    ToggleFloating { shown_on_top: Option<bool>, centered: Option<bool> },
    ToggleFullscreen { shown_on_top: Option<bool>, maximized: Option<bool> },
    ToggleMinimized,
    ToggleTiling,
    ToggleTilingDirection,
    SetTilingDirection { tiling_direction: TilingDirection },
    WmCycleFocus { omit_fullscreen: bool, omit_minimized: bool },
    WmDisableBindingMode { name: String },
    WmEnableBindingMode { name: String },
    WmExit,
    WmRedraw,
    WmReloadConfig,
}

/// The command line of the window manager.
#[derive(Clone, Debug, PartialEq, Eq)]
pub struct Cli {
    pub command: CliCommand,
}

/// A subcommand of the command line.
#[derive(Clone, Debug, PartialEq, Eq)]
pub enum CliCommand {
    /// Start the window manager, with a custom path to the user config file.
    Start { config_path: Option<String> },
    /// Query the window manager's state.
    Query { windows: bool, monitors: bool, binding_mode: bool, focused_container: bool },
}


/// The workspace that a focus or move command targets.
#[derive(Clone, Debug, PartialEq, Eq)]
pub enum WorkspaceTarget {
    Name(String),
    NextActive,
    PreviousActive,
    Next,
    Previous,
    Recent,
}

/// A step of a command that the window manager performs outside the
/// container tree, in the order given. Steps on "the window" act on the
/// subject window as the previous steps left it.
#[derive(Clone, Debug, PartialEq, Eq)]
pub enum CommandAction {
    /// Sets the border delta of the window and redraws it.
    SetBorderDelta { left: String, top: String, right: String, bottom: String },
    CloseWindow,
    FocusInDirection(Direction),
    FocusWorkspace(WorkspaceTarget),
    FocusMonitor(usize),
    IgnoreWindow,
    MoveWindowInDirection(Direction),
    MoveWindowToWorkspace(WorkspaceTarget),
    MoveWorkspaceInDirection { workspace: usize, direction: Direction },
    SetPosition(WindowPositionTarget),
    ResizeWindow { width: Option<String>, height: Option<String> },
    SetWindowSize { width: Option<String>, height: Option<String> },
    UpdateWindowState(WindowState),
    SetTitleBarVisibility { shown: bool },
    ShellExec(String),
    /// A direction change that the command made in the tree, to redraw and
    /// announce.
    DirectionChanged(TilingDirectionChanged),
    CycleFocus { omit_fullscreen: bool, omit_minimized: bool },
    DisableBindingMode(String),
    EnableBindingMode(String),
    Exit,
    Redraw(usize),
    ReloadConfig,
}

/// [`WorkspaceTarget`] with its name as characters.
pub enum WorkspaceTargetView {
    Name(Seq<char>),
    NextActive,
    PreviousActive,
    Next,
    Previous,
    Recent,
}

/// [`CommandAction`] with its strings as characters.
pub enum ActionView {
    SetBorderDelta { left: Seq<char>, top: Seq<char>, right: Seq<char>, bottom: Seq<char> },
    CloseWindow,
    FocusInDirection(Direction),
    FocusWorkspace(WorkspaceTargetView),
    FocusMonitor(usize),
    IgnoreWindow,
    MoveWindowInDirection(Direction),
    MoveWindowToWorkspace(WorkspaceTargetView),
    MoveWorkspaceInDirection { workspace: usize, direction: Direction },
    SetPosition(WindowPositionTarget),
    ResizeWindow { width: Option<Seq<char>>, height: Option<Seq<char>> },
    SetWindowSize { width: Option<Seq<char>>, height: Option<Seq<char>> },
    UpdateWindowState(WindowState),
    SetTitleBarVisibility { shown: bool },
    ShellExec(Seq<char>),
    DirectionChanged(TilingDirectionChanged),
    CycleFocus { omit_fullscreen: bool, omit_minimized: bool },
    DisableBindingMode(Seq<char>),
    EnableBindingMode(Seq<char>),
    Exit,
    Redraw(usize),
    ReloadConfig,
}

pub open spec fn opt_view(o: Option<String>) -> Option<Seq<char>> {
    match o {
        Some(s) => Some(s@),
        None => None,
    }
}

impl View for WorkspaceTarget {
    type V = WorkspaceTargetView;

    open spec fn view(&self) -> WorkspaceTargetView {
        match self {
            WorkspaceTarget::Name(n) => WorkspaceTargetView::Name(n@),
            WorkspaceTarget::NextActive => WorkspaceTargetView::NextActive,
            WorkspaceTarget::PreviousActive => WorkspaceTargetView::PreviousActive,
            WorkspaceTarget::Next => WorkspaceTargetView::Next,
            WorkspaceTarget::Previous => WorkspaceTargetView::Previous,
            WorkspaceTarget::Recent => WorkspaceTargetView::Recent,
        }
    }
}

impl View for CommandAction {
    type V = ActionView;

    open spec fn view(&self) -> ActionView {
        match self {
            CommandAction::SetBorderDelta { left, top, right, bottom } =>
                ActionView::SetBorderDelta { left: left@, top: top@, right: right@, bottom: bottom@ },
            CommandAction::CloseWindow => ActionView::CloseWindow,
            CommandAction::FocusInDirection(d) => ActionView::FocusInDirection(*d),
            CommandAction::FocusWorkspace(w) => ActionView::FocusWorkspace(w@),
            CommandAction::FocusMonitor(i) => ActionView::FocusMonitor(*i),
            CommandAction::IgnoreWindow => ActionView::IgnoreWindow,
            CommandAction::MoveWindowInDirection(d) => ActionView::MoveWindowInDirection(*d),
            CommandAction::MoveWindowToWorkspace(w) => ActionView::MoveWindowToWorkspace(w@),
            CommandAction::MoveWorkspaceInDirection { workspace, direction } =>
                ActionView::MoveWorkspaceInDirection { workspace: *workspace, direction: *direction },
            CommandAction::SetPosition(p) => ActionView::SetPosition(*p),
            CommandAction::ResizeWindow { width, height } =>
                ActionView::ResizeWindow { width: opt_view(*width), height: opt_view(*height) },
            CommandAction::SetWindowSize { width, height } =>
                ActionView::SetWindowSize { width: opt_view(*width), height: opt_view(*height) },
            CommandAction::UpdateWindowState(st) => ActionView::UpdateWindowState(*st),
            CommandAction::SetTitleBarVisibility { shown } => ActionView::SetTitleBarVisibility { shown: *shown },
            CommandAction::ShellExec(c) => ActionView::ShellExec(c@),
            CommandAction::DirectionChanged(ch) => ActionView::DirectionChanged(*ch),
            CommandAction::CycleFocus { omit_fullscreen, omit_minimized } =>
                ActionView::CycleFocus { omit_fullscreen: *omit_fullscreen, omit_minimized: *omit_minimized },
            CommandAction::DisableBindingMode(n) => ActionView::DisableBindingMode(n@),
            CommandAction::EnableBindingMode(n) => ActionView::EnableBindingMode(n@),
            CommandAction::Exit => ActionView::Exit,
            CommandAction::Redraw(c) => ActionView::Redraw(*c),
            CommandAction::ReloadConfig => ActionView::ReloadConfig,
        }
    }
}

pub open spec fn action_views(v: Seq<CommandAction>) -> Seq<ActionView> {
    v.map_values(|a: CommandAction| a@)
}

/// What a command needs to know beyond the tree: the root container, the
/// configured state defaults, and the subject window's current, previous
/// and default states.
#[derive(Clone, Copy, Debug, PartialEq, Eq, Structural)]
pub struct RunContext {
    pub root: usize,
    pub floating_centered: bool,
    pub floating_shown_on_top: bool,
    pub fullscreen_maximized: bool,
    pub fullscreen_shown_on_top: bool,
    pub window_state: WindowState,
    pub prev_window_state: Option<WindowState>,
    pub default_state: WindowState,
}

pub open spec fn step_if(b: bool, a: ActionView) -> Seq<ActionView> {
    if b { seq![a] } else { Seq::empty() }
}

pub open spec fn unwrap_bool(o: Option<bool>, default: bool) -> bool {
    match o {
        Some(b) => b,
        None => default,
    }
}

pub open spec fn length_or_zero(o: Option<String>) -> Seq<char> {
    match o {
        Some(s) => s@,
        None => "0px"@,
    }
}

/// The floating state that `set-floating` and `toggle-floating` aim at.
pub open spec fn floating_target(centered: Option<bool>, shown_on_top: Option<bool>, ctx: RunContext) -> WindowState {
    WindowState::Floating {
        centered: unwrap_bool(centered, ctx.floating_centered),
        shown_on_top: unwrap_bool(shown_on_top, ctx.floating_shown_on_top),
    }
}

/// The fullscreen state that `set-fullscreen` and `toggle-fullscreen` aim at.
pub open spec fn fullscreen_target(maximized: Option<bool>, shown_on_top: Option<bool>, ctx: RunContext) -> WindowState {
    WindowState::Fullscreen {
        maximized: unwrap_bool(maximized, ctx.fullscreen_maximized),
        shown_on_top: unwrap_bool(shown_on_top, ctx.fullscreen_shown_on_top),
    }
}

pub open spec fn toggle_to(target: WindowState, ctx: RunContext) -> ActionView {
    ActionView::UpdateWindowState(spec_toggled_state(ctx.window_state, ctx.prev_window_state, target, ctx.default_state))
}

/// The steps of a focus command, in the order they run.
pub open spec fn focus_steps(a: InvokeFocusCommand) -> Seq<ActionView> {
    (match a.direction { Some(d) => seq![ActionView::FocusInDirection(d)], None => Seq::empty() })
    + (match a.workspace { Some(n) => seq![ActionView::FocusWorkspace(WorkspaceTargetView::Name(n@))], None => Seq::empty() })
    + (match a.monitor { Some(i) => seq![ActionView::FocusMonitor(i)], None => Seq::empty() })
    + step_if(a.next_active_workspace, ActionView::FocusWorkspace(WorkspaceTargetView::NextActive))
    + step_if(a.prev_active_workspace, ActionView::FocusWorkspace(WorkspaceTargetView::PreviousActive))
    + step_if(a.next_workspace, ActionView::FocusWorkspace(WorkspaceTargetView::Next))
    + step_if(a.prev_workspace, ActionView::FocusWorkspace(WorkspaceTargetView::Previous))
    + step_if(a.recent_workspace, ActionView::FocusWorkspace(WorkspaceTargetView::Recent))
}

/// The steps of a move command, in the order they run.
pub open spec fn move_steps(a: InvokeMoveCommand) -> Seq<ActionView> {
    (match a.direction { Some(d) => seq![ActionView::MoveWindowInDirection(d)], None => Seq::empty() })
    + (match a.workspace { Some(n) => seq![ActionView::MoveWindowToWorkspace(WorkspaceTargetView::Name(n@))], None => Seq::empty() })
    + step_if(a.next_active_workspace, ActionView::MoveWindowToWorkspace(WorkspaceTargetView::NextActive))
    + step_if(a.prev_active_workspace, ActionView::MoveWindowToWorkspace(WorkspaceTargetView::PreviousActive))
    + step_if(a.next_workspace, ActionView::MoveWindowToWorkspace(WorkspaceTargetView::Next))
    + step_if(a.prev_workspace, ActionView::MoveWindowToWorkspace(WorkspaceTargetView::Previous))
    + step_if(a.recent_workspace, ActionView::MoveWindowToWorkspace(WorkspaceTargetView::Recent))
}

/// The steps of `set-floating`: the state change, then the size, then the
/// position (centred, or at the given coordinates).
pub open spec fn set_floating_steps(
    shown_on_top: Option<bool>,
    centered: Option<bool>,
    x_pos: Option<i32>,
    y_pos: Option<i32>,
    width: Option<String>,
    height: Option<String>,
    ctx: RunContext,
) -> Seq<ActionView> {
    let is_centered = unwrap_bool(centered, ctx.floating_centered);
    seq![ActionView::UpdateWindowState(floating_target(centered, shown_on_top, ctx))]
    + step_if(width is Some || height is Some, ActionView::SetWindowSize { width: opt_view(width), height: opt_view(height) })
    + (if is_centered {
        seq![ActionView::SetPosition(WindowPositionTarget::Centered)]
    } else {
        step_if(x_pos is Some || y_pos is Some, ActionView::SetPosition(WindowPositionTarget::Coordinates(x_pos, y_pos)))
    })
}

/// The steps of a command that acts on the subject window; none when the
/// subject is not a window.
pub open spec fn window_steps(cmd: InvokeCommand, ctx: RunContext) -> Seq<ActionView> {
    match cmd {
        InvokeCommand::AdjustBorders(a) => seq![ActionView::SetBorderDelta {
            left: length_or_zero(a.left), top: length_or_zero(a.top),
            right: length_or_zero(a.right), bottom: length_or_zero(a.bottom),
        }],
        InvokeCommand::Close => seq![ActionView::CloseWindow],
        InvokeCommand::Ignore => seq![ActionView::IgnoreWindow],
        InvokeCommand::Move(a) => move_steps(a),
        InvokeCommand::Position(a) => if a.centered {
            seq![ActionView::SetPosition(WindowPositionTarget::Centered)]
        } else {
            seq![ActionView::SetPosition(WindowPositionTarget::Coordinates(a.x_pos, a.y_pos))]
        },
        InvokeCommand::Resize(a) => seq![ActionView::ResizeWindow { width: opt_view(a.width), height: opt_view(a.height) }],
        InvokeCommand::SetFloating { shown_on_top, centered, x_pos, y_pos, width, height } =>
            set_floating_steps(shown_on_top, centered, x_pos, y_pos, width, height, ctx),
        InvokeCommand::SetFullscreen { shown_on_top, maximized } =>
            seq![ActionView::UpdateWindowState(fullscreen_target(maximized, shown_on_top, ctx))],
        InvokeCommand::SetMinimized => seq![ActionView::UpdateWindowState(WindowState::Minimized)],
        InvokeCommand::SetTiling => seq![ActionView::UpdateWindowState(WindowState::Tiling)],
        InvokeCommand::SetTitleBarVisibility { visibility } =>
            seq![ActionView::SetTitleBarVisibility { shown: visibility == TitleBarVisibility::Shown }],
        InvokeCommand::Size(a) => seq![ActionView::SetWindowSize { width: opt_view(a.width), height: opt_view(a.height) }],
        InvokeCommand::ToggleFloating { shown_on_top, centered } => seq![toggle_to(floating_target(centered, shown_on_top, ctx), ctx)],
        InvokeCommand::ToggleFullscreen { shown_on_top, maximized } => seq![toggle_to(fullscreen_target(maximized, shown_on_top, ctx), ctx)],
        InvokeCommand::ToggleMinimized => seq![toggle_to(WindowState::Minimized, ctx)],
        InvokeCommand::ToggleTiling => seq![toggle_to(WindowState::Tiling, ctx)],
        _ => Seq::empty(),
    }
}

/// Whether a command acts on the subject window only.
pub open spec fn is_window_command(cmd: InvokeCommand) -> bool {
    match cmd {
        InvokeCommand::AdjustBorders(_) | InvokeCommand::Close | InvokeCommand::Ignore | InvokeCommand::Move(_)
        | InvokeCommand::Position(_) | InvokeCommand::Resize(_) | InvokeCommand::SetFloating { .. }
        | InvokeCommand::SetFullscreen { .. } | InvokeCommand::SetMinimized | InvokeCommand::SetTiling
        | InvokeCommand::SetTitleBarVisibility { .. } | InvokeCommand::Size(_) | InvokeCommand::ToggleFloating { .. }
        | InvokeCommand::ToggleFullscreen { .. } | InvokeCommand::ToggleMinimized | InvokeCommand::ToggleTiling => true,
        _ => false,
    }
}

pub open spec fn direction_change_steps(r: Result<Option<TilingDirectionChanged>, WmError>) -> Result<Seq<ActionView>, WmError> {
    match r {
        Err(e) => Err(e),
        Ok(None) => Ok(Seq::empty()),
        Ok(Some(ch)) => Ok(seq![ActionView::DirectionChanged(ch)]),
    }
}

/// What running `cmd` on `subject` does: the tree after the command and the
/// steps left to perform outside it, or the error. A detached subject is
/// refused; window commands on other containers do nothing.
pub open spec fn spec_run(cmd: InvokeCommand, t: Seq<ContainerView>, subject: usize, ctx: RunContext) -> (Seq<ContainerView>, Result<Seq<ActionView>, WmError>) {
    if t[subject as int].parent is None {
        (t, Err(WmError::SubjectDetached))
    } else if is_window_command(cmd) {
        (t, Ok(if t[subject as int].kind.is_window() { window_steps(cmd, ctx) } else { Seq::empty() }))
    } else {
        match cmd {
            InvokeCommand::Focus(a) => (t, Ok(focus_steps(a))),
            InvokeCommand::MoveWorkspace { direction } => match workspace_of(t, subject) {
                None => (t, Err(WmError::NoWorkspace)),
                Some(ws) => (t, Ok(seq![ActionView::MoveWorkspaceInDirection { workspace: ws, direction }])),
            },
            InvokeCommand::ShellExec { command } => (t, Ok(seq![ActionView::ShellExec(spec_join_words(string_views(command@)))])),
            InvokeCommand::ToggleTilingDirection => {
                let r = spec_toggle_tiling_direction(t, subject);
                (r.0, direction_change_steps(r.1))
            },
            InvokeCommand::SetTilingDirection { tiling_direction } => {
                let r = spec_set_tiling_direction(t, subject, tiling_direction);
                (r.0, direction_change_steps(r.1))
            },
            InvokeCommand::WmCycleFocus { omit_fullscreen, omit_minimized } =>
                (t, Ok(seq![ActionView::CycleFocus { omit_fullscreen, omit_minimized }])),
            InvokeCommand::WmDisableBindingMode { name } => (t, Ok(seq![ActionView::DisableBindingMode(name@)])),
            InvokeCommand::WmEnableBindingMode { name } => (t, Ok(seq![ActionView::EnableBindingMode(name@)])),
            InvokeCommand::WmExit => (t, Ok(seq![ActionView::Exit])),
            InvokeCommand::WmRedraw => (t, Ok(seq![ActionView::Redraw(ctx.root)])),
            _ => (t, Ok(seq![ActionView::ReloadConfig])),
        }
    }
}

fn push_action(v: &mut Vec<CommandAction>, a: CommandAction)
    ensures
        action_views(final(v)@) == action_views(old(v)@).push(a@),
{
    v.push(a);
    proof {
        assert(action_views(v@) =~= action_views(old(v)@).push(a@));
    }
}

fn push_if(v: &mut Vec<CommandAction>, b: bool, a: CommandAction)
    ensures
        action_views(final(v)@) == action_views(old(v)@) + step_if(b, a@),
{
    if b {
        push_action(v, a);
        assert(action_views(old(v)@).push(a@) =~= action_views(old(v)@) + seq![a@]);
    } else {
        assert(action_views(old(v)@) + Seq::<ActionView>::empty() =~= action_views(old(v)@));
    }
}

fn clone_opt(o: &Option<String>) -> (res: Option<String>)
    ensures
        opt_view(res) == opt_view(*o),
{
    match o {
        Some(s) => Some(s.clone()),
        None => None,
    }
}

fn length_or_zero_string(o: &Option<String>) -> (res: String)
    ensures
        res@ == length_or_zero(*o),
{
    match o {
        Some(s) => s.clone(),
        None => {
            proof {
                reveal_strlit("0px");
            }
            String::from_str("0px")
        },
    }
}

fn focus_actions(a: &InvokeFocusCommand) -> (res: Vec<CommandAction>)
    ensures
        action_views(res@) == focus_steps(*a),
{
    let mut v: Vec<CommandAction> = Vec::new();
    proof {
        assert(action_views(v@) =~= Seq::<ActionView>::empty());
    }
    let ghost s1 = match a.direction { Some(d) => seq![ActionView::FocusInDirection(d)], None => Seq::<ActionView>::empty() };
    let ghost s2 = match &a.workspace { Some(n) => seq![ActionView::FocusWorkspace(WorkspaceTargetView::Name(n@))], None => Seq::<ActionView>::empty() };
    let ghost s3 = match a.monitor { Some(i) => seq![ActionView::FocusMonitor(i)], None => Seq::<ActionView>::empty() };
    match a.direction {
        Some(d) => { push_action(&mut v, CommandAction::FocusInDirection(d)); },
        None => {},
    }
    assert(action_views(v@) =~= s1);
    match &a.workspace {
        Some(n) => { push_action(&mut v, CommandAction::FocusWorkspace(WorkspaceTarget::Name(n.clone()))); },
        None => {},
    }
    assert(action_views(v@) =~= s1 + s2);
    match a.monitor {
        Some(i) => { push_action(&mut v, CommandAction::FocusMonitor(i)); },
        None => {},
    }
    assert(action_views(v@) =~= s1 + s2 + s3);
    push_if(&mut v, a.next_active_workspace, CommandAction::FocusWorkspace(WorkspaceTarget::NextActive));
    push_if(&mut v, a.prev_active_workspace, CommandAction::FocusWorkspace(WorkspaceTarget::PreviousActive));
    push_if(&mut v, a.next_workspace, CommandAction::FocusWorkspace(WorkspaceTarget::Next));
    push_if(&mut v, a.prev_workspace, CommandAction::FocusWorkspace(WorkspaceTarget::Previous));
    push_if(&mut v, a.recent_workspace, CommandAction::FocusWorkspace(WorkspaceTarget::Recent));
    v
}

fn move_actions(a: &InvokeMoveCommand) -> (res: Vec<CommandAction>)
    ensures
        action_views(res@) == move_steps(*a),
{
    let mut v: Vec<CommandAction> = Vec::new();
    proof {
        assert(action_views(v@) =~= Seq::<ActionView>::empty());
    }
    let ghost s1 = match a.direction { Some(d) => seq![ActionView::MoveWindowInDirection(d)], None => Seq::<ActionView>::empty() };
    let ghost s2 = match &a.workspace { Some(n) => seq![ActionView::MoveWindowToWorkspace(WorkspaceTargetView::Name(n@))], None => Seq::<ActionView>::empty() };
    match a.direction {
        Some(d) => { push_action(&mut v, CommandAction::MoveWindowInDirection(d)); },
        None => {},
    }
    assert(action_views(v@) =~= s1);
    match &a.workspace {
        Some(n) => { push_action(&mut v, CommandAction::MoveWindowToWorkspace(WorkspaceTarget::Name(n.clone()))); },
        None => {},
    }
    assert(action_views(v@) =~= s1 + s2);
    push_if(&mut v, a.next_active_workspace, CommandAction::MoveWindowToWorkspace(WorkspaceTarget::NextActive));
    push_if(&mut v, a.prev_active_workspace, CommandAction::MoveWindowToWorkspace(WorkspaceTarget::PreviousActive));
    push_if(&mut v, a.next_workspace, CommandAction::MoveWindowToWorkspace(WorkspaceTarget::Next));
    push_if(&mut v, a.prev_workspace, CommandAction::MoveWindowToWorkspace(WorkspaceTarget::Previous));
    push_if(&mut v, a.recent_workspace, CommandAction::MoveWindowToWorkspace(WorkspaceTarget::Recent));
    v
}

fn one_action(a: CommandAction) -> (res: Vec<CommandAction>)
    ensures
        action_views(res@) == seq![a@],
{
    let mut v: Vec<CommandAction> = Vec::new();
    v.push(a);
    proof {
        assert(action_views(v@) =~= seq![a@]);
    }
    v
}

fn floating_state(centered: Option<bool>, shown_on_top: Option<bool>, ctx: RunContext) -> (res: WindowState)
    ensures
        res == floating_target(centered, shown_on_top, ctx),
{
    WindowState::Floating {
        centered: match centered { Some(b) => b, None => ctx.floating_centered },
        shown_on_top: match shown_on_top { Some(b) => b, None => ctx.floating_shown_on_top },
    }
}

fn fullscreen_state(maximized: Option<bool>, shown_on_top: Option<bool>, ctx: RunContext) -> (res: WindowState)
    ensures
        res == fullscreen_target(maximized, shown_on_top, ctx),
{
    WindowState::Fullscreen {
        maximized: match maximized { Some(b) => b, None => ctx.fullscreen_maximized },
        shown_on_top: match shown_on_top { Some(b) => b, None => ctx.fullscreen_shown_on_top },
    }
}

fn toggle_action(target: WindowState, ctx: RunContext) -> (res: Vec<CommandAction>)
    ensures
        action_views(res@) == seq![toggle_to(target, ctx)],
{
    one_action(CommandAction::UpdateWindowState(
        toggled_state(ctx.window_state, ctx.prev_window_state, target, ctx.default_state),
    ))
}

/// The steps of a window command (see [`window_steps`]).
fn window_actions(cmd: &InvokeCommand, ctx: RunContext) -> (res: Vec<CommandAction>)
    requires
        is_window_command(*cmd),
    ensures
        action_views(res@) == window_steps(*cmd, ctx),
{
    match cmd {
        InvokeCommand::AdjustBorders(a) => one_action(CommandAction::SetBorderDelta {
            left: length_or_zero_string(&a.left),
            top: length_or_zero_string(&a.top),
            right: length_or_zero_string(&a.right),
            bottom: length_or_zero_string(&a.bottom),
        }),
        InvokeCommand::Close => one_action(CommandAction::CloseWindow),
        InvokeCommand::Ignore => one_action(CommandAction::IgnoreWindow),
        InvokeCommand::Move(a) => move_actions(a),
        InvokeCommand::Position(a) => if a.centered {
            one_action(CommandAction::SetPosition(WindowPositionTarget::Centered))
        } else {
            one_action(CommandAction::SetPosition(WindowPositionTarget::Coordinates(a.x_pos, a.y_pos)))
        },
        InvokeCommand::Resize(a) => one_action(CommandAction::ResizeWindow { width: clone_opt(&a.width), height: clone_opt(&a.height) }),
        InvokeCommand::SetFloating { shown_on_top, centered, x_pos, y_pos, width, height } => {
            let is_centered = match centered { Some(b) => *b, None => ctx.floating_centered };
            let mut v = one_action(CommandAction::UpdateWindowState(floating_state(*centered, *shown_on_top, ctx)));
            push_if(&mut v, width.is_some() || height.is_some(), CommandAction::SetWindowSize { width: clone_opt(width), height: clone_opt(height) });
            if is_centered {
                push_action(&mut v, CommandAction::SetPosition(WindowPositionTarget::Centered));
                proof {
                    assert(seq![ActionView::SetPosition(WindowPositionTarget::Centered)] =~= seq![ActionView::SetPosition(WindowPositionTarget::Centered)]);
                }
            } else {
                push_if(&mut v, x_pos.is_some() || y_pos.is_some(), CommandAction::SetPosition(WindowPositionTarget::Coordinates(*x_pos, *y_pos)));
            }
            proof {
                assert(action_views(v@) =~= window_steps(*cmd, ctx));
            }
            v
        },
        InvokeCommand::SetFullscreen { shown_on_top, maximized } =>
            one_action(CommandAction::UpdateWindowState(fullscreen_state(*maximized, *shown_on_top, ctx))),
        InvokeCommand::SetMinimized => one_action(CommandAction::UpdateWindowState(WindowState::Minimized)),
        InvokeCommand::SetTiling => one_action(CommandAction::UpdateWindowState(WindowState::Tiling)),
        InvokeCommand::SetTitleBarVisibility { visibility } =>
            one_action(CommandAction::SetTitleBarVisibility { shown: *visibility == TitleBarVisibility::Shown }),
        InvokeCommand::Size(a) => one_action(CommandAction::SetWindowSize { width: clone_opt(&a.width), height: clone_opt(&a.height) }),
        InvokeCommand::ToggleFloating { shown_on_top, centered } => toggle_action(floating_state(*centered, *shown_on_top, ctx), ctx),
        InvokeCommand::ToggleFullscreen { shown_on_top, maximized } => toggle_action(fullscreen_state(*maximized, *shown_on_top, ctx), ctx),
        InvokeCommand::ToggleMinimized => toggle_action(WindowState::Minimized, ctx),
        _ => toggle_action(WindowState::Tiling, ctx),
    }
}

fn direction_change_actions(r: Result<Option<TilingDirectionChanged>, WmError>) -> (res: Result<Vec<CommandAction>, WmError>)
    ensures
        match (res, direction_change_steps(r)) {
            (Ok(v), Ok(s)) => action_views(v@) == s,
            (Err(e), Err(f)) => e == f,
            _ => false,
        },
{
    match r {
        Err(e) => Err(e),
        Ok(None) => {
            let v: Vec<CommandAction> = Vec::new();
            proof {
                assert(action_views(v@) =~= Seq::<ActionView>::empty());
            }
            Ok(v)
        },
        Ok(Some(ch)) => Ok(one_action(CommandAction::DirectionChanged(ch))),
    }
}

impl InvokeCommand {
    /// Runs the command on `subject`: changes the tree where the command is
    /// a tree operation, and returns the steps left to perform (see
    /// [`spec_run`]).
    pub fn run(&self, subject: usize, tree: &mut ContainerTree, ctx: RunContext) -> (res: Result<Vec<CommandAction>, WmError>)
        requires
            tree_wf(old(tree)@),
            old(tree)@.len() < usize::MAX,
            subject < old(tree)@.len(),
        ensures
            tree_wf(final(tree)@),
            final(tree)@ == spec_run(*self, old(tree)@, subject, ctx).0,
            match (res, spec_run(*self, old(tree)@, subject, ctx).1) {
                (Ok(v), Ok(s)) => action_views(v@) == s,
                (Err(e), Err(f)) => e == f,
                _ => false,
            },
    {
        if tree.is_detached(subject) {
            return Err(WmError::SubjectDetached);
        }
        let k = tree.kind(subject);
        let is_window = k == ContainerKind::TilingWindow || k == ContainerKind::NonTilingWindow;
        match self {
            InvokeCommand::AdjustBorders(_) | InvokeCommand::Close | InvokeCommand::Ignore | InvokeCommand::Move(_)
            | InvokeCommand::Position(_) | InvokeCommand::Resize(_) | InvokeCommand::SetFloating { .. }
            | InvokeCommand::SetFullscreen { .. } | InvokeCommand::SetMinimized | InvokeCommand::SetTiling
            | InvokeCommand::SetTitleBarVisibility { .. } | InvokeCommand::Size(_) | InvokeCommand::ToggleFloating { .. }
            | InvokeCommand::ToggleFullscreen { .. } | InvokeCommand::ToggleMinimized | InvokeCommand::ToggleTiling => {
                if is_window {
                    Ok(window_actions(self, ctx))
                } else {
                    let v: Vec<CommandAction> = Vec::new();
                    proof {
                        assert(action_views(v@) =~= Seq::<ActionView>::empty());
                    }
                    Ok(v)
                }
            },
            InvokeCommand::Focus(a) => Ok(focus_actions(a)),
            InvokeCommand::MoveWorkspace { direction } => match tree.nearest(subject, KindClass::Workspace) {
                None => Err(WmError::NoWorkspace),
                Some(ws) => Ok(one_action(CommandAction::MoveWorkspaceInDirection { workspace: ws, direction: *direction })),
            },
            InvokeCommand::ShellExec { command } => Ok(one_action(CommandAction::ShellExec(join_words(command)))),
            InvokeCommand::ToggleTilingDirection => direction_change_actions(toggle_tiling_direction(tree, subject)),
            InvokeCommand::SetTilingDirection { tiling_direction } =>
                direction_change_actions(set_tiling_direction(tree, subject, *tiling_direction)),
            InvokeCommand::WmCycleFocus { omit_fullscreen, omit_minimized } =>
                Ok(one_action(CommandAction::CycleFocus { omit_fullscreen: *omit_fullscreen, omit_minimized: *omit_minimized })),
            InvokeCommand::WmDisableBindingMode { name } => Ok(one_action(CommandAction::DisableBindingMode(name.clone()))),
            InvokeCommand::WmEnableBindingMode { name } => Ok(one_action(CommandAction::EnableBindingMode(name.clone()))),
            InvokeCommand::WmExit => Ok(one_action(CommandAction::Exit)),
            InvokeCommand::WmRedraw => Ok(one_action(CommandAction::Redraw(ctx.root))),
            InvokeCommand::WmReloadConfig => Ok(one_action(CommandAction::ReloadConfig)),
        }
    }
}


/// Planning a state command for an attached window leaves the tree alone
/// and plans one state update: `set-minimized` to the minimized state,
/// `set-tiling` to tiling, `set-fullscreen` to fullscreen with the given
/// options (the configured ones where none is given). `toggle-minimized`
/// and `toggle-tiling` go to that state from any other state, and back to
/// the previous state (else the default one) from it; `toggle-fullscreen`
/// and `toggle-floating` go to that state, with the given or configured
/// options, from any other state. A subject that is not a window gets no
/// steps.
pub proof fn state_commands_plan_their_state(
    t: Seq<ContainerView>,
    w: usize,
    ctx: RunContext,
    maximized: Option<bool>,
    centered: Option<bool>,
    shown_on_top: Option<bool>,
)
    requires
        t[w as int].parent is Some,
    ensures
        t[w as int].kind.is_window() ==> {
            &&& spec_run(InvokeCommand::SetMinimized, t, w, ctx)
                == (t, Ok::<Seq<ActionView>, WmError>(seq![ActionView::UpdateWindowState(WindowState::Minimized)]))
            &&& spec_run(InvokeCommand::SetTiling, t, w, ctx)
                == (t, Ok::<Seq<ActionView>, WmError>(seq![ActionView::UpdateWindowState(WindowState::Tiling)]))
            &&& spec_run(InvokeCommand::SetFullscreen { shown_on_top, maximized }, t, w, ctx)
                == (t, Ok::<Seq<ActionView>, WmError>(seq![ActionView::UpdateWindowState(WindowState::Fullscreen {
                    maximized: if maximized is Some { maximized->0 } else { ctx.fullscreen_maximized },
                    shown_on_top: if shown_on_top is Some { shown_on_top->0 } else { ctx.fullscreen_shown_on_top },
                })]))
            &&& ctx.window_state != WindowState::Minimized ==> spec_run(InvokeCommand::ToggleMinimized, t, w, ctx)
                == (t, Ok::<Seq<ActionView>, WmError>(seq![ActionView::UpdateWindowState(WindowState::Minimized)]))
            &&& ctx.window_state == WindowState::Minimized ==> spec_run(InvokeCommand::ToggleMinimized, t, w, ctx)
                == (t, Ok::<Seq<ActionView>, WmError>(seq![ActionView::UpdateWindowState(
                    if ctx.prev_window_state is Some { ctx.prev_window_state->0 } else { ctx.default_state })]))
            &&& ctx.window_state != WindowState::Tiling ==> spec_run(InvokeCommand::ToggleTiling, t, w, ctx)
                == (t, Ok::<Seq<ActionView>, WmError>(seq![ActionView::UpdateWindowState(WindowState::Tiling)]))
            &&& ctx.window_state == WindowState::Tiling ==> spec_run(InvokeCommand::ToggleTiling, t, w, ctx)
                == (t, Ok::<Seq<ActionView>, WmError>(seq![ActionView::UpdateWindowState(
                    if ctx.prev_window_state is Some { ctx.prev_window_state->0 } else { ctx.default_state })]))
        },
        t[w as int].kind.is_window() && !(ctx.window_state is Fullscreen) ==>
            spec_run(InvokeCommand::ToggleFullscreen { shown_on_top, maximized }, t, w, ctx)
                == (t, Ok::<Seq<ActionView>, WmError>(seq![ActionView::UpdateWindowState(WindowState::Fullscreen {
                    maximized: if maximized is Some { maximized->0 } else { ctx.fullscreen_maximized },
                    shown_on_top: if shown_on_top is Some { shown_on_top->0 } else { ctx.fullscreen_shown_on_top },
                })])),
        t[w as int].kind.is_window() && !(ctx.window_state is Floating) ==>
            spec_run(InvokeCommand::ToggleFloating { shown_on_top, centered }, t, w, ctx)
                == (t, Ok::<Seq<ActionView>, WmError>(seq![ActionView::UpdateWindowState(WindowState::Floating {
                    centered: if centered is Some { centered->0 } else { ctx.floating_centered },
                    shown_on_top: if shown_on_top is Some { shown_on_top->0 } else { ctx.floating_shown_on_top },
                })])),
        !t[w as int].kind.is_window() ==> {
            &&& spec_run(InvokeCommand::SetMinimized, t, w, ctx) == (t, Ok::<Seq<ActionView>, WmError>(Seq::empty()))
            &&& spec_run(InvokeCommand::SetTiling, t, w, ctx) == (t, Ok::<Seq<ActionView>, WmError>(Seq::empty()))
        },
{
}

} // verus!
