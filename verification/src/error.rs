use vstd::prelude::*;
use crate::tree::TreeError;

verus! {

/// Errors that window-manager commands report.
#[derive(Clone, Copy, Debug, PartialEq, Eq, Structural)]
pub enum WmError {
    /// A tree operation refused.
    Tree(TreeError),
    /// The container has no workspace.
    NoWorkspace,
    /// The container has no monitor.
    NoMonitor,
    /// No workspace or split container was found where one was needed.
    NoDirectionContainer,
    /// A tiling window does not sit directly in its direction container.
    NotInDirectionContainer,
    /// The container has no parent.
    NoParent,
    /// The container's parent has no parent.
    NoGrandparent,
    /// A tiling window has no neighbouring tiling window.
    NoNeighbor,
    /// The workspace does not use a master-stack layout.
    NotMasterStack,
    /// No monitor exists at the requested index.
    MonitorNotFound,
    /// The monitor displays no workspace.
    NoDisplayedWorkspace,
    /// No primary monitor exists.
    NoPrimaryMonitor,
    /// No other monitor can take the workspaces.
    NoTargetMonitor,
    /// The target container is not in the grid.
    TargetNotFound,
    /// The subject container is detached.
    SubjectDetached,
    /// No binding mode has the requested name.
    NoBindingMode,
    /// No container is focused.
    NoFocusedContainer,
    /// The pattern is not a valid regular expression.
    InvalidPattern,
    /// The window is not in the state the operation expects.
    InvalidWindowState,
    /// No ancestor of the window is a child of the target container.
    AncestorNotFound,
    /// No ancestor of a removed window is left in the tree to redraw.
    NoAncestorToRedraw,
}

} // verus!
