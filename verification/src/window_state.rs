use vstd::prelude::*;
use crate::common::{ContainerKind, TilingDirection, TilingLayout};
use crate::error::WmError;
use crate::app_command::{WindowState, same_state};
use crate::tree::{
    ContainerTree, ContainerView, KindClass, tree_wf, links_ok, workspace_of, spec_try_move,
    move_container_within_tree, replace_error, spec_replace, replace_container, spec_attach, attach_container,
    tiling_siblings,
};
use crate::sync::{WindowInfo, Rect, spec_focused_container, focused_container, descendant_focus_order, leaf_descendants};
use crate::layout::{spec_find_last_tiling_window_to_split, find_last_tiling_window_to_split, new_split};
use crate::tree::{tiling_children, spec_try_wrap, wrap_ready, wrap_in_split_container};
use crate::layout::tiling_sibling_count;
use crate::seqs::{first_index, lemma_first_index};
use crate::tree::{TreeError, is_detached, detach_error, spec_detach, detach_container};
use crate::tree::{lemma_attach_places, lemma_replace_places, lemma_replace_wf, lemma_try_move_places, lemma_push_detached_wf, lemma_nearest_in_class};
use crate::monitors::{kind_pred, children_of_kind};
use crate::directional_moves::lift_tree;

verus! {

/// A fresh, detached window container of kind `kind`.
pub open spec fn new_window(kind: ContainerKind) -> ContainerView {
    ContainerView {
        kind,
        parent: None,
        children: Seq::empty(),
        focus: Seq::empty(),
        direction: TilingDirection::Horizontal,
        layout: TilingLayout::Tiling,
    }
}

/// Where a window that leaves the tiling layout was: its parent, its
/// position there, and how many tiling siblings it had.
#[derive(Clone, Copy, Debug, PartialEq, Eq, Structural)]
pub struct InsertionTarget {
    pub parent: usize,
    pub index: usize,
    pub sibling_count: usize,
}

/// What a window state change did and leaves to do.
#[derive(Clone, Copy, Debug, PartialEq, Eq, Structural)]
pub struct StateChanged {
    /// The window after the change: a new container when the window moves
    /// between the tiling and the non-tiling kind.
    pub window: usize,
    /// The workspace whose spiral layout is rebuilt and whose tiling
    /// children are redrawn.
    pub rebuilt_workspace: Option<usize>,
    /// The workspace to reorder.
    pub reorder: Option<usize>,
    /// Where a window leaving the tiling layout was.
    pub insertion_target: Option<InsertionTarget>,
    /// The state kind changed: the old state becomes the previous state.
    pub record_prev_state: bool,
    /// The window is only to be minimized natively; nothing else changes.
    pub minimize_natively: bool,
}

pub open spec fn outcome(window: usize, rebuilt: Option<usize>, reorder: Option<usize>, target: Option<InsertionTarget>, record: bool) -> StateChanged {
    StateChanged {
        window,
        rebuilt_workspace: rebuilt,
        reorder,
        insertion_target: target,
        record_prev_state: record,
        minimize_natively: false,
    }
}

/// Making non-tiling window `w` tiling: a new tiling window takes its place
/// and then moves to the end of its workspace.
pub open spec fn spec_set_tiling(t: Seq<ContainerView>, w: usize) -> (Seq<ContainerView>, Result<StateChanged, WmError>) {
    if t[w as int].kind != ContainerKind::NonTilingWindow {
        (t, Err(WmError::InvalidWindowState))
    } else {
        match workspace_of(t, w) {
            None => (t, Err(WmError::NoWorkspace)),
            Some(ws) => {
                let tw = t.len() as usize;
                let t1 = t.push(new_window(ContainerKind::TilingWindow));
                let done = outcome(tw, Some(ws), Some(ws), None, false);
                match t[w as int].parent {
                    None => (spec_attach(t1, tw, ws, Some(t1[ws as int].children.len() as usize)), Ok(done)),
                    Some(p) => {
                        let idx = first_index(t[p as int].children, w) as usize;
                        match replace_error(t1, tw, p, idx) {
                            Some(e) => (t1, Err(WmError::Tree(e))),
                            None => {
                                let t2 = spec_replace(t1, tw, p, idx);
                                let r = spec_try_move(t2, tw, ws, t2[ws as int].children.len() as usize);
                                match r.1 {
                                    Err(e) => (r.0, Err(WmError::Tree(e))),
                                    Ok(()) => (r.0, Ok(done)),
                                }
                            },
                        }
                    },
                }
            },
        }
    }
}

/// Making window `w` floating, fullscreen or minimized. Minimizing a window
/// that is not natively minimized only minimizes it natively. A non-tiling
/// window keeps its container. A tiling window moves to its workspace (when
/// elsewhere) and a new non-tiling window takes its place there,
/// remembering where it was.
pub open spec fn spec_set_non_tiling(
    t: Seq<ContainerView>,
    info: Seq<WindowInfo>,
    w: usize,
    target: WindowState,
    natively_minimized: bool,
) -> (Seq<ContainerView>, Result<StateChanged, WmError>) {
    if target == WindowState::Minimized && !natively_minimized {
        (t, Ok(StateChanged { minimize_natively: true, ..outcome(w, None, None, None, false) }))
    } else {
        match workspace_of(t, w) {
            None => (t, Err(WmError::NoWorkspace)),
            Some(ws) => match t[w as int].kind {
                ContainerKind::NonTilingWindow => {
                    let changed = !same_state(info[w as int].state, target);
                    (t, Ok(outcome(w, None, if changed { Some(ws) } else { None }, None, changed)))
                },
                ContainerKind::TilingWindow => {
                    let nt = t.len() as usize;
                    let t1 = t.push(new_window(ContainerKind::NonTilingWindow));
                    let siblings = tiling_siblings(t, w).len() as usize;
                    match t[w as int].parent {
                        None => {
                            let n = t1[ws as int].children.len() as usize;
                            (spec_attach(t1, nt, ws, Some(n)), Ok(outcome(nt, None, Some(ws),
                                Some(InsertionTarget { parent: ws, index: n, sibling_count: siblings }), false)))
                        },
                        Some(p) => {
                            let idx0 = first_index(t[p as int].children, w) as usize;
                            let r = if p != ws {
                                spec_try_move(t1, w, ws, t1[ws as int].children.len() as usize)
                            } else {
                                (t1, Ok(()))
                            };
                            match r.1 {
                                Err(e) => (r.0, Err(WmError::Tree(e))),
                                Ok(()) => {
                                    let t2 = r.0;
                                    let idx = first_index(t2[ws as int].children, w) as usize;
                                    match replace_error(t2, nt, ws, idx) {
                                        Some(e) => (t2, Err(WmError::Tree(e))),
                                        None => (spec_replace(t2, nt, ws, idx), Ok(outcome(nt, Some(ws), Some(ws),
                                            Some(InsertionTarget { parent: p, index: idx0, sibling_count: siblings }), false))),
                                    }
                                },
                            }
                        },
                    }
                },
                _ => (t, Err(WmError::InvalidWindowState)),
            },
        }
    }
}

/// Updating the state of window `w` to `target`: nothing when it is
/// already in that state; else [`spec_set_tiling`] or
/// [`spec_set_non_tiling`].
pub open spec fn spec_update_window_state(
    t: Seq<ContainerView>,
    info: Seq<WindowInfo>,
    w: usize,
    target: WindowState,
    natively_minimized: bool,
) -> (Seq<ContainerView>, Result<StateChanged, WmError>) {
    if info[w as int].state == target {
        (t, Ok(outcome(w, None, None, None, false)))
    } else if target == WindowState::Tiling {
        spec_set_tiling(t, w)
    } else {
        spec_set_non_tiling(t, info, w, target, natively_minimized)
    }
}

/// The container kind of windows in state `s`.
pub open spec fn kind_for_state(s: WindowState) -> ContainerKind {
    if s == WindowState::Tiling { ContainerKind::TilingWindow } else { ContainerKind::NonTilingWindow }
}

/// A state change to another state gives a window of the target state's
/// kind: a window that changes between the tiling and the non-tiling kind
/// is a new container, a child of its workspace (the one to reorder).
pub proof fn state_change_gives_window_of_target_kind(
    t: Seq<ContainerView>,
    info: Seq<WindowInfo>,
    w: usize,
    target: WindowState,
    natively_minimized: bool,
)
    requires
        tree_wf(t),
        t.len() < usize::MAX,
        w < t.len(),
        info.len() == t.len(),
        info[w as int].state != target,
    ensures
        ({
            let r = spec_update_window_state(t, info, w, target, natively_minimized);
            match r.1 {
                Ok(d) => !d.minimize_natively ==> {
                    &&& d.window < r.0.len()
                    &&& r.0[d.window as int].kind == kind_for_state(target)
                    &&& d.window != w ==> (d.window == t.len() && (d.reorder matches Some(ws) && r.0[d.window as int].parent == Some(ws)))
                },
                Err(_) => true,
            }
        }),
{
    let n = t.len() as usize;
    lemma_nearest_in_class(t, w, KindClass::Workspace, t.len());
    assert(links_ok(t, w as int));
    if target == WindowState::Tiling {
        if t[w as int].kind == ContainerKind::NonTilingWindow {
            if let Some(ws) = workspace_of(t, w) {
                let t1 = t.push(new_window(ContainerKind::TilingWindow));
                lemma_push_detached_wf(t, new_window(ContainerKind::TilingWindow));
                match t[w as int].parent {
                    None => {
                        lemma_attach_places(t1, n, ws, Some(t1[ws as int].children.len() as usize));
                    },
                    Some(p) => {
                        let idx = first_index(t[p as int].children, w) as usize;
                        if replace_error(t1, n, p, idx) is None {
                            lemma_replace_places(t1, n, p, idx);
                            lemma_replace_wf(t1, n, p, idx);
                            let t2 = spec_replace(t1, n, p, idx);
                            lemma_try_move_places(t2, n, ws, t2[ws as int].children.len() as usize);
                        }
                    },
                }
            }
        }
    } else if !(target == WindowState::Minimized && !natively_minimized) {
        if let Some(ws) = workspace_of(t, w) {
            if t[w as int].kind == ContainerKind::TilingWindow {
                let t1 = t.push(new_window(ContainerKind::NonTilingWindow));
                lemma_push_detached_wf(t, new_window(ContainerKind::NonTilingWindow));
                match t[w as int].parent {
                    None => {
                        lemma_attach_places(t1, n, ws, Some(t1[ws as int].children.len() as usize));
                    },
                    Some(p) => {
                        assert(t1[w as int] == t[w as int]);
                        let r = if p != ws {
                            spec_try_move(t1, w, ws, t1[ws as int].children.len() as usize)
                        } else {
                            (t1, Ok(()))
                        };
                        if p != ws {
                            lemma_try_move_places(t1, w, ws, t1[ws as int].children.len() as usize);
                        }
                        if r.1 is Ok {
                            let t2 = r.0;
                            let idx = first_index(t2[ws as int].children, w) as usize;
                            if replace_error(t2, n, ws, idx) is None {
                                lemma_replace_places(t2, n, ws, idx);
                            }
                        }
                    },
                }
            }
        }
    }
}

fn add_window(tree: &mut ContainerTree, kind: ContainerKind) -> (id: usize)
    requires
        tree_wf(old(tree)@),
        old(tree)@.len() < usize::MAX,
    ensures
        id == old(tree)@.len(),
        final(tree)@ == old(tree)@.push(new_window(kind)),
        tree_wf(final(tree)@),
{
    let id = tree.add_container(kind, TilingDirection::Horizontal, TilingLayout::Tiling);
    proof {
        assert(tree@ =~= old(tree)@.push(new_window(kind)));
    }
    id
}

fn child_position(tree: &ContainerTree, p: usize, c: usize) -> (res: usize)
    requires
        tree_wf(tree@),
        p < tree@.len(),
        tree@[p as int].children.contains(c),
    ensures
        res == first_index(tree@[p as int].children, c),
        res < tree@[p as int].children.len(),
{
    let k = crate::seqs::position(&tree.children(p), c).unwrap();
    proof {
        lemma_first_index(tree@[p as int].children, c, k as int);
    }
    k
}

/// See [`spec_set_tiling`].
pub fn set_tiling(tree: &mut ContainerTree, w: usize) -> (res: Result<StateChanged, WmError>)
    requires
        tree_wf(old(tree)@),
        old(tree)@.len() < usize::MAX,
        w < old(tree)@.len(),
    ensures
        tree_wf(final(tree)@),
        (final(tree)@, res) == spec_set_tiling(old(tree)@, w),
{
    let ghost t = tree@;
    if tree.kind(w) != ContainerKind::NonTilingWindow {
        return Err(WmError::InvalidWindowState);
    }
    let ws = match tree.nearest(w, KindClass::Workspace) {
        None => { return Err(WmError::NoWorkspace); },
        Some(ws) => ws,
    };
    let parent = tree.parent(w);
    let idx = match parent {
        Some(p) => {
            proof {
                assert(links_ok(t, w as int));
            }
            child_position(tree, p, w)
        },
        None => 0,
    };
    let tw = add_window(tree, ContainerKind::TilingWindow);
    let done = StateChanged {
        window: tw,
        rebuilt_workspace: Some(ws),
        reorder: Some(ws),
        insertion_target: None,
        record_prev_state: false,
        minimize_natively: false,
    };
    match parent {
        None => {
            let n = tree.child_count(ws);
            let r = attach_container(tree, tw, ws, Some(n));
            proof {
                assert(r is Ok);
            }
            Ok(done)
        },
        Some(p) => {
            match replace_container(tree, tw, p, idx) {
                Err(e) => { return Err(WmError::Tree(e)); },
                Ok(()) => {},
            }
            let n = tree.child_count(ws);
            match move_container_within_tree(tree, tw, ws, n) {
                Err(e) => Err(WmError::Tree(e)),
                Ok(()) => Ok(done),
            }
        },
    }
}

/// See [`spec_set_non_tiling`].
pub fn set_non_tiling(
    tree: &mut ContainerTree,
    info: &Vec<WindowInfo>,
    w: usize,
    target: WindowState,
    natively_minimized: bool,
) -> (res: Result<StateChanged, WmError>)
    requires
        tree_wf(old(tree)@),
        old(tree)@.len() < usize::MAX,
        w < old(tree)@.len(),
        info@.len() == old(tree)@.len(),
    ensures
        tree_wf(final(tree)@),
        (final(tree)@, res) == spec_set_non_tiling(old(tree)@, info@, w, target, natively_minimized),
{
    let ghost t = tree@;
    if target == WindowState::Minimized && !natively_minimized {
        return Ok(StateChanged {
            window: w,
            rebuilt_workspace: None,
            reorder: None,
            insertion_target: None,
            record_prev_state: false,
            minimize_natively: true,
        });
    }
    let ws = match tree.nearest(w, KindClass::Workspace) {
        None => { return Err(WmError::NoWorkspace); },
        Some(ws) => ws,
    };
    match tree.kind(w) {
        ContainerKind::NonTilingWindow => {
            let current = info[w].state;
            let changed = !match (current, target) {
                (WindowState::Tiling, WindowState::Tiling) => true,
                (WindowState::Floating { .. }, WindowState::Floating { .. }) => true,
                (WindowState::Fullscreen { .. }, WindowState::Fullscreen { .. }) => true,
                (WindowState::Minimized, WindowState::Minimized) => true,
                _ => false,
            };
            Ok(StateChanged {
                window: w,
                rebuilt_workspace: None,
                reorder: if changed { Some(ws) } else { None },
                insertion_target: None,
                record_prev_state: changed,
                minimize_natively: false,
            })
        },
        ContainerKind::TilingWindow => {
            let siblings = tiling_sibling_count(tree, w);
            let parent = tree.parent(w);
            let idx0 = match parent {
                Some(p) => {
                    proof {
                        assert(links_ok(t, w as int));
                    }
                    child_position(tree, p, w)
                },
                None => 0,
            };
            let nt = add_window(tree, ContainerKind::NonTilingWindow);
            let ghost t1 = tree@;
            match parent {
                None => {
                    let n = tree.child_count(ws);
                    let r = attach_container(tree, nt, ws, Some(n));
                    proof {
                        assert(r is Ok);
                    }
                    Ok(StateChanged {
                        window: nt,
                        rebuilt_workspace: None,
                        reorder: Some(ws),
                        insertion_target: Some(InsertionTarget { parent: ws, index: n, sibling_count: siblings }),
                        record_prev_state: false,
                        minimize_natively: false,
                    })
                },
                Some(p) => {
                    if p != ws {
                        let n = tree.child_count(ws);
                        match move_container_within_tree(tree, w, ws, n) {
                            Err(e) => { return Err(WmError::Tree(e)); },
                            Ok(()) => {},
                        }
                    }
                    proof {
                        assert(tree@[w as int].parent == Some(ws));
                        assert(links_ok(tree@, w as int));
                    }
                    let idx = child_position(tree, ws, w);
                    match replace_container(tree, nt, ws, idx) {
                        Err(e) => Err(WmError::Tree(e)),
                        Ok(()) => Ok(StateChanged {
                            window: nt,
                            rebuilt_workspace: Some(ws),
                            reorder: Some(ws),
                            insertion_target: Some(InsertionTarget { parent: p, index: idx0, sibling_count: siblings }),
                            record_prev_state: false,
                            minimize_natively: false,
                        }),
                    }
                },
            }
        },
        _ => Err(WmError::InvalidWindowState),
    }
}

/// See [`spec_update_window_state`].
pub fn update_window_state(
    tree: &mut ContainerTree,
    info: &Vec<WindowInfo>,
    w: usize,
    target: WindowState,
    natively_minimized: bool,
) -> (res: Result<StateChanged, WmError>)
    requires
        tree_wf(old(tree)@),
        old(tree)@.len() < usize::MAX,
        w < old(tree)@.len(),
        info@.len() == old(tree)@.len(),
    ensures
        tree_wf(final(tree)@),
        (final(tree)@, res) == spec_update_window_state(old(tree)@, info@, w, target, natively_minimized),
{
    if info[w].state == target {
        return Ok(StateChanged {
            window: w,
            rebuilt_workspace: None,
            reorder: None,
            insertion_target: None,
            record_prev_state: false,
            minimize_natively: false,
        });
    }
    if target == WindowState::Tiling {
        set_tiling(tree, w)
    } else {
        set_non_tiling(tree, info, w, target, natively_minimized)
    }
}


// ---------------------------------------------------------------------
// Where a new window goes.
// ---------------------------------------------------------------------

/// Where spiral tiling puts a new tiling window of workspace `ws`.
#[derive(Clone, Copy, Debug, PartialEq, Eq, Structural)]
pub enum SpiralPlacement {
    /// Into the workspace at this index.
    Workspace(usize),
    /// Next to `child`, in a new split container that takes the place of
    /// `child` under `parent`.
    Split { parent: usize, child: usize },
}

/// The spiral placement: the workspace's front when it has no tiling
/// child; else next to the last window to split (see
/// [`spec_find_last_tiling_window_to_split`]); else its end.
pub open spec fn spec_spiral_placement(t: Seq<ContainerView>, ws: usize) -> SpiralPlacement {
    if tiling_children(t, ws).len() == 0 {
        SpiralPlacement::Workspace(0)
    } else {
        match spec_find_last_tiling_window_to_split(t, ws, t.len()) {
            Some((p, c)) => SpiralPlacement::Split { parent: p, child: c },
            None => SpiralPlacement::Workspace(t[ws as int].children.len() as usize),
        }
    }
}

/// See [`spec_spiral_placement`].
pub fn spiral_placement(tree: &ContainerTree, ws: usize) -> (res: SpiralPlacement)
    requires
        tree_wf(tree@),
        ws < tree@.len(),
    ensures
        res == spec_spiral_placement(tree@, ws),
        res matches SpiralPlacement::Split { parent, child } ==> parent < tree@.len() && child < tree@.len()
            && tree@[child as int].parent == Some(parent),
{
    if tree.tiling_children(ws).len() == 0 {
        return SpiralPlacement::Workspace(0);
    }
    match find_last_tiling_window_to_split(tree, ws) {
        Some((p, c)) => SpiralPlacement::Split { parent: p, child: c },
        None => SpiralPlacement::Workspace(tree.child_count(ws)),
    }
}

/// The direction of the split that spiral tiling makes around a
/// container: across its longer side when its rectangle is known, else
/// across its parent's direction (horizontal without one).
pub open spec fn spec_split_direction(rect: Option<Rect>, parent_direction: Option<TilingDirection>) -> TilingDirection {
    match rect {
        Some(r) => if r.right - r.left > r.bottom - r.top { TilingDirection::Horizontal } else { TilingDirection::Vertical },
        None => match parent_direction {
            Some(d) => d.spec_inverse(),
            None => TilingDirection::Horizontal,
        },
    }
}

/// See [`spec_split_direction`].
pub fn split_direction(rect: Option<Rect>, parent_direction: Option<TilingDirection>) -> (res: TilingDirection)
    ensures
        res == spec_split_direction(rect, parent_direction),
{
    match rect {
        Some(r) => if (r.right as i64 - r.left as i64) > (r.bottom as i64 - r.top as i64) {
            TilingDirection::Horizontal
        } else {
            TilingDirection::Vertical
        },
        None => match parent_direction {
            Some(d) => d.inverse(),
            None => TilingDirection::Horizontal,
        },
    }
}

/// Wraps `child` (a child of `parent`) in a new split container with the
/// given direction; the new window then goes into it at index 1.
pub open spec fn spec_spiral_split(t: Seq<ContainerView>, parent: usize, child: usize, direction: TilingDirection) -> (Seq<ContainerView>, Result<usize, WmError>) {
    let s = t.len() as usize;
    let r = spec_try_wrap(t.push(new_split(direction)), s, parent, seq![child]);
    match r.1 {
        Ok(()) => (r.0, Ok(s)),
        Err(e) => (r.0, Err(WmError::Tree(e))),
    }
}

/// See [`spec_spiral_split`].
pub fn spiral_split(tree: &mut ContainerTree, parent: usize, child: usize, direction: TilingDirection) -> (res: Result<usize, WmError>)
    requires
        tree_wf(old(tree)@),
        old(tree)@.len() < usize::MAX,
        parent < old(tree)@.len(),
        child < old(tree)@.len(),
        old(tree)@[child as int].parent == Some(parent),
    ensures
        tree_wf(final(tree)@),
        (final(tree)@, res) == spec_spiral_split(old(tree)@, parent, child, direction),
{
    let ghost t = tree@;
    let s = tree.add_container(ContainerKind::Split, direction, TilingLayout::Tiling);
    let mut targets: Vec<usize> = Vec::new();
    targets.push(child);
    proof {
        let t1 = tree@;
        assert(targets@ =~= seq![child]);
        assert(t1 == t.push(new_split(direction)));
        assert(t1[s as int] =~= new_split(direction));
        assert(t1[child as int] == t[child as int]);
        assert(wrap_ready(t1, s, parent, targets@));
    }
    match wrap_in_split_container(tree, s, parent, &targets) {
        Ok(()) => Ok(s),
        Err(e) => Err(WmError::Tree(e)),
    }
}

/// The first tiling window among `xs`.
pub open spec fn first_tiling_window_kind(t: Seq<ContainerView>, xs: Seq<usize>) -> Option<usize>
    decreases xs.len(),
{
    if xs.len() == 0 {
        None
    } else if t[xs[0] as int].kind == ContainerKind::TilingWindow {
        Some(xs[0])
    } else {
        first_tiling_window_kind(t, xs.drop_first())
    }
}

/// Where a new window goes by focus: a tiling window goes just after the
/// focused tiling window, or else after the most recently focused tiling
/// window of the focused workspace; otherwise, and for other windows, at
/// the end of the focused workspace.
pub open spec fn spec_insertion_target(t: Seq<ContainerView>, root: usize, is_tiling: bool) -> Result<(usize, usize), WmError> {
    match spec_focused_container(t, root) {
        None => Err(WmError::NoFocusedContainer),
        Some(f) => match workspace_of(t, f) {
            None => Err(WmError::NoWorkspace),
            Some(ws) => {
                let sibling = if t[f as int].kind == ContainerKind::TilingWindow {
                    Some(f)
                } else {
                    first_tiling_window_kind(t, descendant_focus_order(t, ws))
                };
                let append = Ok((ws, t[ws as int].children.len() as usize));
                if is_tiling && sibling is Some {
                    match t[sibling->0 as int].parent {
                        Some(p) => Ok((p, (first_index(t[p as int].children, sibling->0) + 1) as usize)),
                        None => append,
                    }
                } else {
                    append
                }
            },
        },
    }
}

/// The first tiling window of `ws` in focus order (see
/// [`first_tiling_window_kind`]).
fn first_tiling_window_in(tree: &ContainerTree, ws: usize) -> (res: Option<usize>)
    requires
        tree_wf(tree@),
        ws < tree@.len(),
    ensures
        res == first_tiling_window_kind(tree@, descendant_focus_order(tree@, ws)),
        res matches Some(x) ==> x < tree@.len(),
{
    let ghost t = tree@;
    let order = leaf_descendants(tree, ws);
    let mut found: Option<usize> = None;
    let mut i: usize = 0;
    proof {
        assert(order@.skip(0) =~= order@);
    }
    while i < order.len()
        invariant
            t == tree@,
            order@ == descendant_focus_order(t, ws),
            forall|k: int| 0 <= k < order@.len() ==> (#[trigger] order@[k]) < t.len(),
            i <= order.len(),
            found is None ==> first_tiling_window_kind(t, order@) == first_tiling_window_kind(t, order@.skip(i as int)),
            found matches Some(x) ==> first_tiling_window_kind(t, order@) == Some(x) && x < t.len(),
        decreases order.len() - i,
    {
        if found.is_none() {
            let x = order[i];
            proof {
                assert(order@.skip(i as int).drop_first() =~= order@.skip(i as int + 1));
                assert(order@.skip(i as int)[0] == x);
            }
            if tree.kind(x) == ContainerKind::TilingWindow {
                found = Some(x);
            }
        }
        i = i + 1;
    }
    proof {
        if found is None {
            assert(order@.skip(order.len() as int) =~= Seq::<usize>::empty());
        }
    }
    found
}

/// See [`spec_insertion_target`].
pub fn insertion_target(tree: &ContainerTree, root: usize, is_tiling: bool) -> (res: Result<(usize, usize), WmError>)
    requires
        tree_wf(tree@),
        root < tree@.len(),
    ensures
        res == spec_insertion_target(tree@, root, is_tiling),
        res matches Ok((p, _)) ==> p < tree@.len(),
{
    let ghost t = tree@;
    let f = match focused_container(tree, root) {
        None => { return Err(WmError::NoFocusedContainer); },
        Some(f) => f,
    };
    let ws = match tree.nearest(f, KindClass::Workspace) {
        None => { return Err(WmError::NoWorkspace); },
        Some(ws) => ws,
    };
    let sibling = if tree.kind(f) == ContainerKind::TilingWindow {
        Some(f)
    } else {
        first_tiling_window_in(tree, ws)
    };
    if is_tiling && sibling.is_some() {
        let s = sibling.unwrap();
        match tree.parent(s) {
            Some(p) => {
                proof {
                    assert(links_ok(t, s as int));
                }
                let k = child_position(tree, p, s);
                let n = tree.child_count(p);
                return Ok((p, k + 1));
            },
            None => {},
        }
    }
    Ok((ws, tree.child_count(ws)))
}


/// What `attach_container` does: `c` goes under `p` (see
/// [`spec_attach`]) when it is detached, and is refused otherwise.
pub open spec fn spec_try_attach(t: Seq<ContainerView>, c: usize, p: usize, idx: Option<usize>) -> (Seq<ContainerView>, Result<(), TreeError>) {
    if is_detached(t, c) {
        (spec_attach(t, c, p, idx), Ok(()))
    } else {
        (t, Err(TreeError::AlreadyAttached))
    }
}

/// `c` taken out of the tree when it can be, the tree unchanged otherwise.
pub open spec fn detach_or_keep(t: Seq<ContainerView>, c: usize) -> Seq<ContainerView> {
    if detach_error(t, c) is None { spec_detach(t, c) } else { t }
}

/// Each of `xs` taken out of the tree in turn where it can be.
pub open spec fn detach_each(t: Seq<ContainerView>, xs: Seq<usize>) -> Seq<ContainerView>
    decreases xs.len(),
{
    if xs.len() == 0 {
        t
    } else {
        detach_or_keep(detach_each(t, xs.drop_last()), xs.last())
    }
}

/// See [`detach_each`].
fn detach_all(tree: &mut ContainerTree, xs: &Vec<usize>)
    requires
        tree_wf(old(tree)@),
        forall|k: int| 0 <= k < xs@.len() ==> (#[trigger] xs@[k]) < old(tree)@.len(),
    ensures
        tree_wf(final(tree)@),
        final(tree)@.len() == old(tree)@.len(),
        final(tree)@ == detach_each(old(tree)@, xs@),
{
    let ghost t = tree@;
    let mut k: usize = 0;
    proof {
        assert(xs@.take(0) =~= Seq::<usize>::empty());
    }
    while k < xs.len()
        invariant
            t == old(tree)@,
            tree_wf(tree@),
            tree@.len() == t.len(),
            forall|q: int| 0 <= q < xs@.len() ==> (#[trigger] xs@[q]) < t.len(),
            k <= xs.len(),
            tree@ == detach_each(t, xs@.take(k as int)),
        decreases xs.len() - k,
    {
        proof {
            assert(xs@.take(k as int + 1).drop_last() =~= xs@.take(k as int));
            assert(xs@.take(k as int + 1).last() == xs@[k as int]);
        }
        let _ = detach_container(tree, xs[k]);
        k = k + 1;
    }
    proof {
        assert(xs@.take(xs.len() as int) =~= xs@);
    }
}

/// Starting to rebuild the spiral layout of workspace `ws` from its tiling
/// windows `wins` (in order): each window is taken out (where it can be),
/// then each split container left directly under `ws`; the first window
/// then goes back to the end of `ws`. The other windows follow one by one
/// (see [`spec_spiral_rebuild_step`]).
pub open spec fn spec_start_spiral_rebuild(t: Seq<ContainerView>, ws: usize, wins: Seq<usize>) -> (Seq<ContainerView>, Result<(), WmError>) {
    let t1 = detach_each(t, wins);
    let t2 = detach_each(t1, t1[ws as int].children.filter(kind_pred(t1, ContainerKind::Split)));
    if wins.len() == 0 {
        (t2, Ok(()))
    } else {
        lift_tree(spec_try_attach(t2, wins[0], ws, None), ())
    }
}

/// See [`spec_start_spiral_rebuild`].
pub fn start_spiral_rebuild(tree: &mut ContainerTree, ws: usize, wins: &Vec<usize>) -> (res: Result<(), WmError>)
    requires
        tree_wf(old(tree)@),
        ws < old(tree)@.len(),
        forall|k: int| 0 <= k < wins@.len() ==> (#[trigger] wins@[k]) < old(tree)@.len(),
    ensures
        tree_wf(final(tree)@),
        final(tree)@.len() == old(tree)@.len(),
        (final(tree)@, res) == spec_start_spiral_rebuild(old(tree)@, ws, wins@),
{
    detach_all(tree, wins);
    let splits = children_of_kind(tree, ws, ContainerKind::Split);
    detach_all(tree, &splits);
    if wins.len() == 0 {
        return Ok(());
    }
    match attach_container(tree, wins[0], ws, None) {
        Ok(()) => Ok(()),
        Err(e) => Err(WmError::Tree(e)),
    }
}

/// Placing window `win` in the spiral layout of `ws` being rebuilt: next to
/// the last window to split (see
/// [`spec_find_last_tiling_window_to_split`]), in a new split container
/// whose direction follows `rect`, the area of that window when known (see
/// [`spec_split_direction`]); at the end of `ws` when there is none.
pub open spec fn spec_spiral_rebuild_step(t: Seq<ContainerView>, ws: usize, win: usize, rect: Option<Rect>) -> (Seq<ContainerView>, Result<(), WmError>) {
    match spec_find_last_tiling_window_to_split(t, ws, t.len()) {
        Some((p, c)) => {
            let r = spec_spiral_split(t, p, c, spec_split_direction(rect, Some(t[p as int].direction)));
            match r.1 {
                Err(e) => (r.0, Err(e)),
                Ok(s) => lift_tree(spec_try_attach(r.0, win, s, Some(1)), ()),
            }
        },
        None => lift_tree(spec_try_attach(t, win, ws, None), ()),
    }
}

/// See [`spec_spiral_rebuild_step`].
pub fn spiral_rebuild_step(tree: &mut ContainerTree, ws: usize, win: usize, rect: Option<Rect>) -> (res: Result<(), WmError>)
    requires
        tree_wf(old(tree)@),
        old(tree)@.len() < usize::MAX,
        ws < old(tree)@.len(),
        win < old(tree)@.len(),
    ensures
        tree_wf(final(tree)@),
        (final(tree)@, res) == spec_spiral_rebuild_step(old(tree)@, ws, win, rect),
{
    match find_last_tiling_window_to_split(tree, ws) {
        Some((p, c)) => {
            let dir = split_direction(rect, Some(tree.tiling_direction(p)));
            let s = spiral_split(tree, p, c, dir)?;
            match attach_container(tree, win, s, Some(1)) {
                Ok(()) => Ok(()),
                Err(e) => Err(WmError::Tree(e)),
            }
        },
        None => match attach_container(tree, win, ws, None) {
            Ok(()) => Ok(()),
            Err(e) => Err(WmError::Tree(e)),
        },
    }
}


/// Where a new window goes in a manual layout: to the front of
/// `target_parent` when one is given; a tiling window goes just after
/// `target` when that is a tiling window, else just after the most
/// recently focused tiling window of workspace `ws`; any other window, or
/// a tiling window with no such sibling, goes to the end of `ws`. A
/// sibling without a parent is refused.
pub open spec fn spec_add_manual_window(
    t: Seq<ContainerView>,
    target_parent: Option<usize>,
    is_tiling: bool,
    target: usize,
    ws: usize,
) -> Result<(usize, usize), WmError> {
    match target_parent {
        Some(p) => Ok((p, 0)),
        None => {
            let sibling = if !is_tiling {
                None
            } else if t[target as int].kind == ContainerKind::TilingWindow {
                Some(target)
            } else {
                first_tiling_window_kind(t, descendant_focus_order(t, ws))
            };
            match sibling {
                Some(s) => match t[s as int].parent {
                    None => Err(WmError::NoParent),
                    Some(p) => Ok((p, (first_index(t[p as int].children, s) + 1) as usize)),
                },
                None => Ok((ws, t[ws as int].children.len() as usize)),
            }
        },
    }
}

/// See [`spec_add_manual_window`].
pub fn add_manual_window(
    tree: &ContainerTree,
    target_parent: Option<usize>,
    is_tiling: bool,
    target: usize,
    ws: usize,
) -> (res: Result<(usize, usize), WmError>)
    requires
        tree_wf(tree@),
        target < tree@.len(),
        ws < tree@.len(),
    ensures
        res == spec_add_manual_window(tree@, target_parent, is_tiling, target, ws),
{
    match target_parent {
        Some(p) => { return Ok((p, 0)); },
        None => {},
    }
    let sibling = if !is_tiling {
        None
    } else if tree.kind(target) == ContainerKind::TilingWindow {
        Some(target)
    } else {
        first_tiling_window_in(tree, ws)
    };
    match sibling {
        Some(s) => match tree.parent(s) {
            None => Err(WmError::NoParent),
            Some(p) => {
                proof {
                    assert(links_ok(tree@, s as int));
                }
                let k = child_position(tree, p, s);
                let n = tree.child_count(p);
                Ok((p, k + 1))
            },
        },
        None => Ok((ws, tree.child_count(ws))),
    }
}

/// The state a newly managed window starts in: minimized when it is
/// minimized, `fullscreen` (the configured fullscreen state) when it covers
/// its monitor, `floating` (the configured floating state) when it cannot
/// be resized, and `initial` (the configured initial state) otherwise.
pub open spec fn spec_window_state_to_create(
    minimized: bool,
    fullscreen: bool,
    resizable: bool,
    fullscreen_state: WindowState,
    floating_state: WindowState,
    initial: WindowState,
) -> WindowState {
    if minimized {
        WindowState::Minimized
    } else if fullscreen {
        fullscreen_state
    } else if !resizable {
        floating_state
    } else {
        initial
    }
}

/// See [`spec_window_state_to_create`].
pub fn window_state_to_create(
    minimized: bool,
    fullscreen: bool,
    resizable: bool,
    fullscreen_state: WindowState,
    floating_state: WindowState,
    initial: WindowState,
) -> (res: WindowState)
    ensures
        res == spec_window_state_to_create(minimized, fullscreen, resizable, fullscreen_state, floating_state, initial),
{
    if minimized {
        WindowState::Minimized
    } else if fullscreen {
        fullscreen_state
    } else if !resizable {
        floating_state
    } else {
        initial
    }
}


/// Where `create_window` puts new window `win` (detached) for workspace
/// `ws`: a non-tiling window goes to the front of `target_parent` when one
/// is given, else by focus (see [`spec_insertion_target`]) when the focus is
/// in `ws`, else to the end of `ws`; a tiling window goes where spiral
/// tiling puts it (see [`spec_spiral_placement`]), beside the window it
/// splits in a new split container whose direction follows `rect`, the
/// area of that window when known.
pub open spec fn spec_place_new_window(
    t: Seq<ContainerView>,
    root: usize,
    win: usize,
    target_parent: Option<usize>,
    ws: usize,
    is_tiling: bool,
    rect: Option<Rect>,
) -> (Seq<ContainerView>, Result<(), WmError>) {
    if !is_tiling {
        let target = match target_parent {
            Some(p) => Ok((p, 0usize)),
            None => match spec_insertion_target(t, root, false) {
                Err(e) => Err(e),
                Ok((ft, fi)) => if workspace_of(t, ft) == Some(ws) {
                    Ok((ft, fi))
                } else {
                    Ok((ws, t[ws as int].children.len() as usize))
                },
            },
        };
        match target {
            Err(e) => (t, Err(e)),
            Ok((p, i)) => lift_tree(spec_try_attach(t, win, p, Some(i)), ()),
        }
    } else {
        match spec_spiral_placement(t, ws) {
            SpiralPlacement::Workspace(i) => lift_tree(spec_try_attach(t, win, ws, Some(i)), ()),
            SpiralPlacement::Split { parent, child } => {
                let r = spec_spiral_split(t, parent, child, spec_split_direction(rect, Some(t[parent as int].direction)));
                match r.1 {
                    Err(e) => (r.0, Err(e)),
                    Ok(s) => lift_tree(spec_try_attach(r.0, win, s, Some(1)), ()),
                }
            },
        }
    }
}

/// See [`spec_place_new_window`].
pub fn place_new_window(
    tree: &mut ContainerTree,
    root: usize,
    win: usize,
    target_parent: Option<usize>,
    ws: usize,
    is_tiling: bool,
    rect: Option<Rect>,
) -> (res: Result<(), WmError>)
    requires
        tree_wf(old(tree)@),
        old(tree)@.len() < usize::MAX,
        root < old(tree)@.len(),
        win < old(tree)@.len(),
        ws < old(tree)@.len(),
        target_parent matches Some(p) ==> p < old(tree)@.len(),
    ensures
        tree_wf(final(tree)@),
        (final(tree)@, res) == spec_place_new_window(old(tree)@, root, win, target_parent, ws, is_tiling, rect),
{
    if !is_tiling {
        let (p, i) = match target_parent {
            Some(p) => (p, 0),
            None => match insertion_target(tree, root, false) {
                Err(e) => { return Err(e); },
                Ok((ft, fi)) => {
                    if tree.nearest(ft, KindClass::Workspace) == Some(ws) {
                        (ft, fi)
                    } else {
                        (ws, tree.child_count(ws))
                    }
                },
            },
        };
        return match attach_container(tree, win, p, Some(i)) {
            Ok(()) => Ok(()),
            Err(e) => Err(WmError::Tree(e)),
        };
    }
    match spiral_placement(tree, ws) {
        SpiralPlacement::Workspace(i) => match attach_container(tree, win, ws, Some(i)) {
            Ok(()) => Ok(()),
            Err(e) => Err(WmError::Tree(e)),
        },
        SpiralPlacement::Split { parent, child } => {
            let dir = split_direction(rect, Some(tree.tiling_direction(parent)));
            let s = spiral_split(tree, parent, child, dir)?;
            match attach_container(tree, win, s, Some(1)) {
                Ok(()) => Ok(()),
                Err(e) => Err(WmError::Tree(e)),
            }
        },
    }
}

} // verus!
