use vstd::prelude::*;
use crate::common::{ContainerKind, TilingDirection, TilingLayout};
use crate::error::WmError;
use crate::tree::{ContainerTree, ContainerView, tree_wf, attach_container, spec_attach};
use crate::seqs::{ne_pred, first_index, lemma_first_index};
use crate::layout::new_split;
use crate::common::Direction;
use crate::sync::WindowInfo;
use crate::directional_moves::{spec_tiling_sibling_in_direction, tiling_sibling_in_direction};
use crate::navigation::{spec_workspace_focus_target, workspace_focus_target};
use crate::focus::{spec_set_focused_descendant, set_focused_descendant};

verus! {

/// Adding `window` to the stack of a master-stack workspace: it goes to the
/// front of the workspace's child list (its parent link and the focus order
/// are left as they are). Other layouts refuse.
pub open spec fn spec_add_to_stack(t: Seq<ContainerView>, window: usize, ws: usize) -> (Seq<ContainerView>, Result<(), WmError>) {
    match t[ws as int].layout {
        TilingLayout::MasterStack { .. } => (
            t.update(ws as int, ContainerView { children: seq![window] + t[ws as int].children, ..t[ws as int] }),
            Ok(()),
        ),
        _ => (t, Err(WmError::NotMasterStack)),
    }
}

/// See [`spec_add_to_stack`]; the workspace's tiling children are then
/// redrawn. A master-stack layout without a master window is not handled.
pub fn add_to_stack(tree: &mut ContainerTree, window: usize, ws: usize) -> (res: Result<(), WmError>)
    requires
        ws < old(tree)@.len(),
        old(tree)@[ws as int].layout != (TilingLayout::MasterStack { master_window: None }),
    ensures
        (final(tree)@, res) == spec_add_to_stack(old(tree)@, window, ws),
{
    match tree.tiling_layout(ws) {
        TilingLayout::MasterStack { .. } => {
            tree.push_front_child(ws, window);
            Ok(())
        },
        _ => Err(WmError::NotMasterStack),
    }
}

/// The position of `c` among its parent's children (0 when detached).
pub open spec fn index_in_parent(t: Seq<ContainerView>, c: usize) -> int {
    match t[c as int].parent {
        Some(p) => if t[p as int].children.contains(c) { first_index(t[p as int].children, c) } else { 0 },
        None => 0,
    }
}

/// What `add_to_master` leaves to redraw.
#[derive(Clone, Copy, Debug, PartialEq, Eq, Structural)]
pub enum MasterRedraw {
    /// The workspace's tiling children, and the new master window.
    TilingChildren,
    /// The old master window, back in the stack, and the new master window.
    OldMaster(usize),
}

/// Making `window` the master window of a master-stack workspace: an old
/// master goes back into the child list at the window's position, the
/// layout records the new master, and the window leaves the child list.
pub open spec fn spec_add_to_master(t: Seq<ContainerView>, window: usize, ws: usize) -> (Seq<ContainerView>, Result<MasterRedraw, WmError>) {
    match t[ws as int].layout {
        TilingLayout::MasterStack { master_window } => {
            let (t1, redraw) = match master_window {
                None => (t, MasterRedraw::TilingChildren),
                Some(old_master) => (
                    t.update(ws as int, ContainerView {
                        children: t[ws as int].children.insert(index_in_parent(t, window), old_master),
                        ..t[ws as int]
                    }),
                    MasterRedraw::OldMaster(old_master),
                ),
            };
            let t2 = t1.update(ws as int, ContainerView {
                layout: TilingLayout::MasterStack { master_window: Some(window) },
                children: t1[ws as int].children.filter(ne_pred(window)),
                ..t1[ws as int]
            });
            (t2, Ok(redraw))
        },
        _ => (t, Err(WmError::NotMasterStack)),
    }
}

/// See [`spec_add_to_master`]. The window's position must be a valid
/// insertion point in the workspace's child list.
pub fn add_to_master(tree: &mut ContainerTree, window: usize, ws: usize) -> (res: Result<MasterRedraw, WmError>)
    requires
        ws < old(tree)@.len(),
        window < old(tree)@.len(),
        old(tree)@[window as int].parent matches Some(p) ==> p < old(tree)@.len(),
        old(tree)@[ws as int].layout is MasterStack ==> index_in_parent(old(tree)@, window) <= old(tree)@[ws as int].children.len(),
    ensures
        (final(tree)@, res) == spec_add_to_master(old(tree)@, window, ws),
{
    let ghost t = tree@;
    let master = match tree.tiling_layout(ws) {
        TilingLayout::MasterStack { master_window } => master_window,
        _ => { return Err(WmError::NotMasterStack); },
    };
    let redraw = match master {
        None => MasterRedraw::TilingChildren,
        Some(old_master) => {
            let index = match tree.parent(window) {
                Some(p) => match crate::seqs::position(&tree.children(p), window) {
                    Some(k) => {
                        proof {
                            assert(t[p as int].children.contains(window));
                            lemma_first_index(t[p as int].children, window, k as int);
                        }
                        k
                    },
                    None => 0,
                },
                None => 0,
            };
            tree.insert_child_at(ws, index, old_master);
            MasterRedraw::OldMaster(old_master)
        },
    };
    tree.set_tiling_layout(ws, TilingLayout::MasterStack { master_window: Some(window) });
    tree.remove_child_entries(ws, window);
    proof {
        let g = spec_add_to_master(t, window, ws).0;
        assert(tree@ =~= g) by {
            assert(tree@[ws as int] =~= g[ws as int]);
        }
    }
    Ok(redraw)
}

/// Where a new window goes in a master-stack workspace `ws` with at most
/// two children: the workspace itself when empty; with one child, a new
/// vertical split appended to the workspace (the stack), with the existing
/// child to redraw; with two, the last child (the stack).
pub open spec fn spec_add_master_stack_window(t: Seq<ContainerView>, ws: usize) -> (Seq<ContainerView>, (usize, usize, Option<usize>)) {
    let n = t[ws as int].children.len();
    if n == 0 {
        (t, (ws, 0, None))
    } else if n == 1 {
        let s = t.len() as usize;
        let t1 = t.push(new_split(TilingDirection::Vertical));
        (spec_attach(t1, s, ws, None), (s, 0, Some(t[ws as int].children[0])))
    } else {
        (t, (t[ws as int].children[n - 1], 0, None))
    }
}

/// See [`spec_add_master_stack_window`]; returns the parent and index to
/// insert at, and the container to redraw.
pub fn add_master_stack_window(tree: &mut ContainerTree, ws: usize) -> (res: (usize, usize, Option<usize>))
    requires
        tree_wf(old(tree)@),
        old(tree)@.len() < usize::MAX,
        ws < old(tree)@.len(),
        old(tree)@[ws as int].children.len() <= 2,
    ensures
        tree_wf(final(tree)@),
        (final(tree)@, res) == spec_add_master_stack_window(old(tree)@, ws),
{
    let ghost t = tree@;
    let n = tree.child_count(ws);
    if n == 0 {
        return (ws, 0, None);
    }
    if n == 1 {
        let first = tree.child_at(ws, 0);
        let s = tree.add_container(ContainerKind::Split, TilingDirection::Vertical, TilingLayout::Tiling);
        proof {
            assert(tree@ == t.push(new_split(TilingDirection::Vertical)));
            assert(tree@[s as int].parent is None);
        }
        let r = attach_container(tree, s, ws, None);
        proof {
            assert(r is Ok);
        }
        return (s, 0, Some(first));
    }
    (tree.child_at(ws, n - 1), 0, None)
}


/// The master window of workspace `ws`, when it uses a master-stack layout
/// that names one.
pub open spec fn master_of(t: Seq<ContainerView>, ws: usize) -> Option<usize> {
    match t[ws as int].layout {
        TilingLayout::MasterStack { master_window } => master_window,
        _ => None,
    }
}

/// Where focus goes from `origin` in master-stack workspace `ws`: up and
/// down, to the nearest tiling sibling that way; left, to the master
/// window; right, nowhere. Moving right from the master window itself is
/// not handled.
pub open spec fn spec_window_focus_target(t: Seq<ContainerView>, origin: usize, ws: usize, d: Direction) -> Option<usize> {
    match d {
        Direction::Up | Direction::Down => spec_tiling_sibling_in_direction(t, origin, d),
        Direction::Left => master_of(t, ws),
        Direction::Right => None,
    }
}

/// See [`spec_window_focus_target`].
pub fn window_focus_target(tree: &ContainerTree, origin: usize, ws: usize, d: Direction) -> (res: Option<usize>)
    requires
        tree_wf(tree@),
        origin < tree@.len(),
        ws < tree@.len(),
        !(master_of(tree@, ws) == Some(origin) && d == Direction::Right),
    ensures
        res == spec_window_focus_target(tree@, origin, ws, d),
        res matches Some(x) ==> x < tree@.len() || master_of(tree@, ws) == Some(x),
{
    match d {
        Direction::Up | Direction::Down => tiling_sibling_in_direction(tree, origin, d),
        Direction::Left => match tree.tiling_layout(ws) {
            TilingLayout::MasterStack { master_window } => master_window,
            _ => None,
        },
        Direction::Right => None,
    }
}

/// Where focus goes from `origin` in master-stack workspace `ws`: the
/// target within the workspace (see [`spec_window_focus_target`]), else
/// the target on the monitor that way (see
/// [`spec_workspace_focus_target`]; a refusal there means no target).
pub open spec fn spec_master_stack_focus_target(
    t: Seq<ContainerView>,
    info: Seq<WindowInfo>,
    origin: usize,
    ws: usize,
    d: Direction,
    target_monitor: Option<usize>,
) -> Option<usize> {
    match spec_window_focus_target(t, origin, ws, d) {
        Some(x) => Some(x),
        None => match spec_workspace_focus_target(t, info, origin, d, target_monitor) {
            Ok(Some(x)) => Some(x),
            _ => None,
        },
    }
}

/// Moves focus in a master-stack workspace (see
/// [`spec_master_stack_focus_target`]); returns the container focused.
pub fn focus_in_direction(
    tree: &mut ContainerTree,
    info: &Vec<WindowInfo>,
    origin: usize,
    ws: usize,
    d: Direction,
    target_monitor: Option<usize>,
) -> (res: Option<usize>)
    requires
        tree_wf(old(tree)@),
        origin < old(tree)@.len(),
        ws < old(tree)@.len(),
        info@.len() == old(tree)@.len(),
        target_monitor matches Some(m) ==> m < old(tree)@.len(),
        master_of(old(tree)@, ws) matches Some(m) ==> m < old(tree)@.len(),
        !(master_of(old(tree)@, ws) == Some(origin) && d == Direction::Right),
    ensures
        tree_wf(final(tree)@),
        res == spec_master_stack_focus_target(old(tree)@, info@, origin, ws, d, target_monitor),
        final(tree)@ == (match res {
            Some(x) => spec_set_focused_descendant(old(tree)@, x, None, old(tree)@.len() as nat),
            None => old(tree)@,
        }),
{
    let target = match window_focus_target(tree, origin, ws, d) {
        Some(x) => Some(x),
        None => match workspace_focus_target(tree, info, origin, d, target_monitor) {
            Ok(Some(x)) => Some(x),
            _ => None,
        },
    };
    match target {
        Some(x) => {
            set_focused_descendant(tree, x, None);
            Some(x)
        },
        None => None,
    }
}

} // verus!
