//! Moving a tiling window in a direction: past its sibling, into a
//! neighbouring split container, out into an ancestor laid out along the
//! direction, or, when none is, by turning its workspace around.
use vstd::prelude::*;
use crate::common::{ContainerKind, Direction, TilingDirection};
use crate::error::WmError;
use crate::common::TilingLayout;
use crate::app_command::WindowState;
use crate::sync::WindowInfo;
use crate::focus::{spec_set_focused_descendant, set_focused_descendant};
use crate::tree::{
    ContainerTree, ContainerView, TreeError, KindClass, tree_wf, links_ok, direction_container_of,
    workspace_of, monitor_of, tiling_children, tiling_siblings, tiling_pred, spec_try_move, spec_try_wrap,
    spec_try_flatten, wrap_ready, move_container_within_tree, wrap_in_split_container, flatten_split_container,
    lemma_index_of_unique,
};
use crate::layout::{new_split, spec_flatten_child_split_containers, flatten_child_split_containers, tiling_sibling_count};
use crate::seqs::{ne_pred, without, lemma_filter_no_dup, lemma_filter_contains_iff};
use crate::navigation::{prev_tiling, next_tiling, spec_descendant_in_direction, descendant_in_direction, sibling_tiling};

verus! {

/// What a directional move of a tiling window did, and so what is redrawn.
#[derive(Clone, Copy, Debug, PartialEq, Eq, Structural)]
pub enum TilingMove {
    /// The window took the place of its sibling window `sibling` in
    /// `parent`: both are redrawn.
    PassedSibling { sibling: usize, parent: usize },
    /// The window went into the split container `target`: it and the
    /// tiling children of the window's former parent are redrawn.
    IntoSplit { target: usize, old_parent: usize },
    /// The neighbouring split container held no window: nothing moved.
    Stayed,
    /// The window went into `ancestor`, whose tiling children are redrawn.
    IntoAncestor { ancestor: usize },
    /// The window's workspace turned to the other axis; its tiling
    /// children are redrawn.
    Inverted { workspace: usize },
    /// The window is at the edge of its workspace: it goes to the
    /// workspace in that direction (see [`move_to_workspace_in_direction`]).
    ToWorkspace,
}

/// The position of `c` among its parent's children (0 without a parent).
pub open spec fn spec_index(t: Seq<ContainerView>, c: usize) -> int {
    match t[c as int].parent {
        Some(q) => t[q as int].children.index_of(c),
        None => 0,
    }
}

/// A tree operation's outcome, with its error as a window-manager error
/// and `v` as the result on success.
pub open spec fn lift_tree<V>(r: (Seq<ContainerView>, Result<(), TreeError>), v: V) -> (Seq<ContainerView>, Result<V, WmError>) {
    match r.1 {
        Ok(()) => (r.0, Ok(v)),
        Err(e) => (r.0, Err(WmError::Tree(e))),
    }
}

/// See [`spec_index`].
fn index_in_parent(tree: &ContainerTree, c: usize) -> (res: usize)
    requires
        tree_wf(tree@),
        c < tree@.len(),
    ensures
        res == spec_index(tree@, c),
        res < usize::MAX,
{
    match tree.parent(c) {
        None => 0,
        Some(q) => {
            proof {
                assert(links_ok(tree@, c as int));
                assert(links_ok(tree@, q as int));
            }
            let v = tree.children(q);
            let k = crate::seqs::position(&v, c).unwrap();
            proof {
                lemma_index_of_unique(v@, k as int);
            }
            k
        },
    }
}

/// The tiling sibling of `w` nearest to it in direction `d` (before it for
/// up and left, after it otherwise).
pub open spec fn spec_tiling_sibling_in_direction(t: Seq<ContainerView>, w: usize, d: Direction) -> Option<usize> {
    match t[w as int].parent {
        None => None,
        Some(p) => {
            let v = t[p as int].children;
            let i = v.index_of(w);
            match d {
                Direction::Up | Direction::Left => prev_tiling(t, v, i),
                _ => next_tiling(t, v, i),
            }
        },
    }
}

/// See [`spec_tiling_sibling_in_direction`].
pub fn tiling_sibling_in_direction(tree: &ContainerTree, w: usize, d: Direction) -> (res: Option<usize>)
    requires
        tree_wf(tree@),
        w < tree@.len(),
    ensures
        res == spec_tiling_sibling_in_direction(tree@, w, d),
        res matches Some(x) ==> x < tree@.len(),
{
    match tree.parent(w) {
        None => None,
        Some(p) => {
            proof {
                assert(links_ok(tree@, w as int));
            }
            sibling_tiling(tree, p, w, d)
        },
    }
}

/// The nearest proper ancestor of `c` that is a workspace or split
/// container laid out along `dir` (at most `fuel` steps up).
pub open spec fn matching_ancestor(t: Seq<ContainerView>, c: usize, dir: TilingDirection, fuel: nat) -> Option<usize>
    decreases fuel,
{
    if fuel == 0 {
        None
    } else {
        match t[c as int].parent {
            None => None,
            Some(q) => if t[q as int].kind.is_direction_container() && t[q as int].direction == dir {
                Some(q)
            } else {
                matching_ancestor(t, q, dir, (fuel - 1) as nat)
            },
        }
    }
}

/// See [`matching_ancestor`], climbing at most as many steps as there are
/// containers.
fn find_matching_ancestor(tree: &ContainerTree, c: usize, dir: TilingDirection) -> (res: Option<usize>)
    requires
        tree_wf(tree@),
        c < tree@.len(),
    ensures
        res == matching_ancestor(tree@, c, dir, tree@.len() as nat),
        res matches Some(x) ==> x < tree@.len(),
{
    let mut cur = c;
    let mut fuel = tree.len();
    loop
        invariant
            tree_wf(tree@),
            cur < tree@.len(),
            matching_ancestor(tree@, c, dir, tree@.len() as nat) == matching_ancestor(tree@, cur, dir, fuel as nat),
        decreases fuel,
    {
        if fuel == 0 {
            return None;
        }
        match tree.parent(cur) {
            None => { return None; },
            Some(q) => {
                proof {
                    assert(links_ok(tree@, cur as int));
                }
                let k = tree.kind(q);
                if (k == ContainerKind::Workspace || k == ContainerKind::Split) && tree.tiling_direction(q) == dir {
                    return Some(q);
                }
                cur = q;
                fuel = fuel - 1;
            },
        }
    }
}

/// The proper ancestor of `c` whose parent is `a` (at most `fuel` steps
/// up).
pub open spec fn child_ancestor(t: Seq<ContainerView>, c: usize, a: usize, fuel: nat) -> Option<usize>
    decreases fuel,
{
    if fuel == 0 {
        None
    } else {
        match t[c as int].parent {
            None => None,
            Some(q) => if t[q as int].parent == Some(a) {
                Some(q)
            } else {
                child_ancestor(t, q, a, (fuel - 1) as nat)
            },
        }
    }
}

/// See [`child_ancestor`], climbing at most as many steps as there are
/// containers.
fn find_child_ancestor(tree: &ContainerTree, c: usize, a: usize) -> (res: Option<usize>)
    requires
        tree_wf(tree@),
        c < tree@.len(),
    ensures
        res == child_ancestor(tree@, c, a, tree@.len() as nat),
        res matches Some(x) ==> x < tree@.len() && tree@[x as int].parent == Some(a),
{
    let mut cur = c;
    let mut fuel = tree.len();
    loop
        invariant
            tree_wf(tree@),
            cur < tree@.len(),
            child_ancestor(tree@, c, a, tree@.len() as nat) == child_ancestor(tree@, cur, a, fuel as nat),
        decreases fuel,
    {
        if fuel == 0 {
            return None;
        }
        match tree.parent(cur) {
            None => { return None; },
            Some(q) => {
                proof {
                    assert(links_ok(tree@, cur as int));
                }
                if tree.parent(q) == Some(a) {
                    return Some(q);
                }
                cur = q;
                fuel = fuel - 1;
            },
        }
    }
}

/// Moving tiling window `w` past its tiling sibling `sib` in direction
/// `d`: past a window, `w` takes the window's position in their parent;
/// into a split container, `w` goes next to the split's descendant nearest
/// to `w` (see [`spec_descendant_in_direction`]), before it when moving
/// down or right along that descendant's axis, else after it.
pub open spec fn spec_move_to_sibling_container(t: Seq<ContainerView>, w: usize, sib: usize, d: Direction) -> (Seq<ContainerView>, Result<TilingMove, WmError>) {
    match t[w as int].parent {
        None => (t, Err(WmError::NoParent)),
        Some(p) => if t[sib as int].kind == ContainerKind::TilingWindow {
            lift_tree(spec_try_move(t, w, p, spec_index(t, sib) as usize), TilingMove::PassedSibling { sibling: sib, parent: p })
        } else {
            match spec_descendant_in_direction(t, sib, d.spec_inverse(), t.len() as nat) {
                None => (t, Ok(TilingMove::Stayed)),
                Some(x) => match direction_container_of(t, x) {
                    None => (t, Err(WmError::NoDirectionContainer)),
                    Some(target) => {
                        let before = (d == Direction::Down || d == Direction::Right)
                            && TilingDirection::spec_from_direction(d) == t[target as int].direction;
                        let idx = if before { spec_index(t, x) } else { spec_index(t, x) + 1 };
                        lift_tree(spec_try_move(t, w, target, idx as usize), TilingMove::IntoSplit { target, old_parent: p })
                    },
                },
            }
        },
    }
}

/// See [`spec_move_to_sibling_container`].
pub fn move_to_sibling_container(tree: &mut ContainerTree, w: usize, sib: usize, d: Direction) -> (res: Result<TilingMove, WmError>)
    requires
        tree_wf(old(tree)@),
        w < old(tree)@.len(),
        sib < old(tree)@.len(),
    ensures
        tree_wf(final(tree)@),
        final(tree)@.len() == old(tree)@.len(),
        (final(tree)@, res) == spec_move_to_sibling_container(old(tree)@, w, sib, d),
{
    let p = match tree.parent(w) {
        None => { return Err(WmError::NoParent); },
        Some(p) => p,
    };
    proof {
        assert(links_ok(tree@, w as int));
    }
    if tree.kind(sib) == ContainerKind::TilingWindow {
        let idx = index_in_parent(tree, sib);
        return match move_container_within_tree(tree, w, p, idx) {
            Ok(()) => Ok(TilingMove::PassedSibling { sibling: sib, parent: p }),
            Err(e) => Err(WmError::Tree(e)),
        };
    }
    let x = match descendant_in_direction(tree, sib, d.inverse()) {
        None => { return Ok(TilingMove::Stayed); },
        Some(x) => x,
    };
    let target = match tree.nearest(x, KindClass::DirectionContainer) {
        None => { return Err(WmError::NoDirectionContainer); },
        Some(target) => target,
    };
    let before = (d == Direction::Down || d == Direction::Right)
        && TilingDirection::from_direction(d) == tree.tiling_direction(target);
    let k = index_in_parent(tree, x);
    let idx = if before { k } else { k + 1 };
    match move_container_within_tree(tree, w, target, idx) {
        Ok(()) => Ok(TilingMove::IntoSplit { target, old_parent: p }),
        Err(e) => Err(WmError::Tree(e)),
    }
}

/// Moving tiling window `w` into its ancestor `a` next to the ancestor of
/// `w` that is a child of `a`: before it for up and left, after it
/// otherwise.
pub open spec fn spec_insert_into_ancestor(t: Seq<ContainerView>, w: usize, a: usize, d: Direction) -> (Seq<ContainerView>, Result<TilingMove, WmError>) {
    match child_ancestor(t, w, a, t.len() as nat) {
        None => (t, Err(WmError::AncestorNotFound)),
        Some(x) => {
            let i = t[a as int].children.index_of(x);
            let idx = match d {
                Direction::Up | Direction::Left => i,
                _ => i + 1,
            };
            lift_tree(spec_try_move(t, w, a, idx as usize), TilingMove::IntoAncestor { ancestor: a })
        },
    }
}

/// See [`spec_insert_into_ancestor`].
pub fn insert_into_ancestor(tree: &mut ContainerTree, w: usize, a: usize, d: Direction) -> (res: Result<TilingMove, WmError>)
    requires
        tree_wf(old(tree)@),
        w < old(tree)@.len(),
        a < old(tree)@.len(),
    ensures
        tree_wf(final(tree)@),
        final(tree)@.len() == old(tree)@.len(),
        (final(tree)@, res) == spec_insert_into_ancestor(old(tree)@, w, a, d),
{
    let x = match find_child_ancestor(tree, w, a) {
        None => { return Err(WmError::AncestorNotFound); },
        Some(x) => x,
    };
    let i = index_in_parent(tree, x);
    let idx = match d {
        Direction::Up | Direction::Left => i,
        _ => i + 1,
    };
    match move_container_within_tree(tree, w, a, idx) {
        Ok(()) => Ok(TilingMove::IntoAncestor { ancestor: a }),
        Err(e) => Err(WmError::Tree(e)),
    }
}

/// Turning the workspace of tiling window `w` to the other axis: its
/// other tiling children (when there are two or more) are first wrapped in
/// a new split container along the old axis; `w` then goes to the start
/// of the workspace for up and left, to its end otherwise, and redundant
/// split children of the workspace are flattened.
pub open spec fn spec_invert_workspace_tiling_direction(t: Seq<ContainerView>, w: usize, d: Direction) -> (Seq<ContainerView>, Result<TilingMove, WmError>) {
    match workspace_of(t, w) {
        None => (t, Err(WmError::NoWorkspace)),
        Some(ws) => {
            let others = tiling_children(t, ws).filter(ne_pred(w));
            let r1 = if others.len() > 1 {
                spec_try_wrap(t.push(new_split(t[ws as int].direction)), t.len() as usize, ws, others)
            } else {
                (t, Ok(()))
            };
            match r1.1 {
                Err(e) => (r1.0, Err(WmError::Tree(e))),
                Ok(()) => {
                    let t1 = r1.0;
                    let t2 = t1.update(ws as int, ContainerView { direction: t1[ws as int].direction.spec_inverse(), ..t1[ws as int] });
                    let idx = match d {
                        Direction::Left | Direction::Up => 0,
                        _ => t2[ws as int].children.len(),
                    };
                    let r3 = spec_try_move(t2, w, ws, idx as usize);
                    match r3.1 {
                        Err(e) => (r3.0, Err(WmError::Tree(e))),
                        Ok(()) => lift_tree(spec_flatten_child_split_containers(r3.0, ws), TilingMove::Inverted { workspace: ws }),
                    }
                },
            }
        },
    }
}

/// See [`spec_invert_workspace_tiling_direction`].
pub fn invert_workspace_tiling_direction(tree: &mut ContainerTree, w: usize, d: Direction) -> (res: Result<TilingMove, WmError>)
    requires
        tree_wf(old(tree)@),
        w < old(tree)@.len(),
        old(tree)@.len() < usize::MAX,
    ensures
        tree_wf(final(tree)@),
        (final(tree)@, res) == spec_invert_workspace_tiling_direction(old(tree)@, w, d),
{
    let ghost t = tree@;
    let ws = match tree.nearest(w, KindClass::Workspace) {
        None => { return Err(WmError::NoWorkspace); },
        Some(ws) => ws,
    };
    let tc = tree.tiling_children(ws);
    let others = without(&tc, w);
    if others.len() > 1 {
        let s = tree.add_container(ContainerKind::Split, tree.tiling_direction(ws), TilingLayout::Tiling);
        proof {
            let t1 = tree@;
            assert(links_ok(t, ws as int));
            lemma_filter_no_dup(t[ws as int].children, tiling_pred(t));
            lemma_filter_no_dup(tc@, ne_pred(w));
            assert forall|k: int| 0 <= k < others@.len() implies (#[trigger] others@[k]) < t1.len()
                && t1[others@[k] as int].parent == Some(ws) by {
                let x = others@[k];
                assert(others@.contains(x));
                lemma_filter_contains_iff(tc@, ne_pred(w), x);
                lemma_filter_contains_iff(t[ws as int].children, tiling_pred(t), x);
                let j = choose|j: int| 0 <= j < t[ws as int].children.len() && t[ws as int].children[j] == x;
                assert(t[ws as int].children[j] < t.len());
            }
            assert(t1[s as int] =~= new_split(t[ws as int].direction));
            assert(wrap_ready(t1, s, ws, others@));
        }
        match wrap_in_split_container(tree, s, ws, &others) {
            Ok(()) => {},
            Err(e) => { return Err(WmError::Tree(e)); },
        }
    }
    let dir = tree.tiling_direction(ws);
    tree.set_tiling_direction(ws, dir.inverse());
    let idx = match d {
        Direction::Left | Direction::Up => 0,
        _ => tree.child_count(ws),
    };
    match move_container_within_tree(tree, w, ws, idx) {
        Ok(()) => {},
        Err(e) => { return Err(WmError::Tree(e)); },
    }
    match flatten_child_split_containers(tree, ws) {
        Ok(()) => Ok(TilingMove::Inverted { workspace: ws }),
        Err(e) => Err(WmError::Tree(e)),
    }
}

/// Dissolving the parent of `w` first when it is a split container with
/// `w` as its only child.
pub open spec fn spec_flatten_lone_parent(t: Seq<ContainerView>, w: usize) -> (Seq<ContainerView>, Result<(), TreeError>) {
    match t[w as int].parent {
        Some(p) => if t[p as int].kind == ContainerKind::Split && t[p as int].children.len() == 1 {
            spec_try_flatten(t, p)
        } else {
            (t, Ok(()))
        },
        None => (t, Ok(())),
    }
}

/// The decision of a directional move once a lone split parent is gone:
/// with a direction container `p` along the axis of `d` and a tiling
/// sibling that way, `w` moves past the sibling; at the edge of a
/// workspace (along its axis, or alone in it) `w` goes to the next
/// workspace; otherwise `w` goes into the nearest ancestor of `p` along the
/// axis, or the workspace turns when there is none.
pub open spec fn spec_move_tiling_window_in(t: Seq<ContainerView>, w: usize, d: Direction) -> (Seq<ContainerView>, Result<TilingMove, WmError>) {
    match direction_container_of(t, w) {
        None => (t, Err(WmError::NoDirectionContainer)),
        Some(p) => {
            let dir = TilingDirection::spec_from_direction(d);
            let matching = t[p as int].direction == dir;
            let sib = spec_tiling_sibling_in_direction(t, w, d);
            if matching && sib is Some {
                spec_move_to_sibling_container(t, w, sib->0, d)
            } else if (matching || tiling_siblings(t, w).len() == 0) && t[p as int].kind == ContainerKind::Workspace {
                (t, Ok(TilingMove::ToWorkspace))
            } else {
                match matching_ancestor(t, p, dir, t.len() as nat) {
                    None => spec_invert_workspace_tiling_direction(t, w, d),
                    Some(a) => spec_insert_into_ancestor(t, w, a, d),
                }
            }
        },
    }
}

/// What moving tiling window `w` in direction `d` does to the tree (see
/// [`spec_flatten_lone_parent`] and [`spec_move_tiling_window_in`]).
pub open spec fn spec_move_tiling_window(t: Seq<ContainerView>, w: usize, d: Direction) -> (Seq<ContainerView>, Result<TilingMove, WmError>) {
    let r0 = spec_flatten_lone_parent(t, w);
    match r0.1 {
        Err(e) => (r0.0, Err(WmError::Tree(e))),
        Ok(()) => spec_move_tiling_window_in(r0.0, w, d),
    }
}

/// Moves tiling window `w` in direction `d` (see
/// [`spec_move_tiling_window`]).
pub fn move_tiling_window(tree: &mut ContainerTree, w: usize, d: Direction) -> (res: Result<TilingMove, WmError>)
    requires
        tree_wf(old(tree)@),
        w < old(tree)@.len(),
        old(tree)@.len() < usize::MAX,
    ensures
        tree_wf(final(tree)@),
        (final(tree)@, res) == spec_move_tiling_window(old(tree)@, w, d),
{
    let ghost t = tree@;
    match tree.parent(w) {
        Some(p) => {
            proof {
                assert(links_ok(t, w as int));
            }
            if tree.kind(p) == ContainerKind::Split && tree.child_count(p) == 1 {
                match flatten_split_container(tree, p) {
                    Ok(()) => {},
                    Err(e) => { return Err(WmError::Tree(e)); },
                }
            }
        },
        None => {},
    }
    let ghost t0 = tree@;
    assert(t0.len() == t.len());
    let p = match tree.nearest(w, KindClass::DirectionContainer) {
        None => { return Err(WmError::NoDirectionContainer); },
        Some(p) => p,
    };
    let dir = TilingDirection::from_direction(d);
    let matching = tree.tiling_direction(p) == dir;
    if matching {
        match tiling_sibling_in_direction(tree, w, d) {
            Some(s) => { return move_to_sibling_container(tree, w, s, d); },
            None => {},
        }
    }
    if (matching || tiling_sibling_count(tree, w) == 0) && tree.kind(p) == ContainerKind::Workspace {
        return Ok(TilingMove::ToWorkspace);
    }
    match find_matching_ancestor(tree, p, dir) {
        None => invert_workspace_tiling_direction(tree, w, d),
        Some(a) => insert_into_ancestor(tree, w, a, d),
    }
}

/// Moving window `w` into workspace `target` (the one in direction `d`,
/// chosen by the caller from the monitors and the configuration): at its
/// start for down and right, at its end otherwise. `w` needs a parent, a
/// workspace and a monitor; without a target nothing moves. After the
/// move, `focus_target` (the container chosen to keep the focus in the
/// workspace `w` left, if any) is focused up to that workspace.
pub open spec fn spec_move_to_workspace_in_direction(
    t: Seq<ContainerView>,
    w: usize,
    target: Option<usize>,
    d: Direction,
    focus_target: Option<usize>,
) -> (Seq<ContainerView>, Result<Option<usize>, WmError>) {
    match t[w as int].parent {
        None => (t, Err(WmError::NoParent)),
        Some(p) => match workspace_of(t, w) {
            None => (t, Err(WmError::NoWorkspace)),
            Some(src) => match monitor_of(t, p) {
                None => (t, Err(WmError::NoMonitor)),
                Some(_) => match target {
                    None => (t, Ok(None)),
                    Some(ws) => {
                        let idx = match d {
                            Direction::Down | Direction::Right => 0,
                            _ => t[ws as int].children.len(),
                        };
                        spec_move_and_refocus(t, w, ws, idx as usize, src, focus_target)
                    },
                },
            },
        },
    }
}

/// Moving `w` to position `idx` of workspace `ws`; then focusing
/// `focus_target`, if any, up to workspace `src`.
pub open spec fn spec_move_and_refocus(
    t: Seq<ContainerView>,
    w: usize,
    ws: usize,
    idx: usize,
    src: usize,
    focus_target: Option<usize>,
) -> (Seq<ContainerView>, Result<Option<usize>, WmError>) {
    let r = spec_try_move(t, w, ws, idx);
    match r.1 {
        Err(e) => (r.0, Err(WmError::Tree(e))),
        Ok(()) => match focus_target {
            Some(f) => (spec_set_focused_descendant(r.0, f, Some(src), r.0.len() as nat), Ok(Some(ws))),
            None => (r.0, Ok(Some(ws))),
        },
    }
}

fn move_and_refocus(
    tree: &mut ContainerTree,
    w: usize,
    ws: usize,
    idx: usize,
    src: usize,
    focus_target: Option<usize>,
) -> (res: Result<Option<usize>, WmError>)
    requires
        tree_wf(old(tree)@),
        w < old(tree)@.len(),
        ws < old(tree)@.len(),
        focus_target matches Some(f) ==> f < old(tree)@.len(),
    ensures
        tree_wf(final(tree)@),
        final(tree)@.len() == old(tree)@.len(),
        (final(tree)@, res) == spec_move_and_refocus(old(tree)@, w, ws, idx, src, focus_target),
{
    match move_container_within_tree(tree, w, ws, idx) {
        Ok(()) => {},
        Err(e) => { return Err(WmError::Tree(e)); },
    }
    match focus_target {
        Some(f) => { set_focused_descendant(tree, f, Some(src)); },
        None => {},
    }
    Ok(Some(ws))
}

/// See [`spec_move_to_workspace_in_direction`].
pub fn move_to_workspace_in_direction(
    tree: &mut ContainerTree,
    w: usize,
    target: Option<usize>,
    d: Direction,
    focus_target: Option<usize>,
) -> (res: Result<Option<usize>, WmError>)
    requires
        tree_wf(old(tree)@),
        w < old(tree)@.len(),
        target matches Some(ws) ==> ws < old(tree)@.len(),
        focus_target matches Some(f) ==> f < old(tree)@.len(),
    ensures
        tree_wf(final(tree)@),
        final(tree)@.len() == old(tree)@.len(),
        (final(tree)@, res) == spec_move_to_workspace_in_direction(old(tree)@, w, target, d, focus_target),
{
    let p = match tree.parent(w) {
        None => { return Err(WmError::NoParent); },
        Some(p) => p,
    };
    proof {
        assert(links_ok(tree@, w as int));
    }
    let src = match tree.nearest(w, KindClass::Workspace) {
        None => { return Err(WmError::NoWorkspace); },
        Some(src) => src,
    };
    if tree.nearest(p, KindClass::Monitor).is_none() {
        return Err(WmError::NoMonitor);
    }
    let ws = match target {
        None => { return Ok(None); },
        Some(ws) => ws,
    };
    let idx = match d {
        Direction::Down | Direction::Right => 0,
        _ => tree.child_count(ws),
    };
    move_and_refocus(tree, w, ws, idx, src, focus_target)
}

/// A floating window with no room left that way wraps to workspace
/// `target` (the previous or next one, chosen by the caller): it goes to
/// the end of `target`, and `focus_target` (if any) is then focused up to
/// the workspace it left, which it needs.
pub open spec fn spec_move_floating_to_workspace(
    t: Seq<ContainerView>,
    w: usize,
    target: usize,
    focus_target: Option<usize>,
) -> (Seq<ContainerView>, Result<Option<usize>, WmError>) {
    match workspace_of(t, w) {
        None => (t, Err(WmError::NoWorkspace)),
        Some(src) => spec_move_and_refocus(t, w, target, t[target as int].children.len() as usize, src, focus_target),
    }
}

/// See [`spec_move_floating_to_workspace`].
pub fn move_floating_to_workspace(
    tree: &mut ContainerTree,
    w: usize,
    target: usize,
    focus_target: Option<usize>,
) -> (res: Result<Option<usize>, WmError>)
    requires
        tree_wf(old(tree)@),
        w < old(tree)@.len(),
        target < old(tree)@.len(),
        focus_target matches Some(f) ==> f < old(tree)@.len(),
    ensures
        tree_wf(final(tree)@),
        (final(tree)@, res) == spec_move_floating_to_workspace(old(tree)@, w, target, focus_target),
{
    let src = match tree.nearest(w, KindClass::Workspace) {
        None => { return Err(WmError::NoWorkspace); },
        Some(src) => src,
    };
    let idx = tree.child_count(target);
    move_and_refocus(tree, w, target, idx, src, focus_target)
}

/// Which way a directional move of a window went.
#[derive(Clone, Copy, Debug, PartialEq, Eq, Structural)]
pub enum WindowMove {
    /// A tiling window moved in the tree (see [`spec_move_tiling_window`]).
    Tiling(TilingMove),
    /// A floating window moves on its monitor (see
    /// [`crate::floating_moves::new_floating_position`]).
    Floating,
    /// A fullscreen window goes to the workspace that way (see
    /// [`move_to_workspace_in_direction`]).
    ToWorkspace,
    /// Other windows do not move.
    Nothing,
}

/// What a directional move of window `w` does: a tiling window moves in the
/// tree; a floating or fullscreen window is handed on; others stay.
pub open spec fn spec_move_window_in_direction_with_wrap(
    t: Seq<ContainerView>,
    info: Seq<WindowInfo>,
    w: usize,
    d: Direction,
) -> (Seq<ContainerView>, Result<WindowMove, WmError>) {
    match t[w as int].kind {
        ContainerKind::TilingWindow => {
            let r = spec_move_tiling_window(t, w, d);
            match r.1 {
                Ok(m) => (r.0, Ok(WindowMove::Tiling(m))),
                Err(e) => (r.0, Err(e)),
            }
        },
        ContainerKind::NonTilingWindow => match info[w as int].state {
            WindowState::Floating { .. } => (t, Ok(WindowMove::Floating)),
            WindowState::Fullscreen { .. } => (t, Ok(WindowMove::ToWorkspace)),
            _ => (t, Ok(WindowMove::Nothing)),
        },
        _ => (t, Ok(WindowMove::Nothing)),
    }
}

/// See [`spec_move_window_in_direction_with_wrap`].
pub fn move_window_in_direction_with_wrap(
    tree: &mut ContainerTree,
    info: &Vec<WindowInfo>,
    w: usize,
    d: Direction,
) -> (res: Result<WindowMove, WmError>)
    requires
        tree_wf(old(tree)@),
        w < old(tree)@.len(),
        old(tree)@.len() < usize::MAX,
        info@.len() == old(tree)@.len(),
    ensures
        tree_wf(final(tree)@),
        (final(tree)@, res) == spec_move_window_in_direction_with_wrap(old(tree)@, info@, w, d),
{
    match tree.kind(w) {
        ContainerKind::TilingWindow => match move_tiling_window(tree, w, d) {
            Ok(m) => Ok(WindowMove::Tiling(m)),
            Err(e) => Err(e),
        },
        ContainerKind::NonTilingWindow => match info[w].state {
            WindowState::Floating { .. } => Ok(WindowMove::Floating),
            WindowState::Fullscreen { .. } => Ok(WindowMove::ToWorkspace),
            _ => Ok(WindowMove::Nothing),
        },
        _ => Ok(WindowMove::Nothing),
    }
}

} // verus!
