use vstd::prelude::*;
use crate::common::{ContainerKind, TilingDirection, TilingLayout};
use crate::error::WmError;
use crate::tree::{
    tiling_pred,
    ContainerTree, ContainerView, KindClass, TreeError, tree_wf, nearest_in_class, workspace_of,
    direction_container_of, tiling_siblings, tiling_children, spec_flatten, spec_wrap, wrap_ready,
    links_ok, spec_try_flatten, flatten_split_container, wrap_in_split_container, spec_try_move, spec_try_wrap, move_container_within_tree,
};
use crate::seqs::{lemma_filter_contains_iff, lemma_filter_keeps_all, not_in_pred};
use crate::tree::{min_pos, lemma_wrap_wf, lemma_push_detached_wf, lemma_index_of_unique};

verus! {

broadcast use vstd::seq_lib::group_seq_properties;

/// Reported when a command changed the tiling layout of a container.
#[derive(Clone, Copy, Debug, PartialEq, Eq, Structural)]
pub struct TilingLayoutChanged {
    /// The workspace or split container whose layout changed.
    pub container: usize,
    /// Its workspace, to be reordered.
    pub workspace: usize,
    pub layout: TilingLayout,
}

/// Reported when a command changed the tiling direction of a container.
#[derive(Clone, Copy, Debug, PartialEq, Eq, Structural)]
pub struct TilingDirectionChanged {
    pub container: usize,
    pub direction: TilingDirection,
}

/// A fresh split container with the given direction.
pub open spec fn new_split(direction: TilingDirection) -> ContainerView {
    ContainerView {
        kind: ContainerKind::Split,
        parent: None,
        children: Seq::empty(),
        focus: Seq::empty(),
        direction,
        layout: TilingLayout::Tiling,
    }
}

/// The container whose layout a layout command on `c` changes: a workspace
/// or split container itself, or the parent of a tiling window when that
/// parent is a workspace or split container.
pub open spec fn spec_layout_container_for(t: Seq<ContainerView>, c: usize) -> Option<usize> {
    match t[c as int].kind {
        ContainerKind::Workspace | ContainerKind::Split => Some(c),
        ContainerKind::TilingWindow => match t[c as int].parent {
            Some(p) => if t[p as int].kind.is_direction_container() { Some(p) } else { None },
            None => None,
        },
        _ => None,
    }
}

/// Gets the layout container targeted by a tiling layout command.
pub fn layout_container_for(tree: &ContainerTree, c: usize) -> (res: Option<usize>)
    requires
        tree_wf(tree@),
        c < tree@.len(),
    ensures
        res == spec_layout_container_for(tree@, c),
        res matches Some(r) ==> r < tree@.len(),
{
    match tree.kind(c) {
        ContainerKind::Workspace | ContainerKind::Split => Some(c),
        ContainerKind::TilingWindow => match tree.parent(c) {
            Some(p) => {
                proof {
                    assert(links_ok(tree@, c as int));
                }
                let k = tree.kind(p);
                if k == ContainerKind::Workspace || k == ContainerKind::Split {
                    Some(p)
                } else {
                    None
                }
            },
            None => None,
        },
        _ => None,
    }
}

/// Applies a tiling layout to `lc` and returns whether it changed.
pub fn apply_tiling_layout(tree: &mut ContainerTree, lc: usize, layout: TilingLayout) -> (changed: bool)
    requires
        tree_wf(old(tree)@),
        lc < old(tree)@.len(),
    ensures
        tree_wf(final(tree)@),
        changed == (old(tree)@[lc as int].layout != layout),
        final(tree)@ == old(tree)@.update(lc as int, ContainerView { layout, ..old(tree)@[lc as int] }),
{
    if tree.tiling_layout(lc) == layout {
        proof {
            assert(old(tree)@.update(lc as int, ContainerView { layout, ..old(tree)@[lc as int] }) =~= old(tree)@);
        }
        return false;
    }
    tree.set_tiling_layout(lc, layout);
    true
}

/// Applying a layout is idempotent: after one application the container
/// has the layout and its direction, and a second application changes
/// nothing.
pub proof fn apply_layout_is_idempotent(t: Seq<ContainerView>, lc: usize, layout: TilingLayout)
    requires
        tree_wf(t),
        lc < t.len(),
    ensures
        ({
            let t1 = t.update(lc as int, ContainerView { layout, ..t[lc as int] });
            &&& t1[lc as int].layout == layout
            &&& t1[lc as int].direction == t[lc as int].direction
            &&& t1.update(lc as int, ContainerView { layout, ..t1[lc as int] }) == t1
        }),
{
    let t1 = t.update(lc as int, ContainerView { layout, ..t[lc as int] });
    assert(t1.update(lc as int, ContainerView { layout, ..t1[lc as int] }) =~= t1) by {
        assert(ContainerView { layout, ..t1[lc as int] } =~= t1[lc as int]);
    }
}

/// What a layout update of `lc` to `layout` reports.
pub open spec fn spec_update_layout_result(t: Seq<ContainerView>, lc: usize, layout: TilingLayout) -> Result<Option<TilingLayoutChanged>, WmError> {
    if t[lc as int].layout == layout {
        Ok(None)
    } else {
        let t2 = t.update(lc as int, ContainerView { layout, ..t[lc as int] });
        match workspace_of(t2, lc) {
            None => Err(WmError::NoWorkspace),
            Some(ws) => Ok(Some(TilingLayoutChanged { container: lc, workspace: ws, layout })),
        }
    }
}

/// Applies a layout change; reports it together with the workspace to
/// reorder, or `None` when the layout was already in place.
pub fn update_tiling_layout(tree: &mut ContainerTree, lc: usize, layout: TilingLayout) -> (res: Result<Option<TilingLayoutChanged>, WmError>)
    requires
        tree_wf(old(tree)@),
        lc < old(tree)@.len(),
    ensures
        tree_wf(final(tree)@),
        final(tree)@ == old(tree)@.update(lc as int, ContainerView { layout, ..old(tree)@[lc as int] }),
        res == spec_update_layout_result(old(tree)@, lc, layout),
{
    if !apply_tiling_layout(tree, lc, layout) {
        return Ok(None);
    }
    match tree.nearest(lc, KindClass::Workspace) {
        None => Err(WmError::NoWorkspace),
        Some(ws) => Ok(Some(TilingLayoutChanged { container: lc, workspace: ws, layout })),
    }
}

/// The tree after a layout toggle on `c`: the layout container of `c`, if
/// any, gets the inverse of its layout.
pub open spec fn spec_toggle_tiling_layout(t: Seq<ContainerView>, c: usize) -> Seq<ContainerView> {
    match spec_layout_container_for(t, c) {
        None => t,
        Some(lc) => t.update(lc as int, ContainerView { layout: t[lc as int].layout.spec_inverse(), ..t[lc as int] }),
    }
}

/// Toggles the tiling layout of the subject's nearest layout container.
pub fn toggle_tiling_layout(tree: &mut ContainerTree, c: usize) -> (res: Result<Option<TilingLayoutChanged>, WmError>)
    requires
        tree_wf(old(tree)@),
        c < old(tree)@.len(),
    ensures
        tree_wf(final(tree)@),
        final(tree)@ == spec_toggle_tiling_layout(old(tree)@, c),
        match spec_layout_container_for(old(tree)@, c) {
            None => res == Ok::<Option<TilingLayoutChanged>, WmError>(None),
            Some(lc) => res == spec_update_layout_result(old(tree)@, lc, old(tree)@[lc as int].layout.spec_inverse()),
        },
{
    let lc = match layout_container_for(tree, c) {
        None => { return Ok(None); },
        Some(lc) => lc,
    };
    let target = tree.tiling_layout(lc).inverse();
    update_tiling_layout(tree, lc, target)
}

/// Toggling the layout twice gives the tree back when the layout
/// container has a tiling or accordion layout; the first toggle changes
/// only that container's layout, to the other of the two, and keeps its
/// direction.
pub proof fn toggle_tiling_layout_twice_restores_tree(t: Seq<ContainerView>, c: usize)
    requires
        tree_wf(t),
        c < t.len(),
        spec_layout_container_for(t, c) matches Some(lc) ==> (t[lc as int].layout is Tiling || t[lc as int].layout is Accordion),
    ensures
        spec_toggle_tiling_layout(spec_toggle_tiling_layout(t, c), c) == t,
        spec_layout_container_for(t, c) matches Some(lc) ==> ({
            let t1 = spec_toggle_tiling_layout(t, c);
            &&& t1[lc as int].layout != t[lc as int].layout
            &&& t1[lc as int].direction == t[lc as int].direction
            &&& forall|i: int| 0 <= i < t.len() && i != lc ==> t1[i] == t[i]
        }),
{
    let t1 = spec_toggle_tiling_layout(t, c);
    match spec_layout_container_for(t, c) {
        None => {},
        Some(lc) => {
            assert(links_ok(t, c as int));
            assert(lc < t.len());
            assert(t1[c as int].kind == t[c as int].kind && t1[c as int].parent == t[c as int].parent);
            if let Some(p) = t[c as int].parent {
                assert(t1[p as int].kind == t[p as int].kind);
            }
            assert(spec_layout_container_for(t1, c) == Some(lc));
            assert(spec_toggle_tiling_layout(t1, c) =~= t);
        },
    }
}

/// Sets the tiling layout of the subject's nearest layout container.
pub fn set_tiling_layout(tree: &mut ContainerTree, c: usize, layout: TilingLayout) -> (res: Result<Option<TilingLayoutChanged>, WmError>)
    requires
        tree_wf(old(tree)@),
        c < old(tree)@.len(),
    ensures
        tree_wf(final(tree)@),
        match spec_layout_container_for(old(tree)@, c) {
            None => final(tree)@ == old(tree)@ && res == Ok::<Option<TilingLayoutChanged>, WmError>(None),
            Some(lc) => {
                &&& final(tree)@ == old(tree)@.update(lc as int, ContainerView { layout, ..old(tree)@[lc as int] })
                &&& res == spec_update_layout_result(old(tree)@, lc, layout)
            },
        },
{
    let lc = match layout_container_for(tree, c) {
        None => { return Ok(None); },
        Some(lc) => lc,
    };
    update_tiling_layout(tree, lc, layout)
}


/// Direction toggle of tiling window `w`, the only tiling child of split
/// container `s`: when the flipped direction and the layout of `s` match its
/// parent, `s` is dissolved; otherwise only the direction of `s` flips.
/// Returns the tree and the direction container that changed.
pub open spec fn spec_toggle_single_child_split(t: Seq<ContainerView>, w: usize, s: usize) -> (Seq<ContainerView>, Result<usize, WmError>) {
    match t[s as int].parent {
        None => (t, Err(WmError::NoDirectionContainer)),
        Some(g) => if !t[g as int].kind.is_direction_container() {
            (t, Err(WmError::NoDirectionContainer))
        } else {
            let target = t[s as int].direction.spec_inverse();
            if t[s as int].layout == t[g as int].layout && target == t[g as int].direction {
                if g == s {
                    (t, Err(WmError::Tree(TreeError::OwnParent)))
                } else {
                    let t1 = spec_flatten(t, s);
                    match direction_container_of(t1, w) {
                        None => (t1, Err(WmError::NoDirectionContainer)),
                        Some(d) => (t1, Ok(d)),
                    }
                }
            } else {
                (t.update(s as int, ContainerView { direction: target, ..t[s as int] }), Ok(s))
            }
        },
    }
}

/// Toggles a single-child split without discarding a distinct layout.
pub fn toggle_single_child_split(tree: &mut ContainerTree, w: usize, s: usize) -> (res: Result<usize, WmError>)
    requires
        tree_wf(old(tree)@),
        w < old(tree)@.len(),
        s < old(tree)@.len(),
        old(tree)@[s as int].kind == ContainerKind::Split,
    ensures
        tree_wf(final(tree)@),
        (final(tree)@, res) == spec_toggle_single_child_split(old(tree)@, w, s),
        res matches Ok(d) ==> d < final(tree)@.len(),
{
    let g = match tree.parent(s) {
        None => { return Err(WmError::NoDirectionContainer); },
        Some(g) => g,
    };
    proof {
        assert(links_ok(tree@, s as int));
    }
    let gk = tree.kind(g);
    if !(gk == ContainerKind::Workspace || gk == ContainerKind::Split) {
        return Err(WmError::NoDirectionContainer);
    }
    let target = tree.tiling_direction(s).inverse();
    if tree.tiling_layout(s) == tree.tiling_layout(g) && target == tree.tiling_direction(g) {
        match flatten_split_container(tree, s) {
            Err(e) => { return Err(WmError::Tree(e)); },
            Ok(()) => {},
        }
        match tree.nearest(w, KindClass::DirectionContainer) {
            None => Err(WmError::NoDirectionContainer),
            Some(d) => Ok(d),
        }
    } else {
        tree.set_tiling_direction(s, target);
        Ok(s)
    }
}

/// Direction toggle of tiling window `w`: an only child flips its workspace
/// or its split container (see [`spec_toggle_single_child_split`]); a window
/// with tiling siblings is wrapped in a new split container of the inverse
/// direction. Returns the tree and the direction container that changed.
pub open spec fn spec_toggle_window_direction(t: Seq<ContainerView>, w: usize) -> (Seq<ContainerView>, Result<usize, WmError>) {
    match direction_container_of(t, w) {
        None => (t, Err(WmError::NoDirectionContainer)),
        Some(dc) => if tiling_siblings(t, w).len() == 0 {
            if t[dc as int].kind == ContainerKind::Workspace {
                (t.update(dc as int, ContainerView { direction: t[dc as int].direction.spec_inverse(), ..t[dc as int] }), Ok(dc))
            } else {
                spec_toggle_single_child_split(t, w, dc)
            }
        } else if t[w as int].parent != Some(dc) {
            (t, Err(WmError::NotInDirectionContainer))
        } else {
            let s = t.len() as usize;
            let t1 = t.push(new_split(t[dc as int].direction.spec_inverse()));
            (spec_wrap(t1, s, dc, seq![w]), Ok(s))
        },
    }
}

/// The number of tiling siblings of `c` (see [`tiling_siblings`]).
pub fn tiling_sibling_count(tree: &ContainerTree, c: usize) -> (res: usize)
    requires
        tree_wf(tree@),
        c < tree@.len(),
    ensures
        res == tiling_siblings(tree@, c).len(),
{
    match tree.parent(c) {
        None => 0,
        Some(p) => {
            proof {
                assert(links_ok(tree@, c as int));
            }
            let tc = tree.tiling_children(p);
            let rest = crate::seqs::without(&tc, c);
            rest.len()
        },
    }
}

/// Puts tiling window `w` alone into a fresh split container with the given
/// direction, in place of `w` under `p`; returns the new container's id.
fn wrap_window(tree: &mut ContainerTree, w: usize, p: usize, direction: TilingDirection) -> (s: usize)
    requires
        tree_wf(old(tree)@),
        old(tree)@.len() < usize::MAX,
        w < old(tree)@.len(),
        p < old(tree)@.len(),
        w != p,
        old(tree)@[w as int].parent == Some(p),
    ensures
        s == old(tree)@.len(),
        tree_wf(final(tree)@),
        final(tree)@ == spec_wrap(old(tree)@.push(new_split(direction)), s, p, seq![w]),
{
    let s = tree.add_container(ContainerKind::Split, direction, TilingLayout::Tiling);
    let mut targets: Vec<usize> = Vec::new();
    targets.push(w);
    proof {
        let t1 = tree@;
        assert(targets@ =~= seq![w]);
        assert(t1 == old(tree)@.push(new_split(direction)));
        assert(t1[s as int] =~= new_split(direction));
        assert(wrap_ready(t1, s, p, targets@));
    }
    let r = wrap_in_split_container(tree, s, p, &targets);
    proof {
        assert(r is Ok);
    }
    s
}

/// Toggles the tiling direction from tiling window `w` (see
/// [`spec_toggle_window_direction`]).
pub fn toggle_window_direction(tree: &mut ContainerTree, w: usize) -> (res: Result<usize, WmError>)
    requires
        tree_wf(old(tree)@),
        old(tree)@.len() < usize::MAX,
        w < old(tree)@.len(),
        old(tree)@[w as int].kind == ContainerKind::TilingWindow,
    ensures
        tree_wf(final(tree)@),
        (final(tree)@, res) == spec_toggle_window_direction(old(tree)@, w),
        res matches Ok(d) ==> d < final(tree)@.len(),
{
    let dc = match tree.nearest(w, KindClass::DirectionContainer) {
        None => { return Err(WmError::NoDirectionContainer); },
        Some(dc) => dc,
    };
    proof {
        reveal_with_fuel(nearest_in_class, 2);
    }
    if tiling_sibling_count(tree, w) == 0 {
        if tree.kind(dc) == ContainerKind::Workspace {
            let d = tree.tiling_direction(dc).inverse();
            tree.set_tiling_direction(dc, d);
            return Ok(dc);
        }
        return toggle_single_child_split(tree, w, dc);
    }
    if tree.parent(w) != Some(dc) {
        return Err(WmError::NotInDirectionContainer);
    }
    let d = tree.tiling_direction(dc).inverse();
    let s = wrap_window(tree, w, dc, d);
    Ok(s)
}

/// What a direction toggle from container `c` does: tiling windows go
/// through [`spec_toggle_window_direction`], workspaces flip their own
/// direction, other containers are left alone. Reports the container whose
/// direction changed and its new direction.
pub open spec fn spec_toggle_tiling_direction(t: Seq<ContainerView>, c: usize) -> (Seq<ContainerView>, Result<Option<TilingDirectionChanged>, WmError>) {
    match t[c as int].kind {
        ContainerKind::TilingWindow => {
            let (t1, r) = spec_toggle_window_direction(t, c);
            match r {
                Err(e) => (t1, Err(e)),
                Ok(d) => (t1, Ok(Some(TilingDirectionChanged { container: d, direction: t1[d as int].direction }))),
            }
        },
        ContainerKind::Workspace => {
            let dir = t[c as int].direction.spec_inverse();
            (t.update(c as int, ContainerView { direction: dir, ..t[c as int] }), Ok(Some(TilingDirectionChanged { container: c, direction: dir })))
        },
        _ => (t, Ok(None)),
    }
}

/// Toggles the tiling direction from the subject container `c`.
pub fn toggle_tiling_direction(tree: &mut ContainerTree, c: usize) -> (res: Result<Option<TilingDirectionChanged>, WmError>)
    requires
        tree_wf(old(tree)@),
        old(tree)@.len() < usize::MAX,
        c < old(tree)@.len(),
    ensures
        tree_wf(final(tree)@),
        (final(tree)@, res) == spec_toggle_tiling_direction(old(tree)@, c),
{
    match tree.kind(c) {
        ContainerKind::TilingWindow => {
            let d = toggle_window_direction(tree, c)?;
            Ok(Some(TilingDirectionChanged { container: d, direction: tree.tiling_direction(d) }))
        },
        ContainerKind::Workspace => {
            let dir = tree.tiling_direction(c).inverse();
            tree.set_tiling_direction(c, dir);
            Ok(Some(TilingDirectionChanged { container: c, direction: dir }))
        },
        _ => Ok(None),
    }
}

/// What `set_tiling_direction` does: a toggle when the direction container
/// of `c` has another direction, nothing otherwise.
pub open spec fn spec_set_tiling_direction(t: Seq<ContainerView>, c: usize, direction: TilingDirection) -> (Seq<ContainerView>, Result<Option<TilingDirectionChanged>, WmError>) {
    match direction_container_of(t, c) {
        None => (t, Err(WmError::NoDirectionContainer)),
        Some(dc) => if t[dc as int].direction == direction {
            (t, Ok(None))
        } else {
            spec_toggle_tiling_direction(t, c)
        },
    }
}

/// Sets the tiling direction of the subject's direction container: a
/// toggle when the direction differs, nothing otherwise.
pub fn set_tiling_direction(tree: &mut ContainerTree, c: usize, direction: TilingDirection) -> (res: Result<Option<TilingDirectionChanged>, WmError>)
    requires
        tree_wf(old(tree)@),
        old(tree)@.len() < usize::MAX,
        c < old(tree)@.len(),
    ensures
        tree_wf(final(tree)@),
        (final(tree)@, res) == spec_set_tiling_direction(old(tree)@, c, direction),
        match direction_container_of(old(tree)@, c) {
            None => final(tree)@ == old(tree)@ && res == Err::<Option<TilingDirectionChanged>, WmError>(WmError::NoDirectionContainer),
            Some(dc) => if old(tree)@[dc as int].direction == direction {
                final(tree)@ == old(tree)@ && res == Ok::<Option<TilingDirectionChanged>, WmError>(None)
            } else {
                (final(tree)@, res) == spec_toggle_tiling_direction(old(tree)@, c)
            },
        },
{
    let dc = match tree.nearest(c, KindClass::DirectionContainer) {
        None => { return Err(WmError::NoDirectionContainer); },
        Some(dc) => dc,
    };
    if tree.tiling_direction(dc) == direction {
        Ok(None)
    } else {
        toggle_tiling_direction(tree, c)
    }
}


/// Accordion toggle of tiling window `w`: an only child flips accordion mode
/// of its workspace or dissolves its split container; a window with tiling
/// siblings is wrapped in a new split container with accordion mode
/// toggled. Returns the tree and the direction container that changed.
pub open spec fn spec_toggle_window_accordion_mode(t: Seq<ContainerView>, w: usize) -> (Seq<ContainerView>, Result<usize, WmError>) {
    match direction_container_of(t, w) {
        None => (t, Err(WmError::NoDirectionContainer)),
        Some(dc) => if tiling_siblings(t, w).len() == 0 {
            if t[dc as int].kind == ContainerKind::Workspace {
                (t.update(dc as int, ContainerView { direction: t[dc as int].direction.spec_toggle_accordion(), ..t[dc as int] }), Ok(dc))
            } else {
                match t[dc as int].parent {
                    None => (t, Err(WmError::Tree(TreeError::NoParent))),
                    Some(g) => if g == dc {
                        (t, Err(WmError::Tree(TreeError::OwnParent)))
                    } else {
                        let t1 = spec_flatten(t, dc);
                        match direction_container_of(t1, w) {
                            None => (t1, Err(WmError::NoDirectionContainer)),
                            Some(d) => (t1, Ok(d)),
                        }
                    },
                }
            }
        } else if t[w as int].parent != Some(dc) {
            (t, Err(WmError::NotInDirectionContainer))
        } else {
            let s = t.len() as usize;
            let t1 = t.push(new_split(t[dc as int].direction.spec_toggle_accordion()));
            (spec_wrap(t1, s, dc, seq![w]), Ok(s))
        },
    }
}

/// Toggles accordion mode from tiling window `w` (see
/// [`spec_toggle_window_accordion_mode`]).
pub fn toggle_window_accordion_mode(tree: &mut ContainerTree, w: usize) -> (res: Result<usize, WmError>)
    requires
        tree_wf(old(tree)@),
        old(tree)@.len() < usize::MAX,
        w < old(tree)@.len(),
        old(tree)@[w as int].kind == ContainerKind::TilingWindow,
    ensures
        tree_wf(final(tree)@),
        (final(tree)@, res) == spec_toggle_window_accordion_mode(old(tree)@, w),
        res matches Ok(d) ==> d < final(tree)@.len(),
{
    let dc = match tree.nearest(w, KindClass::DirectionContainer) {
        None => { return Err(WmError::NoDirectionContainer); },
        Some(dc) => dc,
    };
    if tiling_sibling_count(tree, w) == 0 {
        if tree.kind(dc) == ContainerKind::Workspace {
            let d = tree.tiling_direction(dc).toggle_accordion();
            tree.set_tiling_direction(dc, d);
            return Ok(dc);
        }
        match flatten_split_container(tree, dc) {
            Err(e) => { return Err(WmError::Tree(e)); },
            Ok(()) => {},
        }
        return match tree.nearest(w, KindClass::DirectionContainer) {
            None => Err(WmError::NoDirectionContainer),
            Some(d) => Ok(d),
        };
    }
    if tree.parent(w) != Some(dc) {
        return Err(WmError::NotInDirectionContainer);
    }
    let d = tree.tiling_direction(dc).toggle_accordion();
    let s = wrap_window(tree, w, dc, d);
    Ok(s)
}

/// What an accordion toggle from container `c` does (compare
/// [`spec_toggle_tiling_direction`]).
pub open spec fn spec_toggle_accordion_mode(t: Seq<ContainerView>, c: usize) -> (Seq<ContainerView>, Result<Option<TilingDirectionChanged>, WmError>) {
    match t[c as int].kind {
        ContainerKind::TilingWindow => {
            let (t1, r) = spec_toggle_window_accordion_mode(t, c);
            match r {
                Err(e) => (t1, Err(e)),
                Ok(d) => (t1, Ok(Some(TilingDirectionChanged { container: d, direction: t1[d as int].direction }))),
            }
        },
        ContainerKind::Workspace => {
            let dir = t[c as int].direction.spec_toggle_accordion();
            (t.update(c as int, ContainerView { direction: dir, ..t[c as int] }), Ok(Some(TilingDirectionChanged { container: c, direction: dir })))
        },
        _ => (t, Ok(None)),
    }
}

/// Toggles accordion mode from the subject container `c`.
pub fn toggle_accordion_mode(tree: &mut ContainerTree, c: usize) -> (res: Result<Option<TilingDirectionChanged>, WmError>)
    requires
        tree_wf(old(tree)@),
        old(tree)@.len() < usize::MAX,
        c < old(tree)@.len(),
    ensures
        tree_wf(final(tree)@),
        (final(tree)@, res) == spec_toggle_accordion_mode(old(tree)@, c),
{
    match tree.kind(c) {
        ContainerKind::TilingWindow => {
            let d = toggle_window_accordion_mode(tree, c)?;
            Ok(Some(TilingDirectionChanged { container: d, direction: tree.tiling_direction(d) }))
        },
        ContainerKind::Workspace => {
            let dir = tree.tiling_direction(c).toggle_accordion();
            tree.set_tiling_direction(c, dir);
            Ok(Some(TilingDirectionChanged { container: c, direction: dir }))
        },
        _ => Ok(None),
    }
}

/// Toggles accordion mode unless the subject's direction container already
/// has the given direction.
pub fn set_accordion_mode(tree: &mut ContainerTree, c: usize, direction: TilingDirection) -> (res: Result<Option<TilingDirectionChanged>, WmError>)
    requires
        tree_wf(old(tree)@),
        old(tree)@.len() < usize::MAX,
        c < old(tree)@.len(),
    ensures
        tree_wf(final(tree)@),
        match direction_container_of(old(tree)@, c) {
            None => final(tree)@ == old(tree)@ && res == Err::<Option<TilingDirectionChanged>, WmError>(WmError::NoDirectionContainer),
            Some(dc) => if old(tree)@[dc as int].direction == direction {
                final(tree)@ == old(tree)@ && res == Ok::<Option<TilingDirectionChanged>, WmError>(None)
            } else {
                (final(tree)@, res) == spec_toggle_accordion_mode(old(tree)@, c)
            },
        },
{
    let dc = match tree.nearest(c, KindClass::DirectionContainer) {
        None => { return Err(WmError::NoDirectionContainer); },
        Some(dc) => dc,
    };
    if tree.tiling_direction(dc) == direction {
        Ok(None)
    } else {
        toggle_accordion_mode(tree, c)
    }
}


/// `s` has exactly one child, and that child is a split container.
pub open spec fn single_split_child(t: Seq<ContainerView>, s: usize) -> bool {
    &&& t[s as int].children.len() == 1
    &&& t[t[s as int].children[0] as int].kind == ContainerKind::Split
}

/// One step of [`spec_flatten_child_split_containers`] on split child `s`
/// of `p`: a redundant `s` is dissolved, after dissolving its only child
/// when that child is a split container (so `H[1 H[V[2, 3]]]` becomes
/// `H[1, 2, 3]`).
pub open spec fn spec_flatten_redundant_child(t: Seq<ContainerView>, p: usize, s: usize) -> (Seq<ContainerView>, Result<(), TreeError>) {
    if !(t[s as int].direction == t[p as int].direction && t[s as int].layout == t[p as int].layout) {
        (t, Ok(()))
    } else {
        let pre = if single_split_child(t, s) {
            spec_try_flatten(t, t[s as int].children[0])
        } else {
            (t, Ok(()))
        };
        if pre.1 is Err { pre } else { spec_try_flatten(pre.0, s) }
    }
}

/// The steps of [`spec_flatten_redundant_child`] over `ss`, in order,
/// stopping at the first error.
pub open spec fn spec_flatten_redundant_children(t: Seq<ContainerView>, p: usize, ss: Seq<usize>) -> (Seq<ContainerView>, Result<(), TreeError>)
    decreases ss.len(),
{
    if ss.len() == 0 {
        (t, Ok(()))
    } else {
        let prev = spec_flatten_redundant_children(t, p, ss.drop_last());
        if prev.1 is Err { prev } else { spec_flatten_redundant_child(prev.0, p, ss.last()) }
    }
}

pub open spec fn split_pred(t: Seq<ContainerView>) -> spec_fn(usize) -> bool {
    |x: usize| t[x as int].kind == ContainerKind::Split
}

/// Flattening redundant split containers at the top level of `p`: a single
/// tiling child that is a split container is dissolved and hands its
/// direction and layout to `p`; otherwise each split child with the
/// direction and layout of `p` is dissolved, together with a split container
/// that is its only child.
pub open spec fn spec_flatten_child_split_containers(t: Seq<ContainerView>, p: usize) -> (Seq<ContainerView>, Result<(), TreeError>) {
    if !t[p as int].kind.is_direction_container() {
        (t, Ok(()))
    } else {
        let tc = tiling_children(t, p);
        if tc.len() == 1 {
            let c = tc[0];
            if t[c as int].kind == ContainerKind::Split {
                let f = spec_try_flatten(t, c);
                if f.1 is Err {
                    f
                } else {
                    (f.0.update(p as int, ContainerView { direction: t[c as int].direction, layout: t[c as int].layout, ..f.0[p as int] }), Ok(()))
                }
            } else {
                (t, Ok(()))
            }
        } else {
            spec_flatten_redundant_children(t, p, tc.filter(split_pred(t)))
        }
    }
}

pub proof fn lemma_flatten_children_err_prefix(t: Seq<ContainerView>, p: usize, ss: Seq<usize>, k: int)
    requires
        0 <= k <= ss.len(),
        spec_flatten_redundant_children(t, p, ss.take(k)).1 is Err,
    ensures
        spec_flatten_redundant_children(t, p, ss) == spec_flatten_redundant_children(t, p, ss.take(k)),
    decreases ss.len() - k,
{
    if k < ss.len() {
        let ss1 = ss.take(k + 1);
        assert(ss1.drop_last() =~= ss.take(k));
        assert(ss1.take(k) =~= ss.take(k));
        lemma_flatten_children_err_prefix(t, p, ss, k + 1);
    } else {
        assert(ss.take(k) =~= ss);
    }
}

/// See [`spec_flatten_redundant_child`].
fn flatten_redundant_child(tree: &mut ContainerTree, p: usize, s: usize) -> (res: Result<(), TreeError>)
    requires
        tree_wf(old(tree)@),
        p < old(tree)@.len(),
        s < old(tree)@.len(),
        old(tree)@[s as int].kind == ContainerKind::Split,
    ensures
        tree_wf(final(tree)@),
        final(tree)@.len() == old(tree)@.len(),
        forall|i: int| 0 <= i < old(tree)@.len() ==> (#[trigger] final(tree)@[i]).kind == old(tree)@[i].kind,
        (final(tree)@, res) == spec_flatten_redundant_child(old(tree)@, p, s),
{
    let ghost t = tree@;
    if !(tree.tiling_direction(s) == tree.tiling_direction(p) && tree.tiling_layout(s) == tree.tiling_layout(p)) {
        return Ok(());
    }
    let mut pre_done = false;
    if tree.child_count(s) == 1 {
        let g = tree.child_at(s, 0);
        proof {
            assert(links_ok(tree@, s as int));
        }
        if tree.kind(g) == ContainerKind::Split {
            let r = flatten_split_container(tree, g);
            if r.is_err() {
                return r;
            }
            pre_done = true;
        }
    }
    proof {
        let pre = if single_split_child(t, s) {
            spec_try_flatten(t, t[s as int].children[0])
        } else {
            (t, Ok(()))
        };
        assert(pre.0 == tree@);
        assert(pre.1 is Ok);
    }
    flatten_split_container(tree, s)
}

/// Flattens any redundant split containers at the top level of `parent`
/// (see [`spec_flatten_child_split_containers`]).
pub fn flatten_child_split_containers(tree: &mut ContainerTree, parent: usize) -> (res: Result<(), TreeError>)
    requires
        tree_wf(old(tree)@),
        parent < old(tree)@.len(),
    ensures
        tree_wf(final(tree)@),
        final(tree)@.len() == old(tree)@.len(),
        (final(tree)@, res) == spec_flatten_child_split_containers(old(tree)@, parent),
{
    let k = tree.kind(parent);
    if !(k == ContainerKind::Workspace || k == ContainerKind::Split) {
        return Ok(());
    }
    let ghost t = tree@;
    let tc = tree.tiling_children(parent);
    if tc.len() == 1 {
        let c = tc[0];
        if tree.kind(c) == ContainerKind::Split {
            let d = tree.tiling_direction(c);
            let l = tree.tiling_layout(c);
            flatten_split_container(tree, c)?;
            tree.set_tiling_direction(parent, d);
            tree.set_tiling_layout(parent, l);
            proof {
                let t1 = spec_flatten(t, c);
                assert(tree@ =~= t1.update(parent as int, ContainerView { direction: d, layout: l, ..t1[parent as int] }));
            }
        }
        return Ok(());
    }
    let mut splits: Vec<usize> = Vec::new();
    let mut i: usize = 0;
    while i < tc.len()
        invariant
            t == tree@,
            tree_wf(t),
            tc@ == tiling_children(t, parent),
            forall|k: int| 0 <= k < tc@.len() ==> (#[trigger] tc@[k]) < t.len(),
            i <= tc.len(),
            splits@ == tc@.take(i as int).filter(split_pred(t)),
        decreases tc.len() - i,
    {
        let x = tc[i];
        proof {
            assert(tc@.take(i as int).push(x) =~= tc@.take(i as int + 1));
            tc@.take(i as int).lemma_filter_push(x, split_pred(t));
        }
        if tree.kind(x) == ContainerKind::Split {
            splits.push(x);
        }
        i = i + 1;
    }
    proof {
        assert(tc@.take(tc.len() as int) =~= tc@);
        assert forall|q: int| 0 <= q < splits@.len() implies (#[trigger] splits@[q]) < t.len() && t[splits@[q] as int].kind == ContainerKind::Split by {
            let x = splits@[q];
            assert(splits@.contains(x));
            lemma_filter_contains_iff(tc@, split_pred(t), x);
            let w = choose|w: int| 0 <= w < tc@.len() && tc@[w] == x;
            assert(tc@[w] < t.len());
        }
        assert(splits@.take(0) =~= Seq::<usize>::empty());
    }
    let mut j: usize = 0;
    while j < splits.len()
        invariant
            tree_wf(tree@),
            tree@.len() == t.len(),
            parent < t.len(),
            forall|q: int| 0 <= q < t.len() ==> (#[trigger] tree@[q]).kind == t[q].kind,
            splits@ == tc@.filter(split_pred(t)),
            tc@ == tiling_children(t, parent),
            t == old(tree)@,
            tc@.len() != 1,
            t[parent as int].kind.is_direction_container(),
            forall|q: int| 0 <= q < splits@.len() ==> (#[trigger] splits@[q]) < t.len() && t[splits@[q] as int].kind == ContainerKind::Split,
            j <= splits.len(),
            (tree@, Ok::<(), TreeError>(())) == spec_flatten_redundant_children(t, parent, splits@.take(j as int)),
        decreases splits.len() - j,
    {
        let s = splits[j];
        proof {
            assert(splits@.take(j as int + 1).drop_last() =~= splits@.take(j as int));
            assert(splits@.take(j as int + 1).last() == s);
        }
        let ghost cur = tree@;
        let r = flatten_redundant_child(tree, parent, s);
        if r.is_err() {
            proof {
                assert(spec_flatten_redundant_children(t, parent, splits@.take(j as int + 1)) == spec_flatten_redundant_child(cur, parent, s));
                assert(spec_flatten_redundant_children(t, parent, splits@.take(j as int + 1)) == (tree@, r));
                lemma_flatten_children_err_prefix(t, parent, splits@, j as int + 1);
                assert(tc@.len() != 1);
                assert(spec_flatten_child_split_containers(t, parent) == spec_flatten_redundant_children(t, parent, splits@));
            }
            return r;
        }
        j = j + 1;
    }
    proof {
        assert(splits@.take(splits.len() as int) =~= splits@);
    }
    Ok(())
}


/// The last split point for spiral tiling under `c`: descending through the
/// last tiling child while it is a split container (at most `fuel` levels),
/// the deepest direction container with a tiling child and that last child.
pub open spec fn spec_find_last_tiling_window_to_split(t: Seq<ContainerView>, c: usize, fuel: nat) -> Option<(usize, usize)>
    decreases fuel,
{
    if !t[c as int].kind.is_direction_container() {
        None
    } else {
        let tc = tiling_children(t, c);
        if tc.len() == 0 {
            None
        } else {
            let last = tc.last();
            if t[last as int].kind == ContainerKind::Split && fuel > 0 {
                match spec_find_last_tiling_window_to_split(t, last, (fuel - 1) as nat) {
                    Some(r) => Some(r),
                    None => Some((c, last)),
                }
            } else {
                Some((c, last))
            }
        }
    }
}

fn find_last_from(tree: &ContainerTree, c: usize, fuel: usize) -> (res: Option<(usize, usize)>)
    requires
        tree_wf(tree@),
        c < tree@.len(),
    ensures
        res == spec_find_last_tiling_window_to_split(tree@, c, fuel as nat),
        res matches Some((p, x)) ==> p < tree@.len() && x < tree@.len() && tree@[x as int].parent == Some(p),
    decreases fuel,
{
    let k = tree.kind(c);
    if !(k == ContainerKind::Workspace || k == ContainerKind::Split) {
        return None;
    }
    let tc = tree.tiling_children(c);
    if tc.len() == 0 {
        return None;
    }
    let last = tc[tc.len() - 1];
    proof {
        let t = tree@;
        assert(tc@.contains(last));
        lemma_filter_contains_iff(t[c as int].children, tiling_pred(t), last);
        assert(links_ok(t, c as int));
    }
    if tree.kind(last) == ContainerKind::Split && fuel > 0 {
        match find_last_from(tree, last, fuel - 1) {
            Some(r) => Some(r),
            None => Some((c, last)),
        }
    } else {
        Some((c, last))
    }
}

/// Finds where spiral tiling splits next under `container` (see
/// [`spec_find_last_tiling_window_to_split`]; the descent is bounded by the
/// number of containers).
pub fn find_last_tiling_window_to_split(tree: &ContainerTree, container: usize) -> (res: Option<(usize, usize)>)
    requires
        tree_wf(tree@),
        container < tree@.len(),
    ensures
        res == spec_find_last_tiling_window_to_split(tree@, container, tree@.len()),
        res matches Some((p, x)) ==> p < tree@.len() && x < tree@.len() && tree@[x as int].parent == Some(p),
{
    find_last_from(tree, container, tree.len())
}

/// Among `v[0..k]`, the last tiling window.
pub open spec fn last_window_before(t: Seq<ContainerView>, v: Seq<usize>, k: int) -> Option<usize>
    decreases k,
{
    if k <= 0 {
        None
    } else if t[v[k - 1] as int].kind == ContainerKind::TilingWindow {
        Some(v[k - 1])
    } else {
        last_window_before(t, v, k - 1)
    }
}

/// Among `v[k..]`, the first tiling window.
pub open spec fn first_window_from(t: Seq<ContainerView>, v: Seq<usize>, k: int) -> Option<usize>
    decreases v.len() - k,
{
    if k < 0 || k >= v.len() {
        None
    } else if t[v[k] as int].kind == ContainerKind::TilingWindow {
        Some(v[k])
    } else {
        first_window_from(t, v, k + 1)
    }
}

/// The neighbour that `toggle_vertical` pairs `w` with: the nearest tiling
/// window before it among its siblings (`true`), else the nearest after it
/// (`false`).
pub open spec fn spec_find_neighbor_window(t: Seq<ContainerView>, w: usize) -> Result<(usize, bool), WmError> {
    match t[w as int].parent {
        None => Err(WmError::NoNeighbor),
        Some(p) => {
            let v = t[p as int].children;
            let i = v.index_of(w);
            match last_window_before(t, v, i) {
                Some(n) => Ok((n, true)),
                None => match first_window_from(t, v, i + 1) {
                    Some(n) => Ok((n, false)),
                    None => Err(WmError::NoNeighbor),
                },
            }
        },
    }
}

/// Finds the neighbour window (left first, then right) of `w`.
pub fn find_neighbor_window(tree: &ContainerTree, w: usize) -> (res: Result<(usize, bool), WmError>)
    requires
        tree_wf(tree@),
        w < tree@.len(),
    ensures
        res == spec_find_neighbor_window(tree@, w),
        res matches Ok((n, _)) ==> n < tree@.len() && tree@[n as int].kind == ContainerKind::TilingWindow
            && tree@[n as int].parent == tree@[w as int].parent && n != w,
{
    let ghost t = tree@;
    let p = match tree.parent(w) {
        None => { return Err(WmError::NoNeighbor); },
        Some(p) => p,
    };
    proof {
        assert(links_ok(t, w as int));
        assert(links_ok(t, p as int));
    }
    let v = tree.children(p);
    let i = crate::seqs::position(&v, w).unwrap();
    proof {
        crate::tree::lemma_index_of_unique(v@, i as int);
        assert(links_ok(t, p as int));
        assert(v@.no_duplicates());
    }
    let mut k: usize = i;
    while k > 0
        invariant
            t == tree@,
            tree_wf(t),
            p < t.len(),
            v@ == t[p as int].children,
            k <= i < v@.len(),
            v@[i as int] == w,
            v@.no_duplicates(),
            v@.index_of(w) == i,
            last_window_before(t, v@, i as int) == last_window_before(t, v@, k as int),
            forall|q: int| 0 <= q < v@.len() ==> (#[trigger] v@[q]) < t.len() && t[v@[q] as int].parent == Some(p),
        decreases k,
    {
        let x = v[k - 1];
        if tree.kind(x) == ContainerKind::TilingWindow {
            proof {
                assert(v@[k - 1] != v@[i as int]);
                assert(last_window_before(t, v@, k as int) == Some(x));
                assert(t[w as int].parent == Some(p));
            }
            return Ok((x, true));
        }
        k = k - 1;
    }
    let mut j: usize = i + 1;
    while j < v.len()
        invariant
            t == tree@,
            tree_wf(t),
            p < t.len(),
            v@ == t[p as int].children,
            i < j <= v@.len(),
            v@[i as int] == w,
            v@.no_duplicates(),
            v@.index_of(w) == i,
            last_window_before(t, v@, i as int) == None::<usize>,
            first_window_from(t, v@, i as int + 1) == first_window_from(t, v@, j as int),
            forall|q: int| 0 <= q < v@.len() ==> (#[trigger] v@[q]) < t.len() && t[v@[q] as int].parent == Some(p),
        decreases v.len() - j,
    {
        let x = v[j];
        if tree.kind(x) == ContainerKind::TilingWindow {
            proof {
                assert(v@[j as int] != v@[i as int]);
                assert(first_window_from(t, v@, j as int) == Some(x));
                assert(t[w as int].parent == Some(p));
            }
            return Ok((x, false));
        }
        j = j + 1;
    }
    proof {
        assert(first_window_from(t, v@, j as int) == None::<usize>);
        assert(t[w as int].parent == Some(p));
    }
    Err(WmError::NoNeighbor)
}


/// The targets that `toggle_vertical` wraps: the neighbour `n` and `w`,
/// the left or upper one first.
pub open spec fn vertical_pair(w: usize, n: usize, left: bool) -> Seq<usize> {
    if left { seq![n, w] } else { seq![w, n] }
}

/// What `toggle_vertical` does to tiling window `c`:
/// - the only other child of a vertical split with it: the split is
///   dissolved into its parent;
/// - one of three or more children of a vertical split: `c` moves out to
///   the split's parent, just after the split;
/// - otherwise `c` and its neighbour window (see
///   [`spec_find_neighbor_window`]) are wrapped in a new vertical split.
///
/// Returns the tree and the container whose tiling children are redrawn;
/// other containers are left alone.
pub open spec fn spec_toggle_vertical(t: Seq<ContainerView>, c: usize) -> (Seq<ContainerView>, Result<Option<usize>, WmError>) {
    if t[c as int].kind != ContainerKind::TilingWindow {
        (t, Ok(None))
    } else {
        match t[c as int].parent {
            None => (t, Err(WmError::NoParent)),
            Some(p) => {
                let pv = t[p as int];
                if pv.kind == ContainerKind::Split && pv.direction == TilingDirection::Vertical && pv.children.len() >= 2 {
                    match pv.parent {
                        None => (t, Err(WmError::NoGrandparent)),
                        Some(g) => if pv.children.len() == 2 {
                            let r = spec_try_flatten(t, p);
                            match r.1 {
                                Ok(()) => (r.0, Ok(Some(g))),
                                Err(e) => (r.0, Err(WmError::Tree(e))),
                            }
                        } else {
                            let idx = t[g as int].children.index_of(p) + 1;
                            let r = spec_try_move(t, c, g, idx as usize);
                            match r.1 {
                                Ok(()) => (r.0, Ok(Some(g))),
                                Err(e) => (r.0, Err(WmError::Tree(e))),
                            }
                        },
                    }
                } else {
                    match spec_find_neighbor_window(t, c) {
                        Err(e) => (t, Err(e)),
                        Ok(nb) => {
                            let s = t.len() as usize;
                            let t1 = t.push(new_split(TilingDirection::Vertical));
                            let r = spec_try_wrap(t1, s, p, vertical_pair(c, nb.0, nb.1));
                            match r.1 {
                                Ok(()) => (r.0, Ok(Some(p))),
                                Err(e) => (r.0, Err(WmError::Tree(e))),
                            }
                        },
                    }
                }
            },
        }
    }
}

/// Wrapping the neighbours `c0[i - 1]` and `c0[i]` in `s`: `s` takes their
/// place.
proof fn lemma_wrap_adjacent_pair(c0: Seq<usize>, i: int, s: usize)
    requires
        c0.no_duplicates(),
        0 < i < c0.len(),
        !c0.contains(s),
    ensures
        min_pos(c0, seq![c0[i - 1], c0[i]]) == i - 1,
        c0.insert(i - 1, s).filter(not_in_pred(seq![c0[i - 1], c0[i]])) == c0.take(i - 1).push(s) + c0.skip(i + 1),
        (c0.take(i - 1).push(s) + c0.skip(i + 1))[i - 1] == s,
        (c0.take(i - 1).push(s) + c0.skip(i + 1)).len() == c0.len() - 1,
        (c0.take(i - 1).push(s) + c0.skip(i + 1)).take(i - 1) + seq![c0[i - 1], c0[i]]
            + (c0.take(i - 1).push(s) + c0.skip(i + 1)).skip(i) == c0,
{
    let n = c0[i - 1];
    let w = c0[i];
    let xs = seq![n, w];
    lemma_index_of_unique(c0, i);
    lemma_index_of_unique(c0, i - 1);
    assert(xs.drop_last() =~= seq![n]);
    assert(min_pos(c0, seq![n]) == i - 1);
    let front = c0.take(i - 1).push(s);
    let back = c0.skip(i + 1);
    assert(c0.insert(i - 1, s) =~= front + (xs + back));
    assert forall|k: int| 0 <= k < front.len() implies (#[trigger] not_in_pred(xs)(front[k])) by {
        if k < i - 1 {
            assert(front[k] == c0[k]);
            assert(c0[k] != c0[i - 1] && c0[k] != c0[i]);
        } else {
            assert(c0.contains(n) && c0.contains(w));
        }
    }
    assert forall|k: int| 0 <= k < back.len() implies (#[trigger] not_in_pred(xs)(back[k])) by {
        assert(back[k] == c0[k + i + 1]);
        assert(c0[k + i + 1] != c0[i - 1] && c0[k + i + 1] != c0[i]);
    }
    lemma_filter_keeps_all(front, not_in_pred(xs));
    lemma_filter_keeps_all(back, not_in_pred(xs));
    assert(xs[0] == n && xs[1] == w);
    assert(!not_in_pred(xs)(n) && !not_in_pred(xs)(w));
    assert(xs.filter(not_in_pred(xs)) =~= Seq::<usize>::empty()) by {
        assert forall|k: int| 0 <= k < xs.len() implies !not_in_pred(xs)(#[trigger] xs[k]) by {
            assert(xs.contains(xs[k]));
        }
        xs.lemma_all_neg_filter_empty(not_in_pred(xs));
    }
    Seq::filter_distributes_over_add(front, xs + back, not_in_pred(xs));
    Seq::filter_distributes_over_add(xs, back, not_in_pred(xs));
    assert((xs + back).filter(not_in_pred(xs)) =~= back);
    let ch1 = front + back;
    assert(ch1.take(i - 1) + xs + ch1.skip(i) =~= c0);
}

/// No tiling window among `v[..k]`.
proof fn lemma_no_window_before(t: Seq<ContainerView>, v: Seq<usize>, k: int)
    requires
        k <= v.len(),
        forall|q: int| 0 <= q < k ==> t[#[trigger] v[q] as int].kind != ContainerKind::TilingWindow,
    ensures
        last_window_before(t, v, k) == None::<usize>,
    decreases k,
{
    if k > 0 {
        assert(t[v[k - 1] as int].kind != ContainerKind::TilingWindow);
        lemma_no_window_before(t, v, k - 1);
    }
}

/// The pair `a`, `b` of neighbouring tiling windows that toggling `w`
/// groups: `w` is `b`, or `w` is `a` and no tiling window comes before it.
pub open spec fn toggle_pair(t: Seq<ContainerView>, p: usize, j: int, w: usize) -> bool {
    let c0 = t[p as int].children;
    &&& 0 <= j && j + 1 < c0.len()
    &&& c0[j] < t.len() && t[c0[j] as int].kind == ContainerKind::TilingWindow
    &&& c0[j + 1] < t.len() && t[c0[j + 1] as int].kind == ContainerKind::TilingWindow
    &&& (w == c0[j + 1] || (w == c0[j]
        && forall|q: int| 0 <= q < j ==> t[#[trigger] c0[q] as int].kind != ContainerKind::TilingWindow))
}

/// The first toggle of [`toggle_vertical_twice_restores_children`]: the
/// pair is wrapped in the new split `t.len()`.
#[verifier::spinoff_prover]
#[verifier::rlimit(60)]
proof fn lemma_toggle_vertical_wraps_pair(t: Seq<ContainerView>, p: usize, j: int, w: usize)
    requires
        tree_wf(t),
        t.len() < usize::MAX,
        p < t.len(),
        t[p as int].parent != Some(p),
        !(t[p as int].kind == ContainerKind::Split && t[p as int].direction == TilingDirection::Vertical),
        toggle_pair(t, p, j, w),
    ensures
        ({
            let c0 = t[p as int].children;
            let r = spec_toggle_vertical(t, w).0;
            let s = t.len() as usize;
            &&& spec_toggle_vertical(t, w).1 == Ok::<Option<usize>, WmError>(Some(p))
            &&& tree_wf(r)
            &&& r.len() == t.len() + 1
            &&& r[p as int].children == c0.take(j).push(s) + c0.skip(j + 2)
            &&& r[s as int].children == seq![c0[j], c0[j + 1]]
            &&& r[s as int].parent == Some(p)
            &&& r[s as int].kind == ContainerKind::Split
            &&& r[s as int].direction == TilingDirection::Vertical
            &&& r[w as int].parent == Some(s)
            &&& r[c0[j] as int].kind == ContainerKind::TilingWindow
            &&& r[c0[j + 1] as int].kind == ContainerKind::TilingWindow
        }),
{
    let c0 = t[p as int].children;
    let a = c0[j];
    let b = c0[j + 1];
    assert(links_ok(t, p as int));
    assert(t[a as int].parent == Some(p));
    assert(t[b as int].parent == Some(p));
    lemma_index_of_unique(c0, j);
    lemma_index_of_unique(c0, j + 1);
    if w == b {
        assert(last_window_before(t, c0, j + 1) == Some(a));
        assert(spec_find_neighbor_window(t, w) == Ok::<(usize, bool), WmError>((a, true)));
    } else {
        lemma_no_window_before(t, c0, j);
        assert(first_window_from(t, c0, j + 1) == Some(b));
        assert(spec_find_neighbor_window(t, w) == Ok::<(usize, bool), WmError>((b, false)));
    }
    let s = t.len() as usize;
    let t1 = t.push(new_split(TilingDirection::Vertical));
    let xs = seq![a, b];
    assert(w == b ==> vertical_pair(w, a, true) =~= xs);
    assert(w == a ==> vertical_pair(w, b, false) =~= xs);
    lemma_push_detached_wf(t, new_split(TilingDirection::Vertical));
    assert(t1[p as int] == t[p as int]);
    assert(t1[a as int] == t[a as int]);
    assert(t1[b as int] == t[b as int]);
    assert(xs[0] == a && xs[1] == b);
    assert(wrap_ready(t1, s, p, xs));
    assert(p != a && p != b);
    assert(!xs.contains(p));
    lemma_wrap_wf(t1, s, p, xs);
    assert(!c0.contains(s)) by {
        if c0.contains(s) {
            let k = choose|k: int| 0 <= k < c0.len() && c0[k] == s;
            assert(c0[k] < t.len());
        }
    }
    lemma_wrap_adjacent_pair(c0, j + 1, s);
    assert(xs.contains(w));
    assert(spec_toggle_vertical(t, w) == (spec_wrap(t1, s, p, xs), Ok::<Option<usize>, WmError>(Some(p))));
}

/// The second toggle of [`toggle_vertical_twice_restores_children`]: the
/// vertical split `s` of the two windows `a` and `b` is dissolved into `p`.
proof fn lemma_toggle_vertical_dissolves_pair(r: Seq<ContainerView>, p: usize, k: int, s: usize, a: usize, b: usize, w: usize)
    requires
        tree_wf(r),
        p < r.len() && s < r.len() && a < r.len() && b < r.len(),
        w == a || w == b,
        r[a as int].kind == ContainerKind::TilingWindow,
        r[b as int].kind == ContainerKind::TilingWindow,
        r[w as int].parent == Some(s),
        r[s as int].kind == ContainerKind::Split,
        r[s as int].direction == TilingDirection::Vertical,
        r[s as int].children == seq![a, b],
        r[s as int].parent == Some(p),
        0 <= k < r[p as int].children.len(),
        r[p as int].children[k] == s,
    ensures
        spec_toggle_vertical(r, w).1 == Ok::<Option<usize>, WmError>(Some(p)),
        spec_toggle_vertical(r, w).0[p as int].children
            == r[p as int].children.take(k) + seq![a, b] + r[p as int].children.skip(k + 1),
        spec_toggle_vertical(r, w).0[a as int].parent == Some(p),
        spec_toggle_vertical(r, w).0[b as int].parent == Some(p),
        spec_toggle_vertical(r, w).0[s as int].parent is None,
{
    assert(links_ok(r, p as int));
    assert(links_ok(r, s as int));
    assert(seq![a, b][0] == a && seq![a, b][1] == b);
    assert(r[a as int].parent == Some(s) && r[b as int].parent == Some(s));
    assert(s != p) by {
        if s == p {
            assert(r[s as int].children.contains(s));
        }
    }
    lemma_index_of_unique(r[p as int].children, k);
    let r2 = crate::tree::spec_flatten(r, s);
    assert(spec_toggle_vertical(r, w) == (r2, Ok::<Option<usize>, WmError>(Some(p))));
}

/// Toggling vertical grouping twice gives the parent its children back.
///
/// Take neighbouring tiling windows `a` and `b` at positions `j` and
/// `j + 1` among the children of `p`, a container that is not a vertical
/// split and not its own parent, and toggle `w`: `b`, or `a` when no tiling window comes
/// before it (see [`toggle_pair`]). The first toggle puts `a` and `b`, in
/// that order, into a new vertical split that takes their place in `p`;
/// the second toggle dissolves that split, and `p` has its children as
/// before, in the same order.
#[verifier::spinoff_prover]
#[verifier::rlimit(50)]
pub proof fn toggle_vertical_twice_restores_children(t: Seq<ContainerView>, p: usize, j: int, w: usize)
    requires
        tree_wf(t),
        t.len() < usize::MAX,
        p < t.len(),
        t[p as int].parent != Some(p),
        !(t[p as int].kind == ContainerKind::Split && t[p as int].direction == TilingDirection::Vertical),
        toggle_pair(t, p, j, w),
    ensures
        ({
            let c0 = t[p as int].children;
            let s = t.len() as usize;
            let r1 = spec_toggle_vertical(t, w);
            let r2 = spec_toggle_vertical(r1.0, w);
            &&& r1.1 == Ok::<Option<usize>, WmError>(Some(p))
            &&& r1.0[p as int].children == c0.take(j).push(s) + c0.skip(j + 2)
            &&& r1.0[s as int].children == seq![c0[j], c0[j + 1]]
            &&& r1.0[s as int].direction == TilingDirection::Vertical
            &&& r2.1 == Ok::<Option<usize>, WmError>(Some(p))
            &&& r2.0[p as int].children == c0
            &&& r2.0[c0[j] as int].parent == Some(p)
            &&& r2.0[c0[j + 1] as int].parent == Some(p)
            &&& r2.0[s as int].parent is None
        }),
{
    let c0 = t[p as int].children;
    let s = t.len() as usize;
    lemma_toggle_vertical_wraps_pair(t, p, j, w);
    let r1 = spec_toggle_vertical(t, w).0;
    assert(!c0.contains(s)) by {
        assert(links_ok(t, p as int));
        if c0.contains(s) {
            let k = choose|k: int| 0 <= k < c0.len() && c0[k] == s;
            assert(c0[k] < t.len());
        }
    }
    assert(links_ok(t, p as int));
    lemma_wrap_adjacent_pair(c0, j + 1, s);
    lemma_toggle_vertical_dissolves_pair(r1, p, j, s, c0[j], c0[j + 1], w);
}

/// Groups tiling window `c` vertically with its neighbour, or undoes such a
/// grouping (see [`spec_toggle_vertical`]).
pub fn toggle_vertical(tree: &mut ContainerTree, c: usize) -> (res: Result<Option<usize>, WmError>)
    requires
        tree_wf(old(tree)@),
        old(tree)@.len() < usize::MAX,
        c < old(tree)@.len(),
    ensures
        tree_wf(final(tree)@),
        (final(tree)@, res) == spec_toggle_vertical(old(tree)@, c),
        res matches Ok(Some(x)) ==> x < final(tree)@.len(),
{
    let ghost t = tree@;
    if tree.kind(c) != ContainerKind::TilingWindow {
        return Ok(None);
    }
    let p = match tree.parent(c) {
        None => { return Err(WmError::NoParent); },
        Some(p) => p,
    };
    proof {
        assert(links_ok(t, c as int));
    }
    let count = tree.child_count(p);
    if tree.kind(p) == ContainerKind::Split && tree.tiling_direction(p) == TilingDirection::Vertical && count >= 2 {
        let g = match tree.parent(p) {
            None => { return Err(WmError::NoGrandparent); },
            Some(g) => g,
        };
        proof {
            assert(links_ok(t, p as int));
            assert(links_ok(t, g as int));
        }
        if count == 2 {
            return match flatten_split_container(tree, p) {
                Ok(()) => Ok(Some(g)),
                Err(e) => Err(WmError::Tree(e)),
            };
        }
        let siblings = tree.children(g);
        let k = crate::seqs::position(&siblings, p).unwrap();
        proof {
            crate::tree::lemma_index_of_unique(siblings@, k as int);
            assert(k < t[g as int].children.len());
        }
        return match move_container_within_tree(tree, c, g, k + 1) {
            Ok(()) => Ok(Some(g)),
            Err(e) => Err(WmError::Tree(e)),
        };
    }
    let (n, left) = find_neighbor_window(tree, c)?;
    let s = tree.add_container(ContainerKind::Split, TilingDirection::Vertical, TilingLayout::Tiling);
    let mut targets: Vec<usize> = Vec::new();
    if left {
        targets.push(n);
        targets.push(c);
    } else {
        targets.push(c);
        targets.push(n);
    }
    proof {
        let t1 = tree@;
        assert(targets@ =~= vertical_pair(c, n, left));
        assert(t1 == t.push(new_split(TilingDirection::Vertical)));
        assert(t1[s as int] =~= new_split(TilingDirection::Vertical));
        assert(t1[n as int] == t[n as int]);
        assert(t1[c as int] == t[c as int]);
        assert(wrap_ready(t1, s, p, targets@));
    }
    match wrap_in_split_container(tree, s, p, &targets) {
        Ok(()) => Ok(Some(p)),
        Err(e) => Err(WmError::Tree(e)),
    }
}

} // verus!
