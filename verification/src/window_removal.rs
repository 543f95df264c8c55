//! Taking a window out of the tree when it closes: the window goes, split
//! containers it leaves redundant are flattened, and focus moves on.
use vstd::prelude::*;
use crate::error::WmError;
use crate::app_command::WindowState;
use crate::tree::{
    ContainerTree, ContainerView, TreeError, tree_wf, links_ok, detach_error, spec_detach, detach_container,
    spec_flatten, spec_try_flatten, };
use crate::layout::{
    spec_flatten_child_split_containers, flatten_child_split_containers, spec_flatten_redundant_child,
    spec_flatten_redundant_children,
};
use crate::sync::WindowInfo;
use crate::focus::{spec_set_focused_descendant, set_focused_descendant};

verus! {

/// The first `n` ancestors of `c`: its parent, its grandparent, and so on.
pub open spec fn ancestors_upto(t: Seq<ContainerView>, c: usize, n: nat) -> Seq<usize>
    decreases n,
{
    if n == 0 {
        Seq::empty()
    } else {
        match t[c as int].parent {
            None => Seq::empty(),
            Some(p) => seq![p] + ancestors_upto(t, p, (n - 1) as nat),
        }
    }
}

/// See [`ancestors_upto`].
pub fn collect_ancestors(tree: &ContainerTree, c: usize, n: usize) -> (res: Vec<usize>)
    requires
        tree_wf(tree@),
        c < tree@.len(),
    ensures
        res@ == ancestors_upto(tree@, c, n as nat),
        forall|k: int| 0 <= k < res@.len() ==> (#[trigger] res@[k]) < tree@.len(),
{
    let ghost t = tree@;
    let mut res: Vec<usize> = Vec::new();
    let mut cur = c;
    let mut left = n;
    while left > 0
        invariant
            t == tree@,
            tree_wf(t),
            cur < t.len(),
            ancestors_upto(t, c, n as nat) == res@ + ancestors_upto(t, cur, left as nat),
            forall|k: int| 0 <= k < res@.len() ==> (#[trigger] res@[k]) < t.len(),
        decreases left,
    {
        match tree.parent(cur) {
            None => {
                proof {
                    assert(res@ + ancestors_upto(t, cur, left as nat) =~= res@);
                }
                return res;
            },
            Some(p) => {
                proof {
                    assert(links_ok(t, cur as int));
                    assert(res@.push(p) + ancestors_upto(t, p, (left - 1) as nat) =~= res@ + (seq![p] + ancestors_upto(t, p, (left - 1) as nat)));
                }
                res.push(p);
                cur = p;
                left = left - 1;
            },
        }
    }
    proof {
        assert(res@ + ancestors_upto(t, cur, 0) =~= res@);
    }
    res
}

/// Flattening the redundant split children of each of `xs` in turn, the
/// last first; the first refusal stops it.
pub open spec fn spec_flatten_ancestors(t: Seq<ContainerView>, xs: Seq<usize>) -> (Seq<ContainerView>, Result<(), TreeError>)
    decreases xs.len(),
{
    if xs.len() == 0 {
        (t, Ok(()))
    } else {
        let r = spec_flatten_child_split_containers(t, xs.last());
        match r.1 {
            Err(e) => (r.0, Err(e)),
            Ok(()) => spec_flatten_ancestors(r.0, xs.drop_last()),
        }
    }
}

/// The first of `xs` that still has a parent.
pub open spec fn first_attached(t: Seq<ContainerView>, xs: Seq<usize>) -> Option<usize>
    decreases xs.len(),
{
    if xs.len() == 0 {
        None
    } else if t[xs[0] as int].parent is Some {
        Some(xs[0])
    } else {
        first_attached(t, xs.drop_first())
    }
}

/// Removing window `w`: it is detached; the redundant split children of
/// its great-grandparent, grandparent and parent (as they were) are
/// flattened, in that order; `focus_target` (the container chosen to take
/// the focus, if any) is focused. For a tiling window, the result is the
/// nearest of those ancestors still in the tree, whose tiling children are
/// redrawn.
pub open spec fn spec_unmanage_window(
    t: Seq<ContainerView>,
    info: Seq<WindowInfo>,
    w: usize,
    focus_target: Option<usize>,
) -> (Seq<ContainerView>, Result<Option<usize>, WmError>) {
    let anc = ancestors_upto(t, w, 3);
    match detach_error(t, w) {
        Some(e) => (t, Err(WmError::Tree(e))),
        None => {
            let r = spec_flatten_ancestors(spec_detach(t, w), anc);
            match r.1 {
                Err(e) => (r.0, Err(WmError::Tree(e))),
                Ok(()) => {
                    let t3 = match focus_target {
                        Some(f) => spec_set_focused_descendant(r.0, f, None, r.0.len() as nat),
                        None => r.0,
                    };
                    if info[w as int].state == WindowState::Tiling {
                        match first_attached(t3, anc) {
                            None => (t3, Err(WmError::NoAncestorToRedraw)),
                            Some(a) => (t3, Ok(Some(a))),
                        }
                    } else {
                        (t3, Ok(None))
                    }
                },
            }
        },
    }
}


proof fn lemma_flatten_keeps_detached(t: Seq<ContainerView>, s: usize, c: usize)
    requires
        c < t.len(),
        t[c as int].parent is None,
    ensures
        spec_try_flatten(t, s).0.len() == t.len(),
        spec_try_flatten(t, s).0[c as int].parent is None,
{
    if t[s as int].parent is Some && t[s as int].parent != Some(s) {
        assert(spec_flatten(t, s)[c as int].parent is None);
    }
}

proof fn lemma_redundant_child_keeps_detached(t: Seq<ContainerView>, p: usize, s: usize, c: usize)
    requires
        c < t.len(),
        t[c as int].parent is None,
    ensures
        spec_flatten_redundant_child(t, p, s).0.len() == t.len(),
        spec_flatten_redundant_child(t, p, s).0[c as int].parent is None,
{
    if t[s as int].children.len() == 1 {
        lemma_flatten_keeps_detached(t, t[s as int].children[0], c);
        let t1 = spec_try_flatten(t, t[s as int].children[0]).0;
        lemma_flatten_keeps_detached(t1, s, c);
    }
    lemma_flatten_keeps_detached(t, s, c);
}

proof fn lemma_redundant_children_keep_detached(t: Seq<ContainerView>, p: usize, ss: Seq<usize>, c: usize)
    requires
        c < t.len(),
        t[c as int].parent is None,
    ensures
        spec_flatten_redundant_children(t, p, ss).0.len() == t.len(),
        spec_flatten_redundant_children(t, p, ss).0[c as int].parent is None,
    decreases ss.len(),
{
    if ss.len() > 0 {
        lemma_redundant_children_keep_detached(t, p, ss.drop_last(), c);
        let prev = spec_flatten_redundant_children(t, p, ss.drop_last());
        lemma_redundant_child_keeps_detached(prev.0, p, ss.last(), c);
    }
}

/// Flattening the split children of a container leaves a container with
/// no parent without one.
proof fn lemma_flatten_children_keeps_detached(t: Seq<ContainerView>, p: usize, c: usize)
    requires
        c < t.len(),
        p < t.len(),
        t[c as int].parent is None,
    ensures
        spec_flatten_child_split_containers(t, p).0.len() == t.len(),
        spec_flatten_child_split_containers(t, p).0[c as int].parent is None,
{
    let tc = crate::tree::tiling_children(t, p);
    if tc.len() == 1 {
        lemma_flatten_keeps_detached(t, tc[0], c);
    } else {
        lemma_redundant_children_keep_detached(t, p, tc.filter(crate::layout::split_pred(t)), c);
    }
}

proof fn lemma_focus_keeps_parents(t: Seq<ContainerView>, f: usize, end: Option<usize>, fuel: nat, c: usize)
    requires
        c < t.len(),
        f < t.len(),
        forall|i: int| 0 <= i < t.len() ==> ((#[trigger] t[i]).parent matches Some(q) ==> q < t.len()),
    ensures
        spec_set_focused_descendant(t, f, end, fuel).len() == t.len(),
        spec_set_focused_descendant(t, f, end, fuel)[c as int].parent == t[c as int].parent,
    decreases fuel,
{
    if fuel > 0 {
        match t[f as int].parent {
            None => {},
            Some(p) => {
                if end != Some(f) {
                    let t1 = t.update(p as int, ContainerView { focus: crate::tree::spec_shift_to_index(t[p as int].focus, 0, f), ..t[p as int] });
                    assert forall|i: int| 0 <= i < t1.len() implies ((#[trigger] t1[i]).parent matches Some(q) ==> q < t1.len()) by {
                        assert(t1[i].parent == t[i].parent);
                    }
                    lemma_focus_keeps_parents(t1, p, end, (fuel - 1) as nat, c);
                }
            },
        }
    }
}

/// See [`spec_unmanage_window`].
pub fn unmanage_window(
    tree: &mut ContainerTree,
    info: &Vec<WindowInfo>,
    w: usize,
    focus_target: Option<usize>,
) -> (res: Result<Option<usize>, WmError>)
    requires
        tree_wf(old(tree)@),
        w < old(tree)@.len(),
        info@.len() == old(tree)@.len(),
        focus_target matches Some(f) ==> f < old(tree)@.len(),
    ensures
        tree_wf(final(tree)@),
        final(tree)@.len() == old(tree)@.len(),
        (final(tree)@, res) == spec_unmanage_window(old(tree)@, info@, w, focus_target),
        res is Ok ==> final(tree)@[w as int].parent is None,
{
    let ghost t = tree@;
    let anc = collect_ancestors(tree, w, 3);
    match detach_container(tree, w) {
        Ok(()) => {},
        Err(e) => { return Err(WmError::Tree(e)); },
    }
    let ghost t1 = tree@;
    proof {
        let p0 = t[w as int].parent->0;
        assert(links_ok(t, w as int));
        assert(links_ok(t, p0 as int));
        if crate::tree::detach_flattens_parent(t, w) {
            let tf = spec_flatten(t, p0);
            assert(tf.len() == t.len());
            assert(tf[w as int].parent == t[p0 as int].parent);
        }
        assert(tree@[w as int].parent is None);
    }
    let mut k = anc.len();
    proof {
        assert(anc@.take(k as int) =~= anc@);
    }
    while k > 0
        invariant
            t == old(tree)@,
            t1 == spec_detach(t, w),
            detach_error(t, w) is None,
            anc@ == ancestors_upto(t, w, 3),
            tree_wf(tree@),
            tree@.len() == t.len(),
            k <= anc@.len(),
            forall|q: int| 0 <= q < anc@.len() ==> (#[trigger] anc@[q]) < t.len(),
            spec_flatten_ancestors(t1, anc@) == spec_flatten_ancestors(tree@, anc@.take(k as int)),
            tree@[w as int].parent is None,
            w < t.len(),
        decreases k,
    {
        proof {
            assert(anc@.take(k as int).last() == anc@[k - 1]);
            assert(anc@.take(k as int).drop_last() =~= anc@.take(k - 1));
        }
        let ghost cur = tree@;
        proof {
            lemma_flatten_children_keeps_detached(cur, anc@[k - 1], w);
        }
        match flatten_child_split_containers(tree, anc[k - 1]) {
            Ok(()) => {},
            Err(e) => {
                proof {
                    assert(spec_flatten_ancestors(cur, anc@.take(k as int)) == (tree@, Err::<(), TreeError>(e)));
                }
                return Err(WmError::Tree(e));
            },
        }
        k = k - 1;
    }
    proof {
        assert(anc@.take(0) =~= Seq::<usize>::empty());
    }
    match focus_target {
        Some(f) => {
            proof {
                assert forall|i: int| 0 <= i < tree@.len() implies ((#[trigger] tree@[i]).parent matches Some(q) ==> q < tree@.len()) by {
                    assert(links_ok(tree@, i));
                }
                lemma_focus_keeps_parents(tree@, f, None, tree@.len() as nat, w);
            }
            set_focused_descendant(tree, f, None);
        },
        None => {},
    }
    if info[w].state != WindowState::Tiling {
        return Ok(None);
    }
    let ghost t3 = tree@;
    let mut i: usize = 0;
    proof {
        assert(anc@.skip(0) =~= anc@);
        assert(spec_unmanage_window(t, info@, w, focus_target) == (match first_attached(t3, anc@) {
            None => (t3, Err::<Option<usize>, WmError>(WmError::NoAncestorToRedraw)),
            Some(a) => (t3, Ok::<Option<usize>, WmError>(Some(a))),
        }));
    }
    while i < anc.len()
        invariant
            t == old(tree)@,
            tree@ == t3,
            w < t3.len(),
            t3[w as int].parent is None,
            spec_unmanage_window(t, info@, w, focus_target) == (match first_attached(t3, anc@) {
                None => (t3, Err::<Option<usize>, WmError>(WmError::NoAncestorToRedraw)),
                Some(a) => (t3, Ok::<Option<usize>, WmError>(Some(a))),
            }),
            tree_wf(tree@),
            tree@.len() == t.len(),
            i <= anc@.len(),
            forall|q: int| 0 <= q < anc@.len() ==> (#[trigger] anc@[q]) < t.len(),
            first_attached(tree@, anc@) == first_attached(tree@, anc@.skip(i as int)),
        decreases anc.len() - i,
    {
        proof {
            assert(anc@.skip(i as int).drop_first() =~= anc@.skip(i as int + 1));
            assert(anc@.skip(i as int)[0] == anc@[i as int]);
        }
        if !tree.is_detached(anc[i]) {
            return Ok(Some(anc[i]));
        }
        i = i + 1;
    }
    proof {
        assert(anc@.skip(anc@.len() as int) =~= Seq::<usize>::empty());
    }
    Err(WmError::NoAncestorToRedraw)
}

} // verus!
