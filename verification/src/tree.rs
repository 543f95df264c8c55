use vstd::prelude::*;
use crate::common::{ContainerKind, TilingDirection, TilingLayout};
use crate::seqs::{has_no_duplicates, same_entries, splice, ne_pred, not_in_pred, in_pred, without, without_all, only, contains, position, lemma_filter_contains_iff, lemma_filter_no_dup, lemma_filter_keeps_all, lemma_insert_contains, lemma_insert_no_dup};

verus! {

broadcast use vstd::seq_lib::group_seq_properties;

/// A node of the container tree: the root, a monitor, a workspace, a split
/// container or a window. Children are listed in layout order; the focus
/// order lists the same children, most recently focused first.
pub struct Container {
    pub kind: ContainerKind,
    pub parent: Option<usize>,
    pub children: Vec<usize>,
    pub focus_order: Vec<usize>,
    pub tiling_direction: TilingDirection,
    pub tiling_layout: TilingLayout,
}

/// The mathematical value of a [`Container`].
#[verifier::ext_equal]
pub struct ContainerView {
    pub kind: ContainerKind,
    pub parent: Option<usize>,
    pub children: Seq<usize>,
    pub focus: Seq<usize>,
    pub direction: TilingDirection,
    pub layout: TilingLayout,
}

impl View for Container {
    type V = ContainerView;

    open spec fn view(&self) -> ContainerView {
        ContainerView {
            kind: self.kind,
            parent: self.parent,
            children: self.children@,
            focus: self.focus_order@,
            direction: self.tiling_direction,
            layout: self.tiling_layout,
        }
    }
}

/// The whole container tree, held as an arena: a container's id is its
/// position in the arena, and detached containers stay in the arena.
pub struct ContainerTree {
    nodes: Vec<Container>,
}

impl View for ContainerTree {
    type V = Seq<ContainerView>;

    closed spec fn view(&self) -> Seq<ContainerView> {
        Seq::new(self.nodes@.len(), |i: int| self.nodes@[i]@)
    }
}

// ---------------------------------------------------------------------
// The model: well-formedness and the effect of each tree operation.
// ---------------------------------------------------------------------

/// Node `i` and its parent agree, and each child of `i` names `i` as parent.
pub open spec fn links_ok(t: Seq<ContainerView>, i: int) -> bool {
    &&& (t[i].parent matches Some(p) ==> p < t.len() && t[p as int].children.contains(i as usize))
    &&& forall|k: int|
        #![trigger t[i].children[k]]
        0 <= k < t[i].children.len() ==> t[i].children[k] < t.len() && t[t[i].children[k] as int].parent
            == Some(i as usize)
    &&& t[i].children.no_duplicates()
}

/// The focus order of node `i` lists exactly its children, each once.
pub open spec fn focus_ok(t: Seq<ContainerView>, i: int) -> bool {
    &&& t[i].focus.no_duplicates()
    &&& forall|x: usize| t[i].focus.contains(x) <==> t[i].children.contains(x)
}

/// Parent and child links agree everywhere.
pub open spec fn structure_wf(t: Seq<ContainerView>) -> bool {
    &&& t.len() <= usize::MAX
    &&& forall|i: int| 0 <= i < t.len() ==> #[trigger] links_ok(t, i)
}

/// The invariant that every tree operation keeps.
pub open spec fn tree_wf(t: Seq<ContainerView>) -> bool {
    &&& structure_wf(t)
    &&& forall|i: int| 0 <= i < t.len() ==> #[trigger] focus_ok(t, i)
}

pub open spec fn is_detached(t: Seq<ContainerView>, c: usize) -> bool {
    t[c as int].parent is None
}

/// Position of `c` among its parent's children.
pub open spec fn child_index(t: Seq<ContainerView>, c: usize) -> int {
    t[t[c as int].parent->0 as int].children.index_of(c)
}

/// Position of `c` in its parent's focus order.
pub open spec fn focus_index(t: Seq<ContainerView>, c: usize) -> int {
    t[t[c as int].parent->0 as int].focus.index_of(c)
}

/// `min(idx, len)`: where an insertion at `idx` lands.
pub open spec fn clamp_index(idx: Option<usize>, len: nat) -> int {
    match idx {
        Some(i) => if i <= len { i as int } else { len as int },
        None => len as int,
    }
}

/// Attaching detached `c` under `p` at `idx` (the end when `None`); `c`
/// goes to the back of the focus order.
pub open spec fn spec_attach(t: Seq<ContainerView>, c: usize, p: usize, idx: Option<usize>) -> Seq<
    ContainerView,
> {
    let pv = t[p as int];
    let at = clamp_index(idx, pv.children.len());
    let t1 = t.update(
        p as int,
        ContainerView { children: pv.children.insert(at, c), focus: pv.focus.push(c), ..pv },
    );
    t1.update(c as int, ContainerView { parent: Some(p), ..t1[c as int] })
}

/// Removing `c` from its parent's children and focus order.
pub open spec fn spec_unlink(t: Seq<ContainerView>, c: usize) -> Seq<ContainerView> {
    let p = t[c as int].parent->0;
    let pv = t[p as int];
    let t1 = t.update(
        p as int,
        ContainerView {
            children: pv.children.filter(ne_pred(c)),
            focus: pv.focus.filter(ne_pred(c)),
            ..pv
        },
    );
    t1.update(c as int, ContainerView { parent: None, ..t1[c as int] })
}


/// Errors that a tree operation reports instead of changing the tree.
#[derive(Clone, Copy, Debug, PartialEq, Eq, Structural)]
pub enum TreeError {
    /// The container to insert already has a parent.
    AlreadyAttached,
    /// The container has no parent.
    NoParent,
    /// The parent has no child at the requested index.
    NoContainerAtIndex,
    /// No target children were given.
    NoTargets,
    /// The container is listed as its own parent.
    OwnParent,
}

pub proof fn lemma_detached_not_child(t: Seq<ContainerView>, c: usize, q: int)
    requires
        tree_wf(t),
        c < t.len(),
        is_detached(t, c),
        0 <= q < t.len(),
    ensures
        !t[q].children.contains(c),
        !t[q].focus.contains(c),
{
    assert(links_ok(t, q));
    assert(focus_ok(t, q));
    if t[q].children.contains(c) {
        let k = choose|k: int| 0 <= k < t[q].children.len() && t[q].children[k] == c;
        assert(t[q].children[k] == c);
    }
}

pub proof fn lemma_attach_wf(t: Seq<ContainerView>, c: usize, p: usize, idx: Option<usize>)
    requires
        tree_wf(t),
        c < t.len(),
        p < t.len(),
        is_detached(t, c),
    ensures
        tree_wf(spec_attach(t, c, p, idx)),
        spec_attach(t, c, p, idx).len() == t.len(),
{
    let r = spec_attach(t, c, p, idx);
    let pv = t[p as int];
    let at = clamp_index(idx, pv.children.len());
    lemma_detached_not_child(t, c, p as int);
    assert(links_ok(t, p as int));
    assert forall|y: usize| #![auto] r[p as int].children.contains(y) <==> (y == c || pv.children.contains(y)) by {
        lemma_insert_contains(pv.children, at, c, y);
    }
    lemma_insert_no_dup(pv.children, at, c);
    pv.children.insert_ensures(at, c);
    assert forall|i: int| 0 <= i < r.len() implies #[trigger] links_ok(r, i) by {
        assert(links_ok(t, i));
        if let Some(q) = r[i].parent {
            if i != c {
                assert(t[i].parent == Some(q));
                assert(t[q as int].children.contains(i as usize));
            }
        }
        assert forall|k: int| #![trigger r[i].children[k]] 0 <= k < r[i].children.len() implies
            r[i].children[k] < r.len() && r[r[i].children[k] as int].parent == Some(i as usize) by {
            let x = r[i].children[k];
            if i == p {
                if k < at {
                    assert(x == pv.children[k]);
                } else if k > at {
                    assert(x == pv.children[k - 1]);
                }
                if x != c {
                    assert(pv.children.contains(x));
                    let j = choose|j: int| 0 <= j < pv.children.len() && pv.children[j] == x;
                    assert(t[p as int].children[j] == x);
                }
            } else {
                assert(r[i].children == t[i].children);
                assert(t[i].children[k] == x);
                lemma_detached_not_child(t, c, i);
                assert(x != c);
            }
        }
    }
    assert forall|i: int| 0 <= i < r.len() implies #[trigger] focus_ok(r, i) by {
        assert(focus_ok(t, i));
        if i == p {
            assert(!pv.focus.contains(c));
            assert forall|a: int, b: int| 0 <= a < r[i].focus.len() && 0 <= b < r[i].focus.len() && a != b
                implies r[i].focus[a] != r[i].focus[b] by {
                if a < pv.focus.len() && b < pv.focus.len() {
                    assert(pv.focus[a] != pv.focus[b]);
                } else if a < pv.focus.len() {
                    assert(pv.focus.contains(pv.focus[a]));
                } else if b < pv.focus.len() {
                    assert(pv.focus.contains(pv.focus[b]));
                }
            }
        }
    }
}


pub proof fn lemma_unlink_wf(t: Seq<ContainerView>, c: usize)
    requires
        tree_wf(t),
        c < t.len(),
        !is_detached(t, c),
    ensures
        tree_wf(spec_unlink(t, c)),
        spec_unlink(t, c).len() == t.len(),
{
    let r = spec_unlink(t, c);
    let p = t[c as int].parent->0;
    let pv = t[p as int];
    assert(links_ok(t, c as int));
    assert(links_ok(t, p as int));
    assert(focus_ok(t, p as int));
    lemma_filter_no_dup(pv.children, ne_pred(c));
    lemma_filter_no_dup(pv.focus, ne_pred(c));
    assert forall|y: usize| #![auto] r[p as int].children.contains(y) <==> (y != c && pv.children.contains(y)) by {
        lemma_filter_contains_iff(pv.children, ne_pred(c), y);
    }
    assert forall|y: usize| #![auto] r[p as int].focus.contains(y) <==> (y != c && pv.focus.contains(y)) by {
        lemma_filter_contains_iff(pv.focus, ne_pred(c), y);
    }
    assert forall|i: int| 0 <= i < r.len() implies #[trigger] links_ok(r, i) by {
        assert(links_ok(t, i));
        if let Some(q) = r[i].parent {
            assert(i != c);
            assert(t[i].parent == Some(q));
            assert(t[q as int].children.contains(i as usize));
            if q == p {
                assert(r[p as int].children.contains(i as usize));
            }
        }
        assert forall|k: int| #![trigger r[i].children[k]] 0 <= k < r[i].children.len() implies
            r[i].children[k] < r.len() && r[r[i].children[k] as int].parent == Some(i as usize) by {
            let x = r[i].children[k];
            if i == p {
                assert(r[i].children.contains(x));
                assert(pv.children.contains(x));
                let j = choose|j: int| 0 <= j < pv.children.len() && pv.children[j] == x;
                assert(t[p as int].children[j] == x);
            } else {
                assert(t[i].children[k] == x);
                if x == c {
                    assert(t[c as int].parent == Some(i as usize));
                }
            }
        }
    }
    assert forall|i: int| 0 <= i < r.len() implies #[trigger] focus_ok(r, i) by {
        assert(focus_ok(t, i));
        if i == p {
            assert forall|x: usize| r[i].focus.contains(x) <==> r[i].children.contains(x) by {
                assert(r[p as int].focus.contains(x) <==> (x != c && pv.focus.contains(x)));
                assert(r[p as int].children.contains(x) <==> (x != c && pv.children.contains(x)));
            }
        }
    }
}


/// Dissolving split container `s` into its parent `p`: the children of `s`
/// take the place of `s` in `p`'s children, its focus order takes the place
/// of `s` in `p`'s focus order, split children of `s` get the inverse of
/// `s`'s direction, and `s` is left detached and empty.
pub open spec fn spec_flatten(t: Seq<ContainerView>, s: usize) -> Seq<ContainerView> {
    let p = t[s as int].parent->0;
    let pv = t[p as int];
    let sv = t[s as int];
    let idx = pv.children.index_of(s);
    let fidx = pv.focus.index_of(s);
    Seq::new(
        t.len(),
        |i: int|
            {
                let n = t[i];
                let moved = n.parent == Some(s);
                ContainerView {
                    kind: n.kind,
                    parent: if i == s {
                        None
                    } else if moved {
                        Some(p)
                    } else {
                        n.parent
                    },
                    children: if i == p {
                        pv.children.take(idx) + sv.children + pv.children.skip(idx + 1)
                    } else if i == s {
                        Seq::empty()
                    } else {
                        n.children
                    },
                    focus: if i == p {
                        pv.focus.take(fidx) + sv.focus + pv.focus.skip(fidx + 1)
                    } else if i == s {
                        Seq::empty()
                    } else {
                        n.focus
                    },
                    direction: if moved && n.kind == ContainerKind::Split {
                        sv.direction.spec_inverse()
                    } else {
                        n.direction
                    },
                    layout: n.layout,
                }
            },
    )
}

pub proof fn lemma_index_of_unique(v: Seq<usize>, k: int)
    requires
        v.no_duplicates(),
        0 <= k < v.len(),
    ensures
        v.index_of(v[k]) == k,
{
    let j = v.index_of(v[k]);
    assert(v.contains(v[k]));
}

pub proof fn lemma_splice_contains(v: Seq<usize>, idx: int, m: Seq<usize>, y: usize)
    requires
        0 <= idx < v.len(),
    ensures
        (v.take(idx) + m + v.skip(idx + 1)).contains(y) <==> (m.contains(y) || (v.contains(y) && exists|j: int| 0 <= j < v.len() && j != idx && v[j] == y)),
{
    let r = v.take(idx) + m + v.skip(idx + 1);
    if r.contains(y) {
        let k = choose|k: int| 0 <= k < r.len() && r[k] == y;
        if k < idx {
            assert(v[k] == y);
        } else if k < idx + m.len() {
            assert(m[k - idx] == y);
        } else {
            assert(v[k - m.len() + 1] == y);
        }
    }
    if m.contains(y) {
        let k = choose|k: int| 0 <= k < m.len() && m[k] == y;
        assert(r[idx + k] == y);
    }
    if exists|j: int| 0 <= j < v.len() && j != idx && v[j] == y {
        let j = choose|j: int| 0 <= j < v.len() && j != idx && v[j] == y;
        if j < idx {
            assert(r[j] == y);
        } else {
            assert(r[j + m.len() - 1] == y);
        }
    }
}

pub proof fn lemma_splice_no_dup(v: Seq<usize>, idx: int, m: Seq<usize>)
    requires
        0 <= idx < v.len(),
        v.no_duplicates(),
        m.no_duplicates(),
        forall|y: usize| m.contains(y) ==> !v.contains(y),
    ensures
        (v.take(idx) + m + v.skip(idx + 1)).no_duplicates(),
{
    let r = v.take(idx) + m + v.skip(idx + 1);
    assert forall|a: int, b: int| 0 <= a < r.len() && 0 <= b < r.len() && a != b implies r[a] != r[b] by {
        let ma = idx <= a < idx + m.len();
        let mb = idx <= b < idx + m.len();
        let va = if a < idx { a } else { a - m.len() + 1 };
        let vb = if b < idx { b } else { b - m.len() + 1 };
        if ma && mb {
            assert(m[a - idx] != m[b - idx]);
        } else if ma {
            assert(r[a] == m[a - idx]);
            assert(m.contains(m[a - idx]));
            assert(r[b] == v[vb]);
        } else if mb {
            assert(r[b] == m[b - idx]);
            assert(m.contains(m[b - idx]));
            assert(r[a] == v[va]);
        } else {
            assert(r[a] == v[va]);
            assert(r[b] == v[vb]);
        }
    }
}

pub proof fn lemma_flatten_wf(t: Seq<ContainerView>, s: usize)
    requires
        tree_wf(t),
        s < t.len(),
        t[s as int].parent matches Some(p) && p != s,
    ensures
        tree_wf(spec_flatten(t, s)),
        spec_flatten(t, s).len() == t.len(),
{
    let r = spec_flatten(t, s);
    let p = t[s as int].parent->0;
    let pv = t[p as int];
    let sv = t[s as int];
    let idx = pv.children.index_of(s);
    let fidx = pv.focus.index_of(s);
    assert(links_ok(t, s as int));
    assert(links_ok(t, p as int));
    assert(focus_ok(t, p as int));
    assert(focus_ok(t, s as int));
    assert(pv.children.contains(s));
    assert(pv.focus.contains(s));
    assert(0 <= idx < pv.children.len() && pv.children[idx] == s);
    assert(0 <= fidx < pv.focus.len() && pv.focus[fidx] == s);
    // children of s and children of p are disjoint
    assert forall|y: usize| sv.children.contains(y) implies !pv.children.contains(y) by {
        let k = choose|k: int| 0 <= k < sv.children.len() && sv.children[k] == y;
        assert(sv.children[k] == y);
        if pv.children.contains(y) {
            let j = choose|j: int| 0 <= j < pv.children.len() && pv.children[j] == y;
            assert(pv.children[j] == y);
        }
    }
    assert forall|y: usize| sv.focus.contains(y) implies !pv.focus.contains(y) by {
        assert(sv.children.contains(y));
        assert(!pv.children.contains(y));
    }
    lemma_splice_no_dup(pv.children, idx, sv.children);
    lemma_splice_no_dup(pv.focus, fidx, sv.focus);
    // membership in p's new child list
    assert forall|y: usize| #![auto] r[p as int].children.contains(y) <==> (sv.children.contains(y) || (pv.children.contains(y) && y != s)) by {
        lemma_splice_contains(pv.children, idx, sv.children, y);
        if pv.children.contains(y) && y != s {
            let j = choose|j: int| 0 <= j < pv.children.len() && pv.children[j] == y;
            assert(j != idx);
        }
        if exists|j: int| 0 <= j < pv.children.len() && j != idx && pv.children[j] == y {
            let j = choose|j: int| 0 <= j < pv.children.len() && j != idx && pv.children[j] == y;
            assert(pv.children[j] != pv.children[idx]);
        }
    }
    assert forall|y: usize| #![auto] r[p as int].focus.contains(y) <==> (sv.focus.contains(y) || (pv.focus.contains(y) && y != s)) by {
        lemma_splice_contains(pv.focus, fidx, sv.focus, y);
        if pv.focus.contains(y) && y != s {
            let j = choose|j: int| 0 <= j < pv.focus.len() && pv.focus[j] == y;
            assert(j != fidx);
        }
        if exists|j: int| 0 <= j < pv.focus.len() && j != fidx && pv.focus[j] == y {
            let j = choose|j: int| 0 <= j < pv.focus.len() && j != fidx && pv.focus[j] == y;
            assert(pv.focus[j] != pv.focus[fidx]);
        }
    }
    assert forall|i: int| 0 <= i < r.len() implies #[trigger] links_ok(r, i) by {
        assert(links_ok(t, i));
        if let Some(q) = r[i].parent {
            if t[i].parent == Some(s) {
                assert(q == p);
                assert(sv.children.contains(i as usize));
            } else {
                assert(t[i].parent == Some(q));
                assert(t[q as int].children.contains(i as usize));
                if q == p {
                    assert(i != s);
                } else if q == s {
                    assert(false);
                }
            }
        }
        assert forall|k: int| #![trigger r[i].children[k]] 0 <= k < r[i].children.len() implies
            r[i].children[k] < r.len() && r[r[i].children[k] as int].parent == Some(i as usize) by {
            let x = r[i].children[k];
            if i == p {
                assert(r[i].children.contains(x));
                if sv.children.contains(x) {
                    let j = choose|j: int| 0 <= j < sv.children.len() && sv.children[j] == x;
                    assert(t[s as int].children[j] == x);
                } else {
                    let j = choose|j: int| 0 <= j < pv.children.len() && pv.children[j] == x;
                    assert(t[p as int].children[j] == x);
                }
            } else {
                assert(i != s);
                assert(t[i].children[k] == x);
                assert(t[x as int].parent == Some(i as usize));
            }
        }
        if i == p {
            assert(r[i].children.no_duplicates());
        }
    }
    assert forall|i: int| 0 <= i < r.len() implies #[trigger] focus_ok(r, i) by {
        assert(focus_ok(t, i));
        if i == p {
            assert forall|x: usize| r[i].focus.contains(x) <==> r[i].children.contains(x) by {
                assert(sv.focus.contains(x) <==> sv.children.contains(x));
                assert(pv.focus.contains(x) <==> pv.children.contains(x));
            }
        }
    }
}



/// The outcome of `flatten_split_container`: the tree after the call and
/// the error, if any.
pub open spec fn spec_try_flatten(t: Seq<ContainerView>, s: usize) -> (Seq<ContainerView>, Result<(), TreeError>) {
    match t[s as int].parent {
        None => (t, Err(TreeError::NoParent)),
        Some(p) => if p == s { (t, Err(TreeError::OwnParent)) } else { (spec_flatten(t, s), Ok(())) },
    }
}

/// Whether removing `c` first dissolves its parent: the parent is a split
/// container whose only child is `c`.
pub open spec fn detach_flattens_parent(t: Seq<ContainerView>, c: usize) -> bool {
    t[c as int].parent matches Some(p) && t[p as int].kind == ContainerKind::Split && t[p as int].children.len() == 1
}

/// When `detach_container` refuses: `c` has no parent, or the split parent
/// to dissolve has no parent or is its own parent.
pub open spec fn detach_error(t: Seq<ContainerView>, c: usize) -> Option<TreeError> {
    match t[c as int].parent {
        None => Some(TreeError::NoParent),
        Some(p) => if detach_flattens_parent(t, c) {
            match t[p as int].parent {
                None => Some(TreeError::NoParent),
                Some(g) => if g == p { Some(TreeError::OwnParent) } else { None },
            }
        } else {
            None
        },
    }
}

/// Removing `c` from the tree; a split parent that would be left empty is
/// dissolved first.
pub open spec fn spec_detach(t: Seq<ContainerView>, c: usize) -> Seq<ContainerView> {
    if detach_flattens_parent(t, c) {
        spec_unlink(spec_flatten(t, t[c as int].parent->0), c)
    } else {
        spec_unlink(t, c)
    }
}


/// The smallest position in `v` of an element of `xs` (`xs` non-empty).
pub open spec fn min_pos(v: Seq<usize>, xs: Seq<usize>) -> int
    decreases xs.len(),
{
    if xs.len() <= 1 {
        v.index_of(xs[0])
    } else {
        let a = min_pos(v, xs.drop_last());
        let b = v.index_of(xs.last());
        if b < a { b } else { a }
    }
}

/// The preconditions under which `wrap_in_split_container` is meaningful:
/// `s` is a fresh detached split container, and the targets are distinct
/// children of `p`.
pub open spec fn wrap_ready(t: Seq<ContainerView>, s: usize, p: usize, xs: Seq<usize>) -> bool {
    &&& s < t.len()
    &&& p < t.len()
    &&& s != p
    &&& t[s as int].kind == ContainerKind::Split
    &&& t[s as int].parent is None
    &&& t[s as int].children.len() == 0
    &&& t[s as int].focus.len() == 0
    &&& xs.no_duplicates()
    &&& forall|k: int| 0 <= k < xs.len() ==> (#[trigger] xs[k]) < t.len() && t[xs[k] as int].parent == Some(p)
}

/// Putting split container `s` in place of the targets `xs` (children of
/// `p`): `s` takes the earliest position and the earliest focus position of
/// the targets, the targets become the children of `s` in the given order,
/// and `s` keeps their relative focus order.
pub open spec fn spec_wrap(t: Seq<ContainerView>, s: usize, p: usize, xs: Seq<usize>) -> Seq<ContainerView> {
    let pv = t[p as int];
    let si = min_pos(pv.children, xs);
    let sfi = min_pos(pv.focus, xs);
    Seq::new(
        t.len(),
        |i: int|
            if i == p {
                ContainerView {
                    children: pv.children.insert(si, s).filter(not_in_pred(xs)),
                    focus: pv.focus.insert(sfi, s).filter(not_in_pred(xs)),
                    ..pv
                }
            } else if i == s {
                ContainerView { parent: Some(p), children: xs, focus: pv.focus.filter(in_pred(xs)), ..t[i] }
            } else if xs.contains(i as usize) {
                ContainerView { parent: Some(s), ..t[i] }
            } else {
                t[i]
            },
    )
}

pub proof fn lemma_min_pos_bounds(v: Seq<usize>, xs: Seq<usize>)
    requires
        xs.len() > 0,
        forall|k: int| 0 <= k < xs.len() ==> v.contains(#[trigger] xs[k]),
    ensures
        0 <= min_pos(v, xs) < v.len(),
        xs.contains(v[min_pos(v, xs)]),
    decreases xs.len(),
{
    if xs.len() <= 1 {
        assert(v.contains(xs[0]));
    } else {
        let d = xs.drop_last();
        assert forall|k: int| 0 <= k < d.len() implies v.contains(#[trigger] d[k]) by {
            assert(d[k] == xs[k]);
        }
        lemma_min_pos_bounds(v, d);
        assert(v.contains(xs[xs.len() - 1]));
        let a = min_pos(v, d);
        assert(d.contains(v[a]));
        let j = choose|j: int| 0 <= j < d.len() && d[j] == v[a];
        assert(xs[j] == v[a]);
    }
}

pub proof fn lemma_wrap_wf(t: Seq<ContainerView>, s: usize, p: usize, xs: Seq<usize>)
    requires
        tree_wf(t),
        wrap_ready(t, s, p, xs),
        xs.len() > 0,
        !xs.contains(p),
    ensures
        tree_wf(spec_wrap(t, s, p, xs)),
        spec_wrap(t, s, p, xs).len() == t.len(),
{
    let r = spec_wrap(t, s, p, xs);
    let pv = t[p as int];
    let si = min_pos(pv.children, xs);
    let sfi = min_pos(pv.focus, xs);
    assert(links_ok(t, p as int));
    assert(focus_ok(t, p as int));
    assert(links_ok(t, s as int));
    assert forall|k: int| 0 <= k < xs.len() implies pv.children.contains(#[trigger] xs[k]) by {
        assert(links_ok(t, xs[k] as int));
    }
    assert forall|k: int| 0 <= k < xs.len() implies pv.focus.contains(#[trigger] xs[k]) by {
        assert(pv.children.contains(xs[k]));
    }
    lemma_min_pos_bounds(pv.children, xs);
    lemma_min_pos_bounds(pv.focus, xs);
    lemma_detached_not_child(t, s, p as int);
    lemma_insert_no_dup(pv.children, si, s);
    lemma_insert_no_dup(pv.focus, sfi, s);
    lemma_filter_no_dup(pv.children.insert(si, s), not_in_pred(xs));
    lemma_filter_no_dup(pv.focus.insert(sfi, s), not_in_pred(xs));
    lemma_filter_no_dup(pv.focus, in_pred(xs));
    assert(!xs.contains(s)) by {
        if xs.contains(s) {
            let k = choose|k: int| 0 <= k < xs.len() && xs[k] == s;
            assert(t[xs[k] as int].parent == Some(p));
        }
    }
    assert forall|y: usize| #![auto] r[p as int].children.contains(y) <==> (y == s || (pv.children.contains(y) && !xs.contains(y))) by {
        lemma_filter_contains_iff(pv.children.insert(si, s), not_in_pred(xs), y);
        lemma_insert_contains(pv.children, si, s, y);
    }
    assert forall|y: usize| #![auto] r[p as int].focus.contains(y) <==> (y == s || (pv.focus.contains(y) && !xs.contains(y))) by {
        lemma_filter_contains_iff(pv.focus.insert(sfi, s), not_in_pred(xs), y);
        lemma_insert_contains(pv.focus, sfi, s, y);
    }
    assert forall|y: usize| #![auto] r[s as int].focus.contains(y) <==> (pv.focus.contains(y) && xs.contains(y)) by {
        lemma_filter_contains_iff(pv.focus, in_pred(xs), y);
    }
    assert forall|i: int| 0 <= i < r.len() implies #[trigger] links_ok(r, i) by {
        assert(links_ok(t, i));
        if let Some(q) = r[i].parent {
            if i == s {
                assert(q == p);
            } else if xs.contains(i as usize) {
                assert(q == s);
            } else {
                assert(t[i].parent == Some(q));
                assert(t[q as int].children.contains(i as usize));
                if q == p {
                    assert(r[p as int].children.contains(i as usize));
                } else if q == s {
                    assert(false);
                }
            }
        }
        assert forall|k: int| #![trigger r[i].children[k]] 0 <= k < r[i].children.len() implies
            r[i].children[k] < r.len() && r[r[i].children[k] as int].parent == Some(i as usize) by {
            let x = r[i].children[k];
            if i == p {
                assert(r[i].children.contains(x));
                if x != s {
                    let j = choose|j: int| 0 <= j < pv.children.len() && pv.children[j] == x;
                    assert(t[p as int].children[j] == x);
                }
            } else if i == s {
                assert(xs[k] == x);
                assert(xs.contains(x));
            } else {
                assert(t[i].children[k] == x);
                if xs.contains(x) {
                    let j = choose|j: int| 0 <= j < xs.len() && xs[j] == x;
                    assert(t[xs[j] as int].parent == Some(p));
                }
                assert(x != s);
            }
        }
    }
    assert forall|i: int| 0 <= i < r.len() implies #[trigger] focus_ok(r, i) by {
        assert(focus_ok(t, i));
        if i == p {
            assert forall|x: usize| r[i].focus.contains(x) <==> r[i].children.contains(x) by {
                assert(pv.focus.contains(x) <==> pv.children.contains(x));
            }
        }
        if i == s {
            assert forall|x: usize| r[i].focus.contains(x) <==> r[i].children.contains(x) by {
                assert(pv.focus.contains(x) <==> pv.children.contains(x));
                if xs.contains(x) {
                    let j = choose|j: int| 0 <= j < xs.len() && xs[j] == x;
                    assert(pv.children.contains(xs[j]));
                }
            }
        }
    }
}


/// The smallest position in `v` of an element of `xs` (see [`min_pos`]).
fn min_position(v: &Vec<usize>, xs: &Vec<usize>) -> (res: usize)
    requires
        xs.len() > 0,
        v@.no_duplicates(),
        forall|k: int| 0 <= k < xs.len() ==> v@.contains(#[trigger] xs@[k]),
    ensures
        res == min_pos(v@, xs@),
        res < v.len(),
{
    let first = position(v, xs[0]).unwrap();
    proof {
        lemma_index_of_unique(v@, first as int);
        assert(xs@.take(1).len() == 1);
        assert(xs@.take(1)[0] == xs@[0]);
    }
    let mut res = first;
    let mut i: usize = 1;
    while i < xs.len()
        invariant
            1 <= i <= xs.len(),
            v@.no_duplicates(),
            forall|k: int| 0 <= k < xs.len() ==> v@.contains(#[trigger] xs@[k]),
            res == min_pos(v@, xs@.take(i as int)),
            res < v.len(),
        decreases xs.len() - i,
    {
        assert(v@.contains(xs@[i as int]));
        let k = position(v, xs[i]).unwrap();
        proof {
            lemma_index_of_unique(v@, k as int);
            assert(xs@.take(i as int + 1).drop_last() =~= xs@.take(i as int));
            assert(xs@.take(i as int + 1).last() == xs@[i as int]);
        }
        if k < res {
            res = k;
        }
        i = i + 1;
    }
    proof {
        assert(xs@.take(xs.len() as int) =~= xs@);
    }
    res
}


/// Moving `x` to position `target` (clamped) of `v`; unchanged when `x`
/// does not occur in `v`.
pub open spec fn spec_shift_to_index(v: Seq<usize>, target: int, x: usize) -> Seq<usize> {
    if v.contains(x) {
        let w = v.remove(v.index_of(x));
        w.insert(if target <= w.len() { target } else { w.len() as int }, x)
    } else {
        v
    }
}

pub proof fn lemma_shift_contains(v: Seq<usize>, target: int, x: usize, y: usize)
    requires
        v.no_duplicates(),
        0 <= target,
    ensures
        spec_shift_to_index(v, target, x).contains(y) <==> v.contains(y),
        spec_shift_to_index(v, target, x).no_duplicates(),
{
    if v.contains(x) {
        let k = v.index_of(x);
        let w = v.remove(k);
        let at = if target <= w.len() { target } else { w.len() as int };
        v.remove_ensures(k);
        assert(w.contains(y) <==> (v.contains(y) && y != x)) by {
            if w.contains(y) {
                let j = choose|j: int| 0 <= j < w.len() && w[j] == y;
                if j < k {
                    assert(v[j] == y);
                } else {
                    assert(v[j + 1] == y);
                    assert(v[j + 1] != v[k]);
                }
            }
            if v.contains(y) && y != x {
                let j = choose|j: int| 0 <= j < v.len() && v[j] == y;
                if j < k {
                    assert(w[j] == y);
                } else {
                    assert(j != k);
                    assert(w[j - 1] == y);
                }
            }
        }
        assert(w.no_duplicates()) by {
            assert forall|a: int, b: int| 0 <= a < w.len() && 0 <= b < w.len() && a != b implies w[a] != w[b] by {
                let va = if a < k { a } else { a + 1 };
                let vb = if b < k { b } else { b + 1 };
                assert(w[a] == v[va]);
                assert(w[b] == v[vb]);
            }
        }
        lemma_insert_contains(w, at, x, y);
        lemma_insert_no_dup(w, at, x);
    }
}

/// The error `replace_container` reports, if any.
pub open spec fn replace_error(t: Seq<ContainerView>, r: usize, p: usize, idx: usize) -> Option<TreeError> {
    if !is_detached(t, r) {
        Some(TreeError::AlreadyAttached)
    } else if idx >= t[p as int].children.len() {
        Some(TreeError::NoContainerAtIndex)
    } else {
        detach_error(t, t[p as int].children[idx as int])
    }
}

/// Replacing the child of `p` at `idx` by detached `r`: the old child is
/// detached, `r` is attached at `idx`, and `r` takes the old child's place
/// in `p`'s focus order.
pub open spec fn spec_replace(t: Seq<ContainerView>, r: usize, p: usize, idx: usize) -> Seq<ContainerView> {
    let old_child = t[p as int].children[idx as int];
    let fi = t[p as int].focus.index_of(old_child);
    let t2 = spec_attach(spec_detach(t, old_child), r, p, Some(idx));
    t2.update(p as int, ContainerView { focus: spec_shift_to_index(t2[p as int].focus, fi, r), ..t2[p as int] })
}

/// Exchanging `a` and `b` between their (distinct) parents, each taking the
/// other's position; focus orders are left as they are.
pub open spec fn spec_swap(t: Seq<ContainerView>, a: usize, b: usize) -> Seq<ContainerView> {
    let pa = t[a as int].parent->0;
    let pb = t[b as int].parent->0;
    let ia = t[pa as int].children.index_of(a);
    let ib = t[pb as int].children.index_of(b);
    let t1 = t.update(pa as int, ContainerView { children: t[pa as int].children.update(ia, b), ..t[pa as int] });
    let t2 = t1.update(pb as int, ContainerView { children: t1[pb as int].children.update(ib, a), ..t1[pb as int] });
    let t3 = t2.update(a as int, ContainerView { parent: Some(pb), ..t2[a as int] });
    t3.update(b as int, ContainerView { parent: Some(pa), ..t3[b as int] })
}

/// Moving `c` to position `idx` of `target`: within the same parent it is
/// shifted there, otherwise it is detached and attached there.
pub open spec fn spec_move(t: Seq<ContainerView>, c: usize, target: usize, idx: usize) -> Seq<ContainerView> {
    if t[c as int].parent == Some(target) {
        t.update(target as int, ContainerView { children: spec_shift_to_index(t[target as int].children, idx as int, c), ..t[target as int] })
    } else {
        spec_attach(spec_detach(t, c), c, target, Some(idx))
    }
}

/// What `move_container_within_tree` does: the move, or the error of the
/// detach it needs, with the tree unchanged.
pub open spec fn spec_try_move(t: Seq<ContainerView>, c: usize, target: usize, idx: usize) -> (Seq<ContainerView>, Result<(), TreeError>) {
    if t[c as int].parent != Some(target) && detach_error(t, c) is Some {
        (t, Err(detach_error(t, c)->0))
    } else {
        (spec_move(t, c, target, idx), Ok(()))
    }
}

/// What `wrap_in_split_container` does: the wrap, or its error with the
/// tree unchanged.
pub open spec fn spec_try_wrap(t: Seq<ContainerView>, s: usize, p: usize, xs: Seq<usize>) -> (Seq<ContainerView>, Result<(), TreeError>) {
    if xs.len() == 0 {
        (t, Err(TreeError::NoTargets))
    } else if xs.contains(p) {
        (t, Err(TreeError::OwnParent))
    } else {
        (spec_wrap(t, s, p, xs), Ok(()))
    }
}

/// A class of containers to look for among a container and its ancestors.
#[derive(Clone, Copy, Debug, PartialEq, Eq, Structural)]
pub enum KindClass {
    Workspace,
    Monitor,
    DirectionContainer,
}

pub open spec fn in_class(k: ContainerKind, class: KindClass) -> bool {
    match class {
        KindClass::Workspace => k == ContainerKind::Workspace,
        KindClass::Monitor => k == ContainerKind::Monitor,
        KindClass::DirectionContainer => k.is_direction_container(),
    }
}

/// The first of `c`, its parent, its grandparent, ... (at most `fuel` steps
/// up) that belongs to `class`.
pub open spec fn nearest_in_class(t: Seq<ContainerView>, c: usize, class: KindClass, fuel: nat) -> Option<usize>
    decreases fuel,
{
    if in_class(t[c as int].kind, class) {
        Some(c)
    } else if fuel == 0 {
        None
    } else {
        match t[c as int].parent {
            None => None,
            Some(q) => nearest_in_class(t, q, class, (fuel - 1) as nat),
        }
    }
}

/// The workspace that holds `c` (or `c` itself when it is one).
pub open spec fn workspace_of(t: Seq<ContainerView>, c: usize) -> Option<usize> {
    nearest_in_class(t, c, KindClass::Workspace, t.len())
}

/// The monitor that holds `c` (or `c` itself when it is one).
pub open spec fn monitor_of(t: Seq<ContainerView>, c: usize) -> Option<usize> {
    nearest_in_class(t, c, KindClass::Monitor, t.len())
}

/// The nearest workspace or split container among `c` and its ancestors.
pub open spec fn direction_container_of(t: Seq<ContainerView>, c: usize) -> Option<usize> {
    nearest_in_class(t, c, KindClass::DirectionContainer, t.len())
}

pub open spec fn tiling_pred(t: Seq<ContainerView>) -> spec_fn(usize) -> bool {
    |x: usize| t[x as int].kind.is_tiling_container()
}

/// The children of `p` that are tiling windows or split containers.
pub open spec fn tiling_children(t: Seq<ContainerView>, p: usize) -> Seq<usize> {
    t[p as int].children.filter(tiling_pred(t))
}

/// The tiling siblings of `c`: its parent's tiling children other than `c`.
pub open spec fn tiling_siblings(t: Seq<ContainerView>, c: usize) -> Seq<usize> {
    match t[c as int].parent {
        None => Seq::empty(),
        Some(p) => tiling_children(t, p).filter(ne_pred(c)),
    }
}


pub proof fn lemma_nearest_in_class(t: Seq<ContainerView>, c: usize, class: KindClass, fuel: nat)
    requires
        tree_wf(t),
        c < t.len(),
    ensures
        nearest_in_class(t, c, class, fuel) matches Some(r) ==> r < t.len() && in_class(t[r as int].kind, class),
    decreases fuel,
{
    if !in_class(t[c as int].kind, class) && fuel > 0 {
        if let Some(q) = t[c as int].parent {
            assert(links_ok(t, c as int));
            lemma_nearest_in_class(t, q, class, (fuel - 1) as nat);
        }
    }
}

impl ContainerTree {
    pub closed spec fn spec_len(&self) -> nat {
        self.nodes@.len()
    }

    /// An empty tree.
    pub fn new() -> (res: ContainerTree)
        ensures
            res@ == Seq::<ContainerView>::empty(),
            tree_wf(res@),
    {
        let res = ContainerTree { nodes: Vec::new() };
        assert(res@ =~= Seq::<ContainerView>::empty());
        res
    }

    /// Number of containers in the arena.
    pub fn len(&self) -> (res: usize)
        ensures
            res == self@.len(),
    {
        self.nodes.len()
    }

    /// Adds a new detached container with no children; returns its id.
    pub fn add_container(
        &mut self,
        kind: ContainerKind,
        tiling_direction: TilingDirection,
        tiling_layout: TilingLayout,
    ) -> (id: usize)
        requires
            tree_wf(old(self)@),
            old(self)@.len() < usize::MAX,
        ensures
            id == old(self)@.len(),
            final(self)@ == old(self)@.push(
                ContainerView {
                    kind,
                    parent: None,
                    children: Seq::empty(),
                    focus: Seq::empty(),
                    direction: tiling_direction,
                    layout: tiling_layout,
                },
            ),
            tree_wf(final(self)@),
    {
        let id = self.nodes.len();
        self.nodes.push(
            Container {
                kind,
                parent: None,
                children: Vec::new(),
                focus_order: Vec::new(),
                tiling_direction,
                tiling_layout,
            },
        );
        proof {
            assert(self@ =~= old(self)@.push(self.nodes@[id as int]@));
            lemma_push_detached_wf(old(self)@, self.nodes@[id as int]@);
        }
        id
    }

    pub fn kind(&self, id: usize) -> (res: ContainerKind)
        requires
            id < self@.len(),
        ensures
            res == self@[id as int].kind,
    {
        self.nodes[id].kind
    }

    pub fn parent(&self, id: usize) -> (res: Option<usize>)
        requires
            id < self@.len(),
        ensures
            res == self@[id as int].parent,
    {
        self.nodes[id].parent
    }

    pub fn is_detached(&self, id: usize) -> (res: bool)
        requires
            id < self@.len(),
        ensures
            res == is_detached(self@, id),
    {
        self.nodes[id].parent.is_none()
    }

    pub fn children(&self, id: usize) -> (res: Vec<usize>)
        requires
            id < self@.len(),
        ensures
            res@ == self@[id as int].children,
    {
        self.nodes[id].children.clone()
    }

    pub fn child_count(&self, id: usize) -> (res: usize)
        requires
            id < self@.len(),
        ensures
            res == self@[id as int].children.len(),
    {
        self.nodes[id].children.len()
    }

    pub fn child_at(&self, id: usize, k: usize) -> (res: usize)
        requires
            id < self@.len(),
            k < self@[id as int].children.len(),
        ensures
            res == self@[id as int].children[k as int],
    {
        self.nodes[id].children[k]
    }

    pub fn focus_order(&self, id: usize) -> (res: Vec<usize>)
        requires
            id < self@.len(),
        ensures
            res@ == self@[id as int].focus,
    {
        self.nodes[id].focus_order.clone()
    }

    pub fn tiling_direction(&self, id: usize) -> (res: TilingDirection)
        requires
            id < self@.len(),
        ensures
            res == self@[id as int].direction,
    {
        self.nodes[id].tiling_direction
    }

    pub fn tiling_layout(&self, id: usize) -> (res: TilingLayout)
        requires
            id < self@.len(),
        ensures
            res == self@[id as int].layout,
    {
        self.nodes[id].tiling_layout
    }


    /// See [`nearest_in_class`]; the search climbs at most `len()` steps.
    pub fn nearest(&self, c: usize, class: KindClass) -> (res: Option<usize>)
        requires
            tree_wf(self@),
            c < self@.len(),
        ensures
            res == nearest_in_class(self@, c, class, self@.len()),
            res matches Some(r) ==> r < self@.len() && in_class(self@[r as int].kind, class),
    {
        proof {
            lemma_nearest_in_class(self@, c, class, self@.len());
        }
        let mut cur = c;
        let mut fuel = self.nodes.len();
        loop
            invariant
                tree_wf(self@),
                cur < self@.len(),
                fuel <= self@.len(),
                nearest_in_class(self@, c, class, self@.len()) == nearest_in_class(self@, cur, class, fuel as nat),
            decreases fuel,
        {
            let k = self.nodes[cur].kind;
            let hit = match class {
                KindClass::Workspace => k == ContainerKind::Workspace,
                KindClass::Monitor => k == ContainerKind::Monitor,
                KindClass::DirectionContainer => k == ContainerKind::Workspace || k == ContainerKind::Split,
            };
            if hit {
                return Some(cur);
            }
            if fuel == 0 {
                return None;
            }
            match self.nodes[cur].parent {
                None => { return None; },
                Some(q) => {
                    proof {
                        assert(links_ok(self@, cur as int));
                    }
                    cur = q;
                    fuel = fuel - 1;
                },
            }
        }
    }

    pub fn is_tiling_container(&self, id: usize) -> (res: bool)
        requires
            id < self@.len(),
        ensures
            res == self@[id as int].kind.is_tiling_container(),
    {
        let k = self.nodes[id].kind;
        k == ContainerKind::Split || k == ContainerKind::TilingWindow
    }

    /// See [`tiling_children`].
    pub fn tiling_children(&self, p: usize) -> (res: Vec<usize>)
        requires
            tree_wf(self@),
            p < self@.len(),
        ensures
            res@ == tiling_children(self@, p),
            forall|k: int| 0 <= k < res@.len() ==> (#[trigger] res@[k]) < self@.len(),
    {
        let ghost t = self@;
        proof {
            assert(links_ok(t, p as int));
        }
        let mut res: Vec<usize> = Vec::new();
        let mut i: usize = 0;
        let n = self.nodes[p].children.len();
        while i < n
            invariant
                t == self@,
                tree_wf(t),
                p < t.len(),
                n == t[p as int].children.len(),
                i <= n,
                res@ == t[p as int].children.take(i as int).filter(tiling_pred(t)),
                forall|k: int| 0 <= k < res@.len() ==> (#[trigger] res@[k]) < t.len(),
            decreases n - i,
        {
            let x = self.nodes[p].children[i];
            proof {
                assert(links_ok(t, p as int));
                assert(t[p as int].children[i as int] == x);
                assert(t[p as int].children.take(i as int).push(x) =~= t[p as int].children.take(i as int + 1));
                t[p as int].children.take(i as int).lemma_filter_push(x, tiling_pred(t));
            }
            if self.is_tiling_container(x) {
                res.push(x);
            }
            i = i + 1;
        }
        proof {
            assert(t[p as int].children.take(n as int) =~= t[p as int].children);
        }
        res
    }


    /// Whether container `i`'s links and focus order are consistent.
    fn node_well_formed(&self, i: usize) -> (res: bool)
        requires
            i < self@.len(),
        ensures
            res == (links_ok(self@, i as int) && focus_ok(self@, i as int)),
    {
        let ghost t = self@;
        let n = self.nodes.len();
        match self.nodes[i].parent {
            Some(p) => {
                if p >= n || !contains(&self.nodes[p].children, i) {
                    return false;
                }
            },
            None => {},
        }
        let mut k: usize = 0;
        while k < self.nodes[i].children.len()
            invariant
                t == self@,
                n == t.len(),
                i < n,
                k <= t[i as int].children.len(),
                forall|q: int| 0 <= q < k ==> #[trigger] t[i as int].children[q] < t.len()
                    && t[t[i as int].children[q] as int].parent == Some(i),
            decreases t[i as int].children.len() - k,
        {
            let c = self.nodes[i].children[k];
            if c >= n {
                return false;
            }
            let ok = match self.nodes[c].parent {
                Some(q) => q == i,
                None => false,
            };
            if !ok {
                return false;
            }
            k = k + 1;
        }
        has_no_duplicates(&self.nodes[i].children) && has_no_duplicates(&self.nodes[i].focus_order)
            && same_entries(&self.nodes[i].focus_order, &self.nodes[i].children)
    }

    /// Whether the tree is well formed (see [`tree_wf`]): every parent link
    /// is matched by a child entry and the other way round, no child list
    /// or focus order repeats an entry, and each focus order lists exactly
    /// its container's children.
    pub fn is_well_formed(&self) -> (res: bool)
        ensures
            res == tree_wf(self@),
    {
        let ghost t = self@;
        let mut i: usize = 0;
        while i < self.nodes.len()
            invariant
                t == self@,
                i <= t.len(),
                forall|j: int| 0 <= j < i ==> #[trigger] links_ok(t, j),
                forall|j: int| 0 <= j < i ==> #[trigger] focus_ok(t, j),
            decreases t.len() - i,
        {
            if !self.node_well_formed(i) {
                return false;
            }
            proof {
                assert(links_ok(t, i as int) && focus_ok(t, i as int));
            }
            i = i + 1;
        }
        true
    }

    /// Puts `c` at the front of `p`'s child list and touches nothing else:
    /// neither the parent link of `c` nor `p`'s focus order.
    pub(crate) fn push_front_child(&mut self, p: usize, c: usize)
        requires
            p < old(self)@.len(),
        ensures
            final(self)@ == old(self)@.update(p as int, ContainerView { children: seq![c] + old(self)@[p as int].children, ..old(self)@[p as int] }),
    {
        self.nodes[p].children.insert(0, c);
        proof {
            let t = old(self)@;
            let goal = t.update(p as int, ContainerView { children: seq![c] + t[p as int].children, ..t[p as int] });
            assert(self@ =~= goal) by {
                assert(self@[p as int] =~= goal[p as int]);
            }
        }
    }

    /// Moves `x` to position `target_index` (clamped) of `p`'s focus order.
    pub fn shift_focus_to_index(&mut self, p: usize, target_index: usize, x: usize)
        requires
            tree_wf(old(self)@),
            p < old(self)@.len(),
        ensures
            tree_wf(final(self)@),
            final(self)@ == old(self)@.update(p as int, ContainerView { focus: spec_shift_to_index(old(self)@[p as int].focus, target_index as int, x), ..old(self)@[p as int] }),
    {
        let ghost t = self@;
        let k = position(&self.nodes[p].focus_order, x);
        proof {
            assert(focus_ok(t, p as int));
        }
        match k {
            Some(k) => {
                proof {
                    lemma_index_of_unique(t[p as int].focus, k as int);
                }
                self.nodes[p].focus_order.remove(k);
                let len = self.nodes[p].focus_order.len();
                let at = if target_index <= len { target_index } else { len };
                self.nodes[p].focus_order.insert(at, x);
            },
            None => {},
        }
        proof {
            let goal = t.update(p as int, ContainerView { focus: spec_shift_to_index(t[p as int].focus, target_index as int, x), ..t[p as int] });
            assert(self@ =~= goal) by {
                assert(self@[p as int] =~= goal[p as int]);
            }
            lemma_shift_focus_wf(t, p, target_index as int, x);
        }
    }

    pub fn set_tiling_direction(&mut self, id: usize, direction: TilingDirection)
        requires
            tree_wf(old(self)@),
            id < old(self)@.len(),
        ensures
            tree_wf(final(self)@),
            final(self)@ == old(self)@.update(id as int, ContainerView { direction, ..old(self)@[id as int] }),
    {
        self.nodes[id].tiling_direction = direction;
        proof {
            let t = old(self)@;
            let goal = t.update(id as int, ContainerView { direction, ..t[id as int] });
            assert(self@ =~= goal) by {
                assert(self@[id as int] =~= goal[id as int]);
            }
            assert forall|i: int| 0 <= i < goal.len() implies #[trigger] links_ok(goal, i) by {
                assert(links_ok(t, i));
            }
            assert forall|i: int| 0 <= i < goal.len() implies #[trigger] focus_ok(goal, i) by {
                assert(focus_ok(t, i));
            }
        }
    }

    pub fn set_tiling_layout(&mut self, id: usize, layout: TilingLayout)
        requires
            id < old(self)@.len(),
        ensures
            tree_wf(old(self)@) ==> tree_wf(final(self)@),
            final(self)@ == old(self)@.update(id as int, ContainerView { layout, ..old(self)@[id as int] }),
    {
        self.nodes[id].tiling_layout = layout;
        proof {
            let t = old(self)@;
            let goal = t.update(id as int, ContainerView { layout, ..t[id as int] });
            assert(self@ =~= goal) by {
                assert(self@[id as int] =~= goal[id as int]);
            }
            if tree_wf(t) {
                assert forall|i: int| 0 <= i < goal.len() implies #[trigger] links_ok(goal, i) by {
                    assert(links_ok(t, i));
                }
                assert forall|i: int| 0 <= i < goal.len() implies #[trigger] focus_ok(goal, i) by {
                    assert(focus_ok(t, i));
                }
            }
        }
    }

    /// Inserts `c` at position `idx` of `p`'s child list and touches nothing
    /// else: neither the parent link of `c` nor `p`'s focus order.
    pub(crate) fn insert_child_at(&mut self, p: usize, idx: usize, c: usize)
        requires
            p < old(self)@.len(),
            idx <= old(self)@[p as int].children.len(),
        ensures
            final(self)@ == old(self)@.update(p as int, ContainerView { children: old(self)@[p as int].children.insert(idx as int, c), ..old(self)@[p as int] }),
    {
        self.nodes[p].children.insert(idx, c);
        proof {
            let t = old(self)@;
            let goal = t.update(p as int, ContainerView { children: t[p as int].children.insert(idx as int, c), ..t[p as int] });
            assert(self@ =~= goal) by {
                assert(self@[p as int] =~= goal[p as int]);
            }
        }
    }

    /// Replaces `p`'s child list by `children` and touches nothing else.
    pub(crate) fn set_children(&mut self, p: usize, children: Vec<usize>)
        requires
            p < old(self)@.len(),
        ensures
            final(self)@ == old(self)@.update(p as int, ContainerView { children: children@, ..old(self)@[p as int] }),
    {
        let ghost cv = children@;
        self.nodes[p].children = children;
        proof {
            let t = old(self)@;
            let goal = t.update(p as int, ContainerView { children: cv, ..t[p as int] });
            assert(self@ =~= goal) by {
                assert(self@[p as int] =~= goal[p as int]);
            }
        }
    }

    /// Drops every occurrence of `c` from `p`'s child list and touches
    /// nothing else.
    pub(crate) fn remove_child_entries(&mut self, p: usize, c: usize)
        requires
            p < old(self)@.len(),
        ensures
            final(self)@ == old(self)@.update(p as int, ContainerView { children: old(self)@[p as int].children.filter(ne_pred(c)), ..old(self)@[p as int] }),
    {
        let kept = without(&self.nodes[p].children, c);
        self.nodes[p].children = kept;
        proof {
            let t = old(self)@;
            let goal = t.update(p as int, ContainerView { children: t[p as int].children.filter(ne_pred(c)), ..t[p as int] });
            assert(self@ =~= goal) by {
                assert(self@[p as int] =~= goal[p as int]);
            }
        }
    }
}

/// Inserts a detached child under `target_parent` at `target_index`
/// (clamped to the child count; appended when `None`). The child goes
/// to the back of the parent's focus order.
pub fn attach_container(tree: &mut ContainerTree, child: usize, target_parent: usize, target_index: Option<usize>) -> (res: Result<(), TreeError>)
    requires
        tree_wf(old(tree)@),
        child < old(tree)@.len(),
        target_parent < old(tree)@.len(),
    ensures
        tree_wf(final(tree)@),
        final(tree)@.len() == old(tree)@.len(),
        match res {
            Ok(()) => is_detached(old(tree)@, child) && final(tree)@ == spec_attach(old(tree)@, child, target_parent, target_index),
            Err(e) => e == TreeError::AlreadyAttached && !is_detached(old(tree)@, child) && final(tree)@ == old(tree)@,
        },
{
    if tree.nodes[child].parent.is_some() {
        return Err(TreeError::AlreadyAttached);
    }
    let len = tree.nodes[target_parent].children.len();
    let at = match target_index {
        Some(i) => if i <= len { i } else { len },
        None => len,
    };
    tree.nodes[target_parent].children.insert(at, child);
    tree.nodes[target_parent].focus_order.push(child);
    tree.nodes[child].parent = Some(target_parent);
    proof {
        assert(tree@ =~= spec_attach(old(tree)@, child, target_parent, target_index));
        lemma_attach_wf(old(tree)@, child, target_parent, target_index);
    }
    Ok(())
}


/// Removes `c` from its parent's children and focus order and clears
/// its parent.
fn unlink(tree: &mut ContainerTree, c: usize)
    requires
        tree_wf(old(tree)@),
        c < old(tree)@.len(),
        !is_detached(old(tree)@, c),
    ensures
        final(tree)@ == spec_unlink(old(tree)@, c),
        tree_wf(final(tree)@),
{
    let p = tree.nodes[c].parent.unwrap();
    proof {
        assert(links_ok(old(tree)@, c as int));
    }
    let nc = without(&tree.nodes[p].children, c);
    let nf = without(&tree.nodes[p].focus_order, c);
    tree.nodes[p].children = nc;
    tree.nodes[p].focus_order = nf;
    tree.nodes[c].parent = None;
    proof {
        assert(tree@ =~= spec_unlink(old(tree)@, c));
        lemma_unlink_wf(old(tree)@, c);
    }
}


/// Dissolves split container `s` into its parent (see [`spec_flatten`]).
pub fn flatten_split_container(tree: &mut ContainerTree, s: usize) -> (res: Result<(), TreeError>)
    requires
        tree_wf(old(tree)@),
        s < old(tree)@.len(),
        old(tree)@[s as int].kind == ContainerKind::Split,
    ensures
        tree_wf(final(tree)@),
        (final(tree)@, res) == spec_try_flatten(old(tree)@, s),
        match res {
            Ok(()) => old(tree)@[s as int].parent matches Some(p) && p != s && final(tree)@ == spec_flatten(old(tree)@, s),
            Err(e) => final(tree)@ == old(tree)@ && (
                (e == TreeError::NoParent && old(tree)@[s as int].parent is None)
                || (e == TreeError::OwnParent && old(tree)@[s as int].parent == Some(s))),
        },
{
    let p = match tree.nodes[s].parent {
        Some(p) => p,
        None => { return Err(TreeError::NoParent); },
    };
    if p == s {
        return Err(TreeError::OwnParent);
    }
    let ghost t = tree@;
    proof {
        assert(links_ok(t, s as int));
        assert(links_ok(t, p as int));
        assert(focus_ok(t, p as int));
    }
    let kids = tree.nodes[s].children.clone();
    let kid_focus = tree.nodes[s].focus_order.clone();
    let sdir = tree.nodes[s].tiling_direction;
    let idx = position(&tree.nodes[p].children, s).unwrap();
    let fidx = position(&tree.nodes[p].focus_order, s).unwrap();
    proof {
        lemma_index_of_unique(t[p as int].children, idx as int);
        lemma_index_of_unique(t[p as int].focus, fidx as int);
    }
    let nc = splice(&tree.nodes[p].children, idx, &kids);
    let nf = splice(&tree.nodes[p].focus_order, fidx, &kid_focus);
    tree.nodes[p].children = nc;
    tree.nodes[p].focus_order = nf;
    let ghost mid = tree@;
    let ghost goal = spec_flatten(t, s);
    proof {
        assert(mid[s as int] == t[s as int]);
        assert forall|i: int| 0 <= i < t.len() && i != s && !kids@.contains(i as usize) implies mid[i] == goal[i] by {
            assert(links_ok(t, i));
            if t[i].parent == Some(s) {
                assert(t[s as int].children.contains(i as usize));
            }
            assert(mid[i] =~= goal[i]);
        }
    }
    let mut k: usize = 0;
    while k < kids.len()
        invariant
            k <= kids.len(),
            tree_wf(t),
            kids@ == t[s as int].children,
            t[s as int].children.no_duplicates(),
            mid.len() == t.len(),
            tree@.len() == t.len(),
            p < t.len(),
            s < t.len(),
            p != s,
            goal == spec_flatten(t, s),
            sdir == t[s as int].direction,
            t[s as int].parent == Some(p),
            forall|j: int| 0 <= j < kids@.len() ==> (#[trigger] kids@[j]) < t.len() && t[kids@[j] as int].parent == Some(s),
            forall|i: int| 0 <= i < t.len() && i != s && !kids@.contains(i as usize) ==> mid[i] == goal[i],
            forall|i: int| 0 <= i < t.len() && i != s ==> (mid[i].kind == t[i].kind && mid[i].parent == t[i].parent && mid[i].direction == t[i].direction && mid[i].layout == t[i].layout),
            forall|i: int| 0 <= i < t.len() && i != s && i != p ==> mid[i] == t[i],
            mid[p as int].children == goal[p as int].children,
            mid[p as int].focus == goal[p as int].focus,
            forall|i: int| 0 <= i < t.len() && i != s ==> (#[trigger] tree@[i]) == (if kids@.take(k as int).contains(i as usize) { goal[i] } else { mid[i] }),
            tree@[s as int] == mid[s as int],
            mid[s as int] == t[s as int],
        decreases kids.len() - k,
    {
        let x = kids[k];
        let ghost before = tree@;
        proof {
            assert(kids@[k as int] == x);
            assert(x != s);
        }
        tree.nodes[x].parent = Some(p);
        if tree.nodes[x].kind == ContainerKind::Split {
            tree.nodes[x].tiling_direction = sdir.inverse();
        }
        proof {
            assert forall|i: int| 0 <= i < t.len() && i != s implies (#[trigger] tree@[i]) == (if kids@.take(k as int + 1).contains(i as usize) { goal[i] } else { mid[i] }) by {
                assert(kids@.take(k as int + 1) =~= kids@.take(k as int).push(x));
                if i != x as int {
                    assert(tree@[i] == before[i]);
                }
                if i == x as int {
                    assert(!kids@.take(k as int).contains(x)) by {
                        if kids@.take(k as int).contains(x) {
                            let j = choose|j: int| 0 <= j < k && kids@.take(k as int)[j] == x;
                            assert(kids@[j] == kids@[k as int]);
                        }
                    }
                    assert(before[i] == mid[i]);
                    assert(t[i].parent == Some(s));
                    assert(goal[i].parent == Some(p));
                    assert(tree@[i].parent == goal[i].parent);
                    assert(tree@[i].kind == goal[i].kind);
                    assert(tree@[i].direction == goal[i].direction);
                    assert(tree@[i].layout == goal[i].layout);
                    assert(tree@[i].children == goal[i].children);
                    assert(tree@[i].focus == goal[i].focus);
                    assert(tree@[i] =~= goal[i]);
                }
            }
        }
        k = k + 1;
    }
    let ghost done = tree@;
    tree.nodes[s].parent = None;
    tree.nodes[s].children = Vec::new();
    tree.nodes[s].focus_order = Vec::new();
    proof {
        assert(kids@.take(kids@.len() as int) =~= kids@);
        assert forall|i: int| 0 <= i < t.len() implies #[trigger] tree@[i] == goal[i] by {
            if i == s {
                assert(tree@[i].parent == goal[i].parent);
                assert(tree@[i].kind == goal[i].kind);
                assert(tree@[i].direction == goal[i].direction);
                assert(tree@[i].layout == goal[i].layout);
                assert(tree@[i].children =~= goal[i].children);
                assert(tree@[i].focus =~= goal[i].focus);
                assert(tree@[i] =~= goal[i]);
            } else {
                assert(tree@[i] == done[i]);
                assert(done[i] == (if kids@.take(kids.len() as int).contains(i as usize) { goal[i] } else { mid[i] }));
                if kids@.contains(i as usize) {
                    assert(kids@.take(kids@.len() as int).contains(i as usize));
                }
            }
        }
        assert(tree@ =~= goal);
        lemma_flatten_wf(t, s);
    }
    Ok(())
}


/// Removes `c` from the tree (see [`spec_detach`]).
pub fn detach_container(tree: &mut ContainerTree, c: usize) -> (res: Result<(), TreeError>)
    requires
        tree_wf(old(tree)@),
        c < old(tree)@.len(),
    ensures
        tree_wf(final(tree)@),
        final(tree)@.len() == old(tree)@.len(),
        match res {
            Ok(()) => detach_error(old(tree)@, c) is None && final(tree)@ == spec_detach(old(tree)@, c),
            Err(e) => detach_error(old(tree)@, c) == Some(e) && final(tree)@ == old(tree)@,
        },
{
    let p = match tree.nodes[c].parent {
        Some(p) => p,
        None => { return Err(TreeError::NoParent); },
    };
    proof {
        assert(links_ok(old(tree)@, c as int));
        assert(links_ok(old(tree)@, p as int));
    }
    if tree.nodes[p].kind == ContainerKind::Split && tree.nodes[p].children.len() == 1 {
        proof {
            assert(old(tree)@[p as int].children[0] == c) by {
                let k = choose|k: int| 0 <= k < old(tree)@[p as int].children.len() && old(tree)@[p as int].children[k] == c;
            }
        }
        let r = flatten_split_container(tree, p);
        match r {
            Ok(()) => {},
            Err(e) => { return Err(e); },
        }
        proof {
            let t = old(tree)@;
            assert(t[c as int].parent == Some(p));
            assert(c != p) by {
                if c == p {
                    assert(t[p as int].parent == Some(p));
                }
            }
        }
    }
    unlink(tree, c);
    Ok(())
}


/// Puts fresh split container `s` in place of the children `targets` of
/// `p` (see [`spec_wrap`]).
pub fn wrap_in_split_container(tree: &mut ContainerTree, s: usize, p: usize, targets: &Vec<usize>) -> (res: Result<(), TreeError>)
    requires
        tree_wf(old(tree)@),
        wrap_ready(old(tree)@, s, p, targets@),
    ensures
        tree_wf(final(tree)@),
        (final(tree)@, res) == spec_try_wrap(old(tree)@, s, p, targets@),
        match res {
            Ok(()) => targets@.len() > 0 && !targets@.contains(p) && final(tree)@ == spec_wrap(old(tree)@, s, p, targets@),
            Err(e) => final(tree)@ == old(tree)@ && (
                (e == TreeError::NoTargets && targets@.len() == 0)
                || (e == TreeError::OwnParent && targets@.len() > 0 && targets@.contains(p))),
        },
{
    if targets.len() == 0 {
        return Err(TreeError::NoTargets);
    }
    if contains(targets, p) {
        return Err(TreeError::OwnParent);
    }
    let ghost t = tree@;
    let ghost goal = spec_wrap(t, s, p, targets@);
    proof {
        assert(links_ok(t, p as int));
        assert(focus_ok(t, p as int));
        assert forall|k: int| 0 <= k < targets@.len() implies t[p as int].children.contains(#[trigger] targets@[k]) by {
            assert(links_ok(t, targets@[k] as int));
        }
        assert forall|k: int| 0 <= k < targets@.len() implies t[p as int].focus.contains(#[trigger] targets@[k]) by {
            assert(t[p as int].children.contains(targets@[k]));
        }
        lemma_min_pos_bounds(t[p as int].children, targets@);
        lemma_min_pos_bounds(t[p as int].focus, targets@);
        lemma_wrap_wf(t, s, p, targets@);
    }
    let si = min_position(&tree.nodes[p].children, targets);
    let sfi = min_position(&tree.nodes[p].focus_order, targets);
    let sorted = only(&tree.nodes[p].focus_order, targets);
    let mut pc = tree.nodes[p].children.clone();
    pc.insert(si, s);
    let mut pf = tree.nodes[p].focus_order.clone();
    pf.insert(sfi, s);
    let npc = without_all(&pc, targets);
    let npf = without_all(&pf, targets);
    tree.nodes[p].children = npc;
    tree.nodes[p].focus_order = npf;
    tree.nodes[s].parent = Some(p);
    tree.nodes[s].children = targets.clone();
    tree.nodes[s].focus_order = sorted;
    let ghost mid = tree@;
    proof {
        assert(mid[p as int] =~= goal[p as int]);
        assert(mid[s as int] =~= goal[s as int]);
    }
    let mut k: usize = 0;
    while k < targets.len()
        invariant
            k <= targets.len(),
            tree_wf(t),
            wrap_ready(t, s, p, targets@),
            !targets@.contains(p),
            goal == spec_wrap(t, s, p, targets@),
            mid.len() == t.len(),
            tree@.len() == t.len(),
            mid[p as int] == goal[p as int],
            mid[s as int] == goal[s as int],
            forall|i: int| 0 <= i < t.len() && i != s && i != p ==> mid[i] == t[i],
            forall|i: int| 0 <= i < t.len() ==> (#[trigger] tree@[i]) == (if targets@.take(k as int).contains(i as usize) { goal[i] } else { mid[i] }),
        decreases targets.len() - k,
    {
        let x = targets[k];
        let ghost before = tree@;
        proof {
            assert(targets@[k as int] == x);
            assert(targets@.contains(x));
            assert(x != s);
            assert(x != p);
        }
        tree.nodes[x].parent = Some(s);
        proof {
            assert forall|i: int| 0 <= i < t.len() implies (#[trigger] tree@[i]) == (if targets@.take(k as int + 1).contains(i as usize) { goal[i] } else { mid[i] }) by {
                assert(targets@.take(k as int + 1) =~= targets@.take(k as int).push(x));
                if i != x as int {
                    assert(tree@[i] == before[i]);
                } else {
                    assert(!targets@.take(k as int).contains(x)) by {
                        if targets@.take(k as int).contains(x) {
                            let j = choose|j: int| 0 <= j < k && targets@.take(k as int)[j] == x;
                            assert(targets@[j] == targets@[k as int]);
                        }
                    }
                    assert(before[i] == mid[i]);
                    assert(tree@[i] =~= goal[i]);
                }
            }
        }
        k = k + 1;
    }
    proof {
        assert(targets@.take(targets.len() as int) =~= targets@);
        assert forall|i: int| 0 <= i < t.len() implies #[trigger] tree@[i] == goal[i] by {
            if !targets@.contains(i as usize) && i != s && i != p {
                assert(mid[i] == t[i]);
            }
        }
        assert(tree@ =~= goal);
    }
    Ok(())
}


/// Replaces the child of `target_parent` at `target_index` by the
/// detached `replacement` (see [`spec_replace`]).
pub fn replace_container(tree: &mut ContainerTree, replacement: usize, target_parent: usize, target_index: usize) -> (res: Result<(), TreeError>)
    requires
        tree_wf(old(tree)@),
        replacement < old(tree)@.len(),
        target_parent < old(tree)@.len(),
    ensures
        tree_wf(final(tree)@),
        final(tree)@.len() == old(tree)@.len(),
        match res {
            Ok(()) => replace_error(old(tree)@, replacement, target_parent, target_index) is None
                && final(tree)@ == spec_replace(old(tree)@, replacement, target_parent, target_index),
            Err(e) => replace_error(old(tree)@, replacement, target_parent, target_index) == Some(e)
                && final(tree)@ == old(tree)@,
        },
{
    if tree.nodes[replacement].parent.is_some() {
        return Err(TreeError::AlreadyAttached);
    }
    if target_index >= tree.nodes[target_parent].children.len() {
        return Err(TreeError::NoContainerAtIndex);
    }
    let ghost t = tree@;
    let old_child = tree.nodes[target_parent].children[target_index];
    proof {
        assert(links_ok(t, target_parent as int));
        assert(focus_ok(t, target_parent as int));
        assert(t[target_parent as int].children.contains(old_child));
    }
    let fi = position(&tree.nodes[target_parent].focus_order, old_child).unwrap();
    proof {
        lemma_index_of_unique(t[target_parent as int].focus, fi as int);
    }
    let r = detach_container(tree, old_child);
    match r {
        Ok(()) => {},
        Err(e) => { return Err(e); },
    }
    proof {
        assert(tree@[replacement as int].parent is None) by {
            assert(replacement != old_child);
            let tp = t[old_child as int].parent->0;
            if detach_flattens_parent(t, old_child) {
                lemma_detached_not_child(t, replacement, tp as int);
            }
        }
    }
    let r2 = attach_container(tree, replacement, target_parent, Some(target_index));
    proof {
        assert(r2 is Ok);
    }
    tree.shift_focus_to_index(target_parent, fi, replacement);
    Ok(())
}


/// Moves `c` to position `target_index` of `target_parent` (see
/// [`spec_move`]).
pub fn move_container_within_tree(tree: &mut ContainerTree, c: usize, target_parent: usize, target_index: usize) -> (res: Result<(), TreeError>)
    requires
        tree_wf(old(tree)@),
        c < old(tree)@.len(),
        target_parent < old(tree)@.len(),
    ensures
        tree_wf(final(tree)@),
        final(tree)@.len() == old(tree)@.len(),
        (final(tree)@, res) == spec_try_move(old(tree)@, c, target_parent, target_index),
        res is Ok ==> final(tree)@[c as int].parent == Some(target_parent),
        match res {
            Ok(()) => (old(tree)@[c as int].parent == Some(target_parent) || detach_error(old(tree)@, c) is None)
                && final(tree)@ == spec_move(old(tree)@, c, target_parent, target_index),
            Err(e) => old(tree)@[c as int].parent != Some(target_parent) && detach_error(old(tree)@, c) == Some(e)
                && final(tree)@ == old(tree)@,
        },
{
    let ghost t = tree@;
    if tree.nodes[c].parent == Some(target_parent) {
        let k = position(&tree.nodes[target_parent].children, c);
        proof {
            assert(links_ok(t, c as int));
            assert(links_ok(t, target_parent as int));
        }
        let k = k.unwrap();
        proof {
            lemma_index_of_unique(t[target_parent as int].children, k as int);
        }
        tree.nodes[target_parent].children.remove(k);
        let len = tree.nodes[target_parent].children.len();
        let at = if target_index <= len { target_index } else { len };
        tree.nodes[target_parent].children.insert(at, c);
        proof {
            let goal = spec_move(t, c, target_parent, target_index);
            assert(tree@ =~= goal) by {
                assert(tree@[target_parent as int] =~= goal[target_parent as int]);
            }
            lemma_move_wf(t, c, target_parent, target_index);
        }
        return Ok(());
    }
    let r = detach_container(tree, c);
    match r {
        Ok(()) => {},
        Err(e) => { return Err(e); },
    }
    proof {
        assert(links_ok(t, c as int));
        if detach_flattens_parent(t, c) {
            let p = t[c as int].parent->0;
            assert(links_ok(t, p as int));
            let f = spec_flatten(t, p);
            lemma_flatten_wf(t, p);
            assert(links_ok(f, c as int));
            assert(spec_unlink(f, c)[c as int].parent is None);
        }
        assert(tree@[c as int].parent is None);
    }
    let r2 = attach_container(tree, c, target_parent, Some(target_index));
    proof {
        assert(r2 is Ok);
    }
    Ok(())
}


/// Exchanges `a` and `b` between their parents (see [`spec_swap`]).
/// Both must have parents, and the parents must differ.
pub fn swap_container(tree: &mut ContainerTree, a: usize, b: usize)
    requires
        tree_wf(old(tree)@),
        a < old(tree)@.len(),
        b < old(tree)@.len(),
        old(tree)@[a as int].parent is Some,
        old(tree)@[b as int].parent is Some,
        old(tree)@[a as int].parent != old(tree)@[b as int].parent,
    ensures
        final(tree)@ == spec_swap(old(tree)@, a, b),
{
    let ghost t = tree@;
    let pa = tree.nodes[a].parent.unwrap();
    let pb = tree.nodes[b].parent.unwrap();
    proof {
        assert(links_ok(t, a as int));
        assert(links_ok(t, b as int));
        assert(links_ok(t, pa as int));
        assert(links_ok(t, pb as int));
    }
    let ia = position(&tree.nodes[pa].children, a).unwrap();
    let ib = position(&tree.nodes[pb].children, b).unwrap();
    proof {
        lemma_index_of_unique(t[pa as int].children, ia as int);
        lemma_index_of_unique(t[pb as int].children, ib as int);
    }
    tree.nodes[pa].children.set(ia, b);
    tree.nodes[pb].children.set(ib, a);
    tree.nodes[a].parent = Some(pb);
    tree.nodes[b].parent = Some(pa);
    proof {
        let goal = spec_swap(t, a, b);
        assert forall|i: int| 0 <= i < t.len() implies #[trigger] tree@[i] == goal[i] by {
            assert(tree@[i] =~= goal[i]);
        }
        assert(tree@ =~= goal);
    }
}




/// Detaching a container right after attaching it gives back the tree as
/// it was, unless the attach went into an empty split container (which the
/// detach then dissolves).
pub proof fn detach_undoes_attach(t: Seq<ContainerView>, c: usize, p: usize, idx: Option<usize>)
    requires
        tree_wf(t),
        c < t.len(),
        p < t.len(),
        is_detached(t, c),
        !(t[p as int].kind == ContainerKind::Split && t[p as int].children.len() == 0),
    ensures
        detach_error(spec_attach(t, c, p, idx), c) is None,
        spec_detach(spec_attach(t, c, p, idx), c) == t,
{
    let a = spec_attach(t, c, p, idx);
    lemma_attach_wf(t, c, p, idx);
    let pv = t[p as int];
    let at = clamp_index(idx, pv.children.len());
    lemma_detached_not_child(t, c, p as int);
    pv.children.insert_ensures(at, c);
    if c == p {
        assert(t[c as int].parent is None);
    }
    assert(!detach_flattens_parent(a, c)) by {
        if a[p as int].kind == ContainerKind::Split {
            assert(a[p as int].children.len() == pv.children.len() + 1);
        }
    }
    let d = spec_detach(a, c);
    assert(d == spec_unlink(a, c));
    assert(pv.children.insert(at, c).filter(ne_pred(c)) =~= pv.children) by {
        lemma_filter_keeps_all(pv.children, ne_pred(c));
        lemma_insert_filter(pv.children, at, c);
    }
    assert(pv.focus.push(c).filter(ne_pred(c)) =~= pv.focus) by {
        lemma_filter_keeps_all(pv.focus, ne_pred(c));
        pv.focus.lemma_filter_push(c, ne_pred(c));
    }
    assert forall|i: int| 0 <= i < t.len() implies #[trigger] d[i] == t[i] by {
        if i == p {
            assert(d[i] =~= t[i]);
        } else if i == c {
            assert(d[i] =~= t[i]);
        }
    }
    assert(d =~= t);
}

/// Moving an entry of a focus order keeps the tree well formed.
pub proof fn lemma_shift_focus_wf(t: Seq<ContainerView>, p: usize, target: int, x: usize)
    requires
        tree_wf(t),
        p < t.len(),
        0 <= target,
    ensures
        tree_wf(t.update(p as int, ContainerView { focus: spec_shift_to_index(t[p as int].focus, target, x), ..t[p as int] })),
{
    let goal = t.update(p as int, ContainerView { focus: spec_shift_to_index(t[p as int].focus, target, x), ..t[p as int] });
    assert forall|i: int| 0 <= i < goal.len() implies #[trigger] links_ok(goal, i) by {
        assert(links_ok(t, i));
    }
    assert forall|i: int| 0 <= i < goal.len() implies #[trigger] focus_ok(goal, i) by {
        assert(focus_ok(t, i));
        if i == p {
            assert forall|y: usize| goal[i].focus.contains(y) <==> t[i].focus.contains(y) by {
                lemma_shift_contains(t[p as int].focus, target, x, y);
            }
            lemma_shift_contains(t[p as int].focus, target, x, x);
        }
    }
}

/// A replacement that succeeds keeps the tree well formed.
pub proof fn lemma_replace_wf(t: Seq<ContainerView>, r: usize, p: usize, idx: usize)
    requires
        tree_wf(t),
        r < t.len(),
        p < t.len(),
        replace_error(t, r, p, idx) is None,
    ensures
        tree_wf(spec_replace(t, r, p, idx)),
{
    assert(links_ok(t, p as int));
    let old_child = t[p as int].children[idx as int];
    assert(t[old_child as int].parent == Some(p));
    lemma_detach_keeps_kinds(t, old_child);
    let d = spec_detach(t, old_child);
    assert(d[r as int].parent is None) by {
        assert(r != old_child);
        assert(links_ok(t, old_child as int));
        if detach_flattens_parent(t, old_child) {
            lemma_detached_not_child(t, r, p as int);
        }
    }
    lemma_attach_wf(d, r, p, Some(idx));
    let t2 = spec_attach(d, r, p, Some(idx));
    let fi = t[p as int].focus.index_of(old_child);
    assert(fi >= 0) by {
        assert(focus_ok(t, p as int));
        assert(t[p as int].children.contains(old_child));
    }
    lemma_shift_focus_wf(t2, p, fi, r);
}

/// Attaching keeps every container's kind and gives `c` the parent `p`.
pub proof fn lemma_attach_places(t: Seq<ContainerView>, c: usize, p: usize, idx: Option<usize>)
    requires
        c < t.len(),
        p < t.len(),
    ensures
        spec_attach(t, c, p, idx).len() == t.len(),
        spec_attach(t, c, p, idx)[c as int].parent == Some(p),
        forall|i: int| 0 <= i < t.len() ==> (#[trigger] spec_attach(t, c, p, idx)[i]).kind == t[i].kind,
{
}

/// A detach that succeeds keeps the tree well formed and every
/// container's kind.
pub proof fn lemma_detach_keeps_kinds(t: Seq<ContainerView>, c: usize)
    requires
        tree_wf(t),
        c < t.len(),
        detach_error(t, c) is None,
    ensures
        tree_wf(spec_detach(t, c)),
        spec_detach(t, c).len() == t.len(),
        forall|i: int| 0 <= i < t.len() ==> (#[trigger] spec_detach(t, c)[i]).kind == t[i].kind,
{
    assert(links_ok(t, c as int));
    let p = t[c as int].parent->0;
    if detach_flattens_parent(t, c) {
        assert(links_ok(t, p as int));
        lemma_flatten_wf(t, p);
        let f = spec_flatten(t, p);
        assert(f[c as int].parent is Some);
        lemma_unlink_wf(f, c);
        assert(links_ok(f, c as int));
    } else {
        lemma_unlink_wf(t, c);
    }
}

/// A replacement that succeeds keeps the tree's length and every
/// container's kind, and gives `r` the parent `p`.
pub proof fn lemma_replace_places(t: Seq<ContainerView>, r: usize, p: usize, idx: usize)
    requires
        tree_wf(t),
        r < t.len(),
        p < t.len(),
        replace_error(t, r, p, idx) is None,
    ensures
        spec_replace(t, r, p, idx).len() == t.len(),
        spec_replace(t, r, p, idx)[r as int].parent == Some(p),
        forall|i: int| 0 <= i < t.len() ==> (#[trigger] spec_replace(t, r, p, idx)[i]).kind == t[i].kind,
{
    assert(links_ok(t, p as int));
    let old_child = t[p as int].children[idx as int];
    lemma_detach_keeps_kinds(t, old_child);
    let d = spec_detach(t, old_child);
    lemma_attach_places(d, r, p, Some(idx));
}

/// A move that succeeds keeps the tree well formed and every container's
/// kind, and gives `c` the parent `target`.
pub proof fn lemma_move_wf(t: Seq<ContainerView>, c: usize, target: usize, idx: usize)
    requires
        tree_wf(t),
        c < t.len(),
        target < t.len(),
        t[c as int].parent == Some(target) || detach_error(t, c) is None,
    ensures
        tree_wf(spec_move(t, c, target, idx)),
        spec_move(t, c, target, idx).len() == t.len(),
        spec_move(t, c, target, idx)[c as int].parent == Some(target),
        forall|i: int| 0 <= i < t.len() ==> (#[trigger] spec_move(t, c, target, idx)[i]).kind == t[i].kind,
{
    let goal = spec_move(t, c, target, idx);
    if t[c as int].parent == Some(target) {
        assert(links_ok(t, target as int));
        let pv = t[target as int];
        assert forall|y: usize| goal[target as int].children.contains(y) <==> pv.children.contains(y) by {
            lemma_shift_contains(pv.children, idx as int, c, y);
        }
        lemma_shift_contains(pv.children, idx as int, c, c);
        assert forall|i: int| 0 <= i < goal.len() implies #[trigger] links_ok(goal, i) by {
            assert(links_ok(t, i));
            if i == target {
                assert forall|k: int| #![trigger goal[i].children[k]] 0 <= k < goal[i].children.len() implies
                    goal[i].children[k] < goal.len() && goal[goal[i].children[k] as int].parent == Some(i as usize) by {
                    let x = goal[i].children[k];
                    assert(goal[i].children.contains(x));
                    assert(pv.children.contains(x));
                    let j = choose|j: int| 0 <= j < pv.children.len() && pv.children[j] == x;
                    assert(t[i].children[j] == x);
                }
            }
        }
        assert forall|i: int| 0 <= i < goal.len() implies #[trigger] focus_ok(goal, i) by {
            assert(focus_ok(t, i));
        }
    } else {
        lemma_detach_keeps_kinds(t, c);
        let d = spec_detach(t, c);
        assert(d[c as int].parent is None) by {
            assert(links_ok(t, c as int));
            if detach_flattens_parent(t, c) {
                let p = t[c as int].parent->0;
                assert(links_ok(t, p as int));
                let f = spec_flatten(t, p);
                lemma_flatten_wf(t, p);
                assert(links_ok(f, c as int));
            }
        }
        lemma_attach_wf(d, c, target, Some(idx));
        lemma_attach_places(d, c, target, Some(idx));
    }
}

/// A move keeps the tree's length and every container's kind; when it
/// succeeds, `c` has the parent `target`.
pub proof fn lemma_try_move_places(t: Seq<ContainerView>, c: usize, target: usize, idx: usize)
    requires
        tree_wf(t),
        c < t.len(),
        target < t.len(),
    ensures
        tree_wf(spec_try_move(t, c, target, idx).0),
        spec_try_move(t, c, target, idx).0.len() == t.len(),
        spec_try_move(t, c, target, idx).1 is Ok ==> spec_try_move(t, c, target, idx).0[c as int].parent == Some(target),
        forall|i: int| 0 <= i < t.len() ==> (#[trigger] spec_try_move(t, c, target, idx).0[i]).kind == t[i].kind,
{
    if t[c as int].parent == Some(target) || detach_error(t, c) is None {
        lemma_move_wf(t, c, target, idx);
    }
}

/// Adding a detached, empty container keeps the tree well formed.
pub proof fn lemma_push_detached_wf(t: Seq<ContainerView>, v: ContainerView)
    requires
        tree_wf(t),
        t.len() < usize::MAX,
        v.parent is None,
        v.children.len() == 0,
        v.focus.len() == 0,
    ensures
        tree_wf(t.push(v)),
{
    let r = t.push(v);
    assert forall|i: int| 0 <= i < r.len() implies #[trigger] links_ok(r, i) by {
        if i < t.len() {
            assert(links_ok(t, i));
            assert(r[i] == t[i]);
            assert forall|k: int| #![trigger r[i].children[k]] 0 <= k < r[i].children.len() implies
                r[i].children[k] < r.len() && r[r[i].children[k] as int].parent == Some(i as usize) by {
                assert(t[i].children[k] < t.len());
            }
        }
    }
    assert forall|i: int| 0 <= i < r.len() implies #[trigger] focus_ok(r, i) by {
        if i < t.len() {
            assert(focus_ok(t, i));
        }
    }
}

/// Filtering `x` out of `s` with `x` inserted gives `s` filtered.
pub proof fn lemma_insert_filter(s: Seq<usize>, i: int, x: usize)
    requires
        0 <= i <= s.len(),
    ensures
        s.insert(i, x).filter(ne_pred(x)) == s.filter(ne_pred(x)),
    decreases s.len(),
{
    reveal(Seq::filter);
    if i == s.len() {
        assert(s.insert(i, x) =~= s.push(x));
        s.lemma_filter_push(x, ne_pred(x));
    } else {
        let d = s.drop_last();
        lemma_insert_filter(d, i, x);
        assert(s.insert(i, x) =~= d.insert(i, x).push(s.last()));
        d.insert(i, x).lemma_filter_push(s.last(), ne_pred(x));
        assert(s =~= d.push(s.last()));
        d.lemma_filter_push(s.last(), ne_pred(x));
    }
}

/// Swapping two containers of different parents twice gives back the
/// tree as it was.
pub proof fn swap_is_involution(t: Seq<ContainerView>, a: usize, b: usize)
    requires
        tree_wf(t),
        a < t.len(),
        b < t.len(),
        t[a as int].parent is Some,
        t[b as int].parent is Some,
        t[a as int].parent != t[b as int].parent,
    ensures
        spec_swap(spec_swap(t, a, b), a, b) == t,
{
    let pa = t[a as int].parent->0;
    let pb = t[b as int].parent->0;
    assert(links_ok(t, a as int));
    assert(links_ok(t, b as int));
    assert(links_ok(t, pa as int));
    assert(links_ok(t, pb as int));
    let ia = t[pa as int].children.index_of(a);
    let ib = t[pb as int].children.index_of(b);
    assert(t[pa as int].children.contains(a));
    assert(t[pb as int].children.contains(b));
    lemma_index_of_unique(t[pa as int].children, ia);
    lemma_index_of_unique(t[pb as int].children, ib);
    let s1 = spec_swap(t, a, b);
    assert(a != b);
    let ca = t[pa as int].children.update(ia, b);
    let cb = t[pb as int].children.update(ib, a);
    assert(s1[pa as int].children == ca);
    assert(s1[pb as int].children == cb);
    assert(s1[a as int].parent == Some(pb));
    assert(s1[b as int].parent == Some(pa));
    assert(cb[ib] == a);
    assert(ca[ia] == b);
    assert(cb.no_duplicates()) by {
        assert forall|x: int, y: int| 0 <= x < cb.len() && 0 <= y < cb.len() && x != y implies cb[x] != cb[y] by {
            if x == ib {
                assert(cb[y] == t[pb as int].children[y]);
                assert(t[t[pb as int].children[y] as int].parent == Some(pb));
            } else if y == ib {
                assert(cb[x] == t[pb as int].children[x]);
                assert(t[t[pb as int].children[x] as int].parent == Some(pb));
            }
        }
    }
    assert(ca.no_duplicates()) by {
        assert forall|x: int, y: int| 0 <= x < ca.len() && 0 <= y < ca.len() && x != y implies ca[x] != ca[y] by {
            if x == ia {
                assert(ca[y] == t[pa as int].children[y]);
                assert(t[t[pa as int].children[y] as int].parent == Some(pa));
            } else if y == ia {
                assert(ca[x] == t[pa as int].children[x]);
                assert(t[t[pa as int].children[x] as int].parent == Some(pa));
            }
        }
    }
    lemma_index_of_unique(cb, ib);
    lemma_index_of_unique(ca, ia);
    let s2 = spec_swap(s1, a, b);
    assert(ca.update(ia, a) =~= t[pa as int].children);
    assert(cb.update(ib, b) =~= t[pb as int].children);
    assert forall|i: int| 0 <= i < t.len() implies #[trigger] s2[i] == t[i] by {
        assert(s2[i] =~= t[i]);
    }
    assert(s2 =~= t);
}

} // verus!
