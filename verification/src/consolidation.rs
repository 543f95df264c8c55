//! Consolidating the workspaces onto the primary monitor reaches a fixed
//! point: once it has succeeded, doing it again changes nothing.
use vstd::prelude::*;
use crate::common::ContainerKind;
use crate::error::WmError;
use crate::tree::{ContainerView, tree_wf, links_ok};
use crate::seqs::{ne_pred, lemma_filter_contains_iff, lemma_filter_no_dup};
use crate::monitors::{
    WorkspaceMoved, kind_pred, monitors_of, monitor_workspaces, workspaces_in, spec_move_workspaces,
    spec_move_workspace_to_monitor, spec_consolidate, consolidate_is_noop_when_consolidated,
};

verus! {

proof fn lemma_filter_congruent(s: Seq<usize>, p: spec_fn(usize) -> bool, q: spec_fn(usize) -> bool)
    requires
        forall|k: int| 0 <= k < s.len() ==> p(#[trigger] s[k]) == q(s[k]),
    ensures
        s.filter(p) == s.filter(q),
    decreases s.len(),
{
    reveal(Seq::filter);
    if s.len() > 0 {
        lemma_filter_congruent(s.drop_last(), p, q);
        assert(p(s[s.len() - 1]) == q(s[s.len() - 1]));
    }
}

proof fn lemma_filter_twice(s: Seq<usize>, p: spec_fn(usize) -> bool, q: spec_fn(usize) -> bool)
    ensures
        s.filter(p).filter(q) == s.filter(|x: usize| p(x) && q(x)),
    decreases s.len(),
{
    reveal(Seq::filter);
    if s.len() > 0 {
        lemma_filter_twice(s.drop_last(), p, q);
        let x = s.last();
        if p(x) {
            assert(s.filter(p) == s.drop_last().filter(p).push(x));
            assert(s.filter(p).drop_last() =~= s.drop_last().filter(p));
        } else {
            assert(s.filter(p) == s.drop_last().filter(p));
        }
    }
}

proof fn lemma_filter_none(s: Seq<usize>, p: spec_fn(usize) -> bool)
    requires
        forall|k: int| 0 <= k < s.len() ==> !p(#[trigger] s[k]),
    ensures
        s.filter(p).len() == 0,
{
    if s.filter(p).len() > 0 {
        let y = s.filter(p)[0];
        assert(s.filter(p).contains(y));
        lemma_filter_contains_iff(s, p, y);
        let k = choose|k: int| 0 <= k < s.len() && s[k] == y;
    }
}

/// The workspaces of distinct monitors `ms`: each is a workspace child of
/// one of them, none occurs twice, and every workspace child of each of
/// them occurs.
proof fn lemma_workspaces_in(t: Seq<ContainerView>, ms: Seq<usize>)
    requires
        tree_wf(t),
        ms.no_duplicates(),
        forall|k: int| 0 <= k < ms.len() ==> (#[trigger] ms[k]) < t.len(),
    ensures
        workspaces_in(t, ms).no_duplicates(),
        forall|k: int| 0 <= k < workspaces_in(t, ms).len() ==> {
            let x = #[trigger] workspaces_in(t, ms)[k];
            &&& x < t.len()
            &&& t[x as int].kind == ContainerKind::Workspace
            &&& t[x as int].parent matches Some(m) && ms.contains(m)
        },
        forall|j: int, x: usize| 0 <= j < ms.len() && (#[trigger] t[ms[j] as int].children.contains(x))
            && t[x as int].kind == ContainerKind::Workspace ==> workspaces_in(t, ms).contains(x),
    decreases ms.len(),
{
    if ms.len() > 0 {
        let d = ms.drop_last();
        let m = ms.last();
        lemma_workspaces_in(t, d);
        let a = workspaces_in(t, d);
        let b = monitor_workspaces(t, m);
        assert(workspaces_in(t, ms) == a + b);
        assert(links_ok(t, m as int));
        lemma_filter_no_dup(t[m as int].children, kind_pred(t, ContainerKind::Workspace));
        assert forall|k: int| 0 <= k < b.len() implies {
            let x = #[trigger] b[k];
            &&& x < t.len()
            &&& t[x as int].kind == ContainerKind::Workspace
            &&& t[x as int].parent == Some(m)
        } by {
            let x = b[k];
            assert(b.contains(x));
            lemma_filter_contains_iff(t[m as int].children, kind_pred(t, ContainerKind::Workspace), x);
            let j = choose|j: int| 0 <= j < t[m as int].children.len() && t[m as int].children[j] == x;
            assert(t[m as int].children[j] < t.len());
        }
        let ab = a + b;
        assert forall|k: int| 0 <= k < ab.len() implies {
            let x = #[trigger] ab[k];
            &&& x < t.len()
            &&& t[x as int].kind == ContainerKind::Workspace
            &&& t[x as int].parent matches Some(mm) && ms.contains(mm)
        } by {
            if k < a.len() {
                assert(ab[k] == a[k]);
                let mm = t[a[k] as int].parent->0;
                let j = choose|j: int| 0 <= j < d.len() && d[j] == mm;
                assert(ms[j] == mm);
            } else {
                assert(ab[k] == b[k - a.len()]);
                assert(ms[ms.len() - 1] == m);
            }
        }
        assert(ab.no_duplicates()) by {
            assert forall|i: int, j: int| 0 <= i < ab.len() && 0 <= j < ab.len() && i != j implies ab[i] != ab[j] by {
                if i < a.len() && j < a.len() {
                    assert(ab[i] == a[i] && ab[j] == a[j]);
                } else if i >= a.len() && j >= a.len() {
                    assert(ab[i] == b[i - a.len()] && ab[j] == b[j - a.len()]);
                } else {
                    let (ia, jb) = if i < a.len() { (i, j) } else { (j, i) };
                    assert(ab[ia] == a[ia]);
                    assert(ab[jb] == b[jb - a.len()]);
                    let x = a[ia];
                    if ab[ia] == ab[jb] {
                        assert(t[x as int].parent == Some(m));
                        let mm = t[x as int].parent->0;
                        assert(d.contains(mm));
                        let q = choose|q: int| 0 <= q < d.len() && d[q] == mm;
                        assert(ms[q] == ms[ms.len() - 1]);
                    }
                }
            }
        }
        assert forall|j: int, x: usize| 0 <= j < ms.len() && (#[trigger] t[ms[j] as int].children.contains(x))
            && t[x as int].kind == ContainerKind::Workspace implies ab.contains(x) by {
            if j < ms.len() - 1 {
                assert(d[j] == ms[j]);
                assert(t[d[j] as int].children.contains(x));
                let k = choose|k: int| 0 <= k < a.len() && a[k] == x;
                assert(ab[k] == x);
            } else {
                lemma_filter_contains_iff(t[m as int].children, kind_pred(t, ContainerKind::Workspace), x);
                let k = choose|k: int| 0 <= k < b.len() && b[k] == x;
                assert(ab[a.len() + k] == x);
            }
        }
    }
}

/// Moving a workspace whose parent `q` is not a split container, and not
/// `p`, onto `p`: `q` loses it, `p` gains it, and nothing else changes
/// kind, children or parent.
proof fn lemma_move_one(t: Seq<ContainerView>, w: usize, p: usize)
    requires
        w < t.len(),
        p < t.len(),
        t[w as int].parent matches Some(q) && q < t.len() && q != p && q != w
            && t[q as int].kind != ContainerKind::Split,
        spec_move_workspace_to_monitor(t, w, p).1 is Ok,
    ensures
        spec_move_workspace_to_monitor(t, w, p).0.len() == t.len(),
        forall|i: int| 0 <= i < t.len() ==> (#[trigger] spec_move_workspace_to_monitor(t, w, p).0[i]).kind == t[i].kind,
        forall|i: int| 0 <= i < t.len() && i != p && i != w ==> (#[trigger] spec_move_workspace_to_monitor(t, w, p).0[i]).children
            == (if i == t[w as int].parent->0 { t[i].children.filter(ne_pred(w)) } else { t[i].children }),
        forall|i: int| 0 <= i < t.len() && i != w ==> (#[trigger] spec_move_workspace_to_monitor(t, w, p).0[i]).parent == t[i].parent,
{
    let q = t[w as int].parent->0;
    assert(!crate::tree::detach_flattens_parent(t, w));
    assert(crate::tree::detach_error(t, w) is None);
}

pub open spec fn not_in(xs: Seq<usize>) -> spec_fn(usize) -> bool {
    |x: usize| !xs.contains(x)
}

/// Moving workspaces `wss` (distinct, each the child of a monitor other
/// than `p`) onto `p` one by one: while it succeeds, every container other
/// than `p` and the moved ones has lost exactly the moved ones from its
/// children, and kinds and the other parents stay.
proof fn lemma_move_all(t0: Seq<ContainerView>, wss: Seq<usize>, p: usize, k: int)
    requires
        tree_wf(t0),
        p < t0.len(),
        wss.no_duplicates(),
        forall|i: int| 0 <= i < wss.len() ==> {
            let w = #[trigger] wss[i];
            &&& w < t0.len()
            &&& t0[w as int].kind == ContainerKind::Workspace
            &&& t0[w as int].parent matches Some(q) && q < t0.len() && q != p && t0[q as int].kind == ContainerKind::Monitor
        },
        0 <= k <= wss.len(),
        spec_move_workspaces(t0, wss.take(k), p).1 is Ok,
    ensures
        spec_move_workspaces(t0, wss.take(k), p).0.len() == t0.len(),
        forall|i: int| 0 <= i < t0.len() ==> (#[trigger] spec_move_workspaces(t0, wss.take(k), p).0[i]).kind == t0[i].kind,
        forall|i: int| 0 <= i < t0.len() && i != p && t0[i].kind != ContainerKind::Workspace
            ==> (#[trigger] spec_move_workspaces(t0, wss.take(k), p).0[i]).children == t0[i].children.filter(not_in(wss.take(k))),
        forall|x: int| 0 <= x < t0.len() && !wss.take(k).contains(x as usize)
            ==> (#[trigger] spec_move_workspaces(t0, wss.take(k), p).0[x]).parent == t0[x].parent,
    decreases k,
{
    let tk = spec_move_workspaces(t0, wss.take(k), p).0;
    if k == 0 {
        assert(wss.take(0) =~= Seq::<usize>::empty());
        assert forall|i: int| 0 <= i < t0.len() && i != p && t0[i].kind != ContainerKind::Workspace
            implies tk[i].children == t0[i].children.filter(not_in(wss.take(k))) by {
            assert forall|j: int| 0 <= j < t0[i].children.len() implies not_in(wss.take(k))(#[trigger] t0[i].children[j]) by {}
            crate::seqs::lemma_filter_keeps_all(t0[i].children, not_in(wss.take(k)));
        }
    } else {
        let pre = wss.take(k - 1);
        let cur = wss.take(k);
        assert(cur.drop_last() =~= pre);
        assert(cur.last() == wss[k - 1]);
        let r = spec_move_workspaces(t0, pre, p);
        assert(r.1 is Ok);
        lemma_move_all(t0, wss, p, k - 1);
        let t1 = r.0;
        let w = wss[k - 1];
        assert(!pre.contains(w)) by {
            if pre.contains(w) {
                let j = choose|j: int| 0 <= j < pre.len() && pre[j] == w;
                assert(wss[j] == wss[k - 1]);
            }
        }
        let q = t0[w as int].parent->0;
        assert(t1[w as int].parent == Some(q));
        assert(t1[q as int].kind == ContainerKind::Monitor);
        lemma_move_one(t1, w, p);
        assert(tk == spec_move_workspace_to_monitor(t1, w, p).0);
        assert forall|i: int| 0 <= i < t0.len() && i != p && t0[i].kind != ContainerKind::Workspace
            implies (#[trigger] tk[i]).children == t0[i].children.filter(not_in(cur)) by {
            assert(i != w);
            let c0 = t0[i].children;
            lemma_filter_twice(c0, not_in(pre), ne_pred(w));
            assert forall|j: int| 0 <= j < c0.len() implies
                (|x: usize| not_in(pre)(x) && ne_pred(w)(x))(#[trigger] c0[j]) == not_in(cur)(c0[j]) by {
                let x = c0[j];
                assert(cur =~= pre.push(w));
                assert(cur.contains(x) <==> (pre.contains(x) || x == w)) by {
                    if cur.contains(x) {
                        let m = choose|m: int| 0 <= m < cur.len() && cur[m] == x;
                        if m < pre.len() {
                            assert(pre[m] == x);
                        }
                    }
                    if pre.contains(x) {
                        let m = choose|m: int| 0 <= m < pre.len() && pre[m] == x;
                        assert(cur[m] == x);
                    }
                    if x == w {
                        assert(cur[k - 1] == x);
                    }
                }
            }
            lemma_filter_congruent(c0, |x: usize| not_in(pre)(x) && ne_pred(w)(x), not_in(cur));
            if i != q {
                assert(links_ok(t0, i));
                assert forall|j: int| 0 <= j < c0.filter(not_in(pre)).len() implies
                    ne_pred(w)(#[trigger] c0.filter(not_in(pre))[j]) by {
                    let x = c0.filter(not_in(pre))[j];
                    assert(c0.filter(not_in(pre)).contains(x));
                    lemma_filter_contains_iff(c0, not_in(pre), x);
                    let jj = choose|jj: int| 0 <= jj < c0.len() && c0[jj] == x;
                    assert(t0[c0[jj] as int].parent == Some(i as usize));
                }
                crate::seqs::lemma_filter_keeps_all(c0.filter(not_in(pre)), ne_pred(w));
            }
        }
        assert forall|x: int| 0 <= x < t0.len() && !cur.contains(x as usize) implies (#[trigger] tk[x]).parent == t0[x].parent by {
            assert(x != w) by {
                if x == w {
                    assert(cur[k - 1] == w);
                }
            }
            assert(!pre.contains(x as usize)) by {
                if pre.contains(x as usize) {
                    let m = choose|m: int| 0 <= m < pre.len() && pre[m] == x as usize;
                    assert(cur[m] == x as usize);
                }
            }
        }
    }
}

proof fn lemma_workspaces_in_empty(t: Seq<ContainerView>, ms: Seq<usize>)
    requires
        forall|k: int| 0 <= k < ms.len() ==> monitor_workspaces(t, #[trigger] ms[k]).len() == 0,
    ensures
        workspaces_in(t, ms).len() == 0,
    decreases ms.len(),
{
    if ms.len() > 0 {
        assert forall|k: int| 0 <= k < ms.drop_last().len() implies monitor_workspaces(t, #[trigger] ms.drop_last()[k]).len() == 0 by {
            assert(ms.drop_last()[k] == ms[k]);
        }
        lemma_workspaces_in_empty(t, ms.drop_last());
        assert(monitor_workspaces(t, ms[ms.len() - 1]).len() == 0);
    }
}

/// Once consolidating the workspaces onto primary monitor `p` has
/// succeeded, consolidating again moves nothing and changes nothing.
pub proof fn consolidating_again_changes_nothing(t: Seq<ContainerView>, root: usize, p: usize)
    requires
        tree_wf(t),
        root < t.len(),
        p < t.len(),
        t[p as int].kind == ContainerKind::Monitor,
        t[root as int].kind == ContainerKind::Root,
        spec_consolidate(t, root, Some(p)).1 is Ok,
    ensures
        spec_consolidate(spec_consolidate(t, root, Some(p)).0, root, Some(p))
            == (spec_consolidate(t, root, Some(p)).0, Ok::<Seq<WorkspaceMoved>, WmError>(Seq::empty())),
{
    let ms = monitors_of(t, root);
    let others = ms.filter(ne_pred(p));
    assert(links_ok(t, root as int));
    lemma_filter_no_dup(t[root as int].children, kind_pred(t, ContainerKind::Monitor));
    lemma_filter_no_dup(ms, ne_pred(p));
    assert forall|k: int| 0 <= k < others.len() implies (#[trigger] others[k]) < t.len()
        && t[others[k] as int].kind == ContainerKind::Monitor && others[k] != p by {
        let m = others[k];
        assert(others.contains(m));
        lemma_filter_contains_iff(ms, ne_pred(p), m);
        lemma_filter_contains_iff(t[root as int].children, kind_pred(t, ContainerKind::Monitor), m);
        let j = choose|j: int| 0 <= j < t[root as int].children.len() && t[root as int].children[j] == m;
        assert(t[root as int].children[j] < t.len());
    }
    lemma_workspaces_in(t, others);
    let wss = workspaces_in(t, others);
    assert forall|i: int| 0 <= i < wss.len() implies {
        let w = #[trigger] wss[i];
        &&& w < t.len()
        &&& t[w as int].kind == ContainerKind::Workspace
        &&& t[w as int].parent matches Some(q) && q < t.len() && q != p && t[q as int].kind == ContainerKind::Monitor
    } by {
        let w = wss[i];
        let q = t[w as int].parent->0;
        let j = choose|j: int| 0 <= j < others.len() && others[j] == q;
    }
    assert(wss.take(wss.len() as int) =~= wss);
    lemma_move_all(t, wss, p, wss.len() as int);
    let t1 = spec_consolidate(t, root, Some(p)).0;
    assert(t1 == spec_move_workspaces(t, wss.take(wss.len() as int), p).0);
    // The root keeps its monitors.
    assert(root != p);
    let rc = t[root as int].children;
    assert forall|j: int| 0 <= j < rc.len() implies not_in(wss)(#[trigger] rc[j]) by {
        let x = rc[j];
        if wss.contains(x) {
            let i = choose|i: int| 0 <= i < wss.len() && wss[i] == x;
            assert(t[x as int].parent == Some(root));
        }
    }
    crate::seqs::lemma_filter_keeps_all(rc, not_in(wss));
    assert(t1[root as int].children == rc.filter(not_in(wss.take(wss.len() as int))));
    assert(t1[root as int].children == rc);
    assert forall|j: int| 0 <= j < rc.len() implies kind_pred(t1, ContainerKind::Monitor)(#[trigger] rc[j])
        == kind_pred(t, ContainerKind::Monitor)(rc[j]) by {
        assert(rc[j] < t.len());
    }
    lemma_filter_congruent(rc, kind_pred(t1, ContainerKind::Monitor), kind_pred(t, ContainerKind::Monitor));
    assert(monitors_of(t1, root) == ms);
    // No other monitor keeps a workspace.
    assert forall|k: int| 0 <= k < others.len() implies monitor_workspaces(t1, #[trigger] others[k]).len() == 0 by {
        let m = others[k];
        let c0 = t[m as int].children;
        assert(t1[m as int].children == c0.filter(not_in(wss)));
        assert(links_ok(t, m as int));
        lemma_filter_twice(c0, not_in(wss), kind_pred(t1, ContainerKind::Workspace));
        assert forall|j: int| 0 <= j < c0.len() implies
            !(|x: usize| not_in(wss)(x) && kind_pred(t1, ContainerKind::Workspace)(x))(#[trigger] c0[j]) by {
            let x = c0[j];
            assert(t[m as int].children.contains(x));
            assert(x < t.len());
            if t[x as int].kind == ContainerKind::Workspace {
                assert(others[k] == m);
                assert(wss.contains(x));
            }
        }
        lemma_filter_none(c0, |x: usize| not_in(wss)(x) && kind_pred(t1, ContainerKind::Workspace)(x));
    }
    lemma_workspaces_in_empty(t1, others);
    consolidate_is_noop_when_consolidated(t1, root, p);
}

} // verus!
