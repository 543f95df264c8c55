//! The order of the monitors under the root: configured monitors first, in
//! configuration order, then the others by position, left to right and top
//! to bottom; monitors that rank alike keep their order.
use vstd::prelude::*;
use crate::common::ContainerKind;
use crate::tree::{ContainerTree, ContainerView, tree_wf, links_ok, focus_ok, lemma_index_of_unique};
use crate::monitors::{monitors_of, kind_pred, children_of_kind};
use crate::seqs::{lemma_filter_keeps_all, lemma_filter_no_dup};

verus! {

/// What ranks a monitor: its position in the monitor configuration, when
/// it is configured, and the top-left corner of its area.
#[derive(Clone, Copy, Debug, PartialEq, Eq, Structural)]
pub struct MonitorSortKey {
    pub config_index: Option<usize>,
    pub x: i32,
    pub y: i32,
}

/// Whether a monitor ranked `a` goes before one ranked `b`: configured
/// before unconfigured, configured ones by configuration position,
/// unconfigured ones by `x`, then by `y`.
pub open spec fn sorts_before(a: MonitorSortKey, b: MonitorSortKey) -> bool {
    match (a.config_index, b.config_index) {
        (Some(p), Some(q)) => p < q,
        (Some(_), None) => true,
        (None, Some(_)) => false,
        (None, None) => if a.x == b.x { a.y < b.y } else { a.x < b.x },
    }
}

/// Neither goes before the other.
pub open spec fn same_rank(a: MonitorSortKey, b: MonitorSortKey) -> bool {
    !sorts_before(a, b) && !sorts_before(b, a)
}

/// `sorts_before` is a strict weak order.
pub proof fn lemma_sorts_before_order(a: MonitorSortKey, b: MonitorSortKey, c: MonitorSortKey)
    ensures
        !sorts_before(a, a),
        sorts_before(a, b) && sorts_before(b, c) ==> sorts_before(a, c),
        sorts_before(a, c) && same_rank(a, b) ==> sorts_before(b, c),
        sorts_before(a, c) && same_rank(b, c) ==> sorts_before(a, b),
{
}

/// See [`sorts_before`].
fn key_before(a: MonitorSortKey, b: MonitorSortKey) -> (res: bool)
    ensures
        res == sorts_before(a, b),
{
    match (a.config_index, b.config_index) {
        (Some(p), Some(q)) => p < q,
        (Some(_), None) => true,
        (None, Some(_)) => false,
        (None, None) => if a.x == b.x { a.y < b.y } else { a.x < b.x },
    }
}

/// `r` lists exactly the elements of `xs`, each once.
pub open spec fn is_permutation_of(r: Seq<usize>, xs: Seq<usize>) -> bool {
    &&& r.len() == xs.len()
    &&& r.no_duplicates()
    &&& forall|x: usize| r.contains(x) <==> xs.contains(x)
}

/// No element of `r` goes before an earlier one.
pub open spec fn sorted_by_key(r: Seq<usize>, keys: Seq<MonitorSortKey>) -> bool {
    forall|i: int, j: int| 0 <= i < j < r.len() ==> !sorts_before(#[trigger] keys[r[j] as int], #[trigger] keys[r[i] as int])
}

/// Elements of `r` that rank alike keep the order they have in `xs`.
pub open spec fn stable_wrt(r: Seq<usize>, xs: Seq<usize>, keys: Seq<MonitorSortKey>) -> bool {
    forall|i: int, j: int|
        0 <= i < j < r.len() && same_rank(#[trigger] keys[r[i] as int], #[trigger] keys[r[j] as int])
            ==> xs.index_of(r[i]) < xs.index_of(r[j])
}

proof fn lemma_index_in_prefix(xs: Seq<usize>, k: int, y: usize)
    requires
        xs.no_duplicates(),
        0 <= k <= xs.len(),
        xs.take(k).contains(y),
    ensures
        0 <= xs.index_of(y) < k,
{
    let m = choose|m: int| 0 <= m < k && xs.take(k)[m] == y;
    assert(xs[m] == y);
    lemma_index_of_unique(xs, m);
}

/// Inserting `x` at the first position whose element `x` goes before keeps
/// a sorted, stable list sorted and stable, when `x` comes after all of
/// its elements in `xs`.
proof fn lemma_insert_sorted(r: Seq<usize>, xs: Seq<usize>, keys: Seq<MonitorSortKey>, x: usize, i: int)
    requires
        sorted_by_key(r, keys),
        stable_wrt(r, xs, keys),
        0 <= i <= r.len(),
        forall|a: int| 0 <= a < i ==> !sorts_before(keys[x as int], #[trigger] keys[r[a] as int]),
        i < r.len() ==> sorts_before(keys[x as int], keys[r[i] as int]),
        forall|a: int| 0 <= a < r.len() ==> xs.index_of(#[trigger] r[a]) < xs.index_of(x),
    ensures
        sorted_by_key(r.insert(i, x), keys),
        stable_wrt(r.insert(i, x), xs, keys),
{
    let r2 = r.insert(i, x);
    assert forall|a: int, b: int| 0 <= a < b < r2.len() implies !sorts_before(#[trigger] keys[r2[b] as int], #[trigger] keys[r2[a] as int]) by {
        if b < i {
        } else if b == i {
            assert(r2[a] == r[a]);
        } else if a < i {
            assert(r2[a] == r[a] && r2[b] == r[b - 1]);
        } else if a == i {
            assert(r2[b] == r[b - 1]);
            lemma_sorts_before_order(keys[r[b - 1] as int], keys[x as int], keys[r[i] as int]);
            if b - 1 > i {
                assert(!sorts_before(keys[r[b - 1] as int], keys[r[i] as int]));
            }
        } else {
            assert(r2[a] == r[a - 1] && r2[b] == r[b - 1]);
        }
    }
    assert forall|a: int, b: int|
        0 <= a < b < r2.len() && same_rank(#[trigger] keys[r2[a] as int], #[trigger] keys[r2[b] as int])
            implies xs.index_of(r2[a]) < xs.index_of(r2[b]) by {
        if b < i {
        } else if b == i {
            assert(r2[a] == r[a]);
        } else if a < i {
            assert(r2[a] == r[a] && r2[b] == r[b - 1]);
        } else if a == i {
            assert(r2[b] == r[b - 1]);
            lemma_sorts_before_order(keys[x as int], keys[r[b - 1] as int], keys[r[i] as int]);
            if b - 1 > i {
                assert(!sorts_before(keys[r[b - 1] as int], keys[r[i] as int]));
            }
        } else {
            assert(r2[a] == r[a - 1] && r2[b] == r[b - 1]);
        }
    }
}

/// Sorts `xs` by the keys of its elements, keeping the order of elements
/// that rank alike.
pub fn stable_sort_by_key(xs: &Vec<usize>, keys: &Vec<MonitorSortKey>) -> (r: Vec<usize>)
    requires
        xs@.no_duplicates(),
        forall|k: int| 0 <= k < xs@.len() ==> (#[trigger] xs@[k]) < keys@.len(),
    ensures
        is_permutation_of(r@, xs@),
        sorted_by_key(r@, keys@),
        stable_wrt(r@, xs@, keys@),
{
    let mut r: Vec<usize> = Vec::new();
    let mut k: usize = 0;
    while k < xs.len()
        invariant
            xs@.no_duplicates(),
            forall|q: int| 0 <= q < xs@.len() ==> (#[trigger] xs@[q]) < keys@.len(),
            k <= xs.len(),
            is_permutation_of(r@, xs@.take(k as int)),
            sorted_by_key(r@, keys@),
            stable_wrt(r@, xs@, keys@),
        decreases xs.len() - k,
    {
        let x = xs[k];
        let kx = keys[x];
        let mut i: usize = 0;
        proof {
            assert forall|a: int| 0 <= a < r@.len() implies (#[trigger] r@[a]) < keys@.len() by {
                let y = r@[a];
                assert(r@.contains(y));
                assert(xs@.take(k as int).contains(y));
                let m = choose|m: int| 0 <= m < k && xs@.take(k as int)[m] == y;
                assert(xs@[m] == y);
            }
        }
        while i < r.len() && !key_before(kx, keys[r[i]])
            invariant
                forall|a: int| 0 <= a < r@.len() ==> (#[trigger] r@[a]) < keys@.len(),
                kx == keys@[x as int],
                i <= r.len(),
                forall|a: int| 0 <= a < i ==> !sorts_before(kx, #[trigger] keys@[r@[a] as int]),
            decreases r.len() - i,
        {
            i = i + 1;
        }
        proof {
            lemma_index_of_unique(xs@, k as int);
            assert forall|a: int| 0 <= a < r@.len() implies xs@.index_of(#[trigger] r@[a]) < xs@.index_of(x) by {
                assert(r@.contains(r@[a]));
                lemma_index_in_prefix(xs@, k as int, r@[a]);
            }
            lemma_insert_sorted(r@, xs@, keys@, x, i as int);
            assert(!r@.contains(x)) by {
                if r@.contains(x) {
                    lemma_index_in_prefix(xs@, k as int, x);
                }
            }
        }
        let ghost old_r = r@;
        r.insert(i, x);
        proof {
            assert(xs@.take(k as int + 1) =~= xs@.take(k as int).push(x));
            assert forall|y: usize| r@.contains(y) <==> xs@.take(k as int + 1).contains(y) by {
                if r@.contains(y) {
                    let m = choose|m: int| 0 <= m < r@.len() && r@[m] == y;
                    if m < i {
                        assert(old_r[m] == y);
                        assert(old_r.contains(y));
                    } else if m > i {
                        assert(old_r[m - 1] == y);
                        assert(old_r.contains(y));
                    }
                    if y != x {
                        assert(xs@.take(k as int).contains(y));
                        let m = choose|m: int| 0 <= m < k && xs@.take(k as int)[m] == y;
                        assert(xs@.take(k as int + 1)[m] == y);
                    } else {
                        assert(xs@.take(k as int + 1)[k as int] == y);
                    }
                }
                if xs@.take(k as int + 1).contains(y) {
                    let tk1 = xs@.take(k as int + 1);
                    let m = choose|m: int| 0 <= m < tk1.len() && #[trigger] tk1[m] == y;
                    if m < k {
                        assert(xs@.take(k as int)[m] == y);
                    }
                    if y == x {
                        assert(r@[i as int] == x);
                    } else {
                        assert(xs@.take(k as int).contains(y));
                        assert(old_r.contains(y));
                        let m = choose|m: int| 0 <= m < old_r.len() && old_r[m] == y;
                        if m < i {
                            assert(r@[m] == y);
                        } else {
                            assert(r@[m + 1] == y);
                        }
                    }
                }
            }
            assert forall|a: int, b: int| 0 <= a < b < r@.len() implies r@[a] != r@[b] by {
                if a < i && b < i {
                } else if a < i && b == i {
                    assert(old_r.contains(r@[a]));
                } else if a < i {
                    assert(r@[b] == old_r[b - 1]);
                } else if a == i {
                    assert(r@[b] == old_r[b - 1]);
                    assert(old_r.contains(r@[b]));
                } else {
                    assert(r@[a] == old_r[a - 1] && r@[b] == old_r[b - 1]);
                }
            }
        }
        k = k + 1;
    }
    proof {
        assert(xs@.take(xs@.len() as int) =~= xs@);
    }
    r
}

/// Puts the monitors under `root` in the order of their keys (`keys[m]`
/// ranks monitor `m`; see [`sorts_before`]), keeping the order of monitors
/// that rank alike. The root's child list becomes exactly its monitors in
/// that order, and the new order is returned.
pub fn sort_monitors_with_config(tree: &mut ContainerTree, root: usize, keys: &Vec<MonitorSortKey>) -> (order: Vec<usize>)
    requires
        tree_wf(old(tree)@),
        root < old(tree)@.len(),
        keys@.len() == old(tree)@.len(),
    ensures
        is_permutation_of(order@, monitors_of(old(tree)@, root)),
        sorted_by_key(order@, keys@),
        stable_wrt(order@, monitors_of(old(tree)@, root), keys@),
        final(tree)@ == old(tree)@.update(root as int, ContainerView { children: order@, ..old(tree)@[root as int] }),
        (forall|k: int| 0 <= k < old(tree)@[root as int].children.len()
            ==> old(tree)@[(#[trigger] old(tree)@[root as int].children[k]) as int].kind == ContainerKind::Monitor)
            ==> tree_wf(final(tree)@),
{
    let ghost t = tree@;
    let ms = children_of_kind(tree, root, ContainerKind::Monitor);
    proof {
        assert(links_ok(t, root as int));
        lemma_filter_no_dup(t[root as int].children, kind_pred(t, ContainerKind::Monitor));
    }
    let order = stable_sort_by_key(&ms, keys);
    let ghost o = order@;
    tree.set_children(root, order);
    proof {
        let t2 = tree@;
        if forall|k: int| 0 <= k < t[root as int].children.len()
            ==> t[(#[trigger] t[root as int].children[k]) as int].kind == ContainerKind::Monitor {
            let ch = t[root as int].children;
            assert forall|k: int| 0 <= k < ch.len() implies kind_pred(t, ContainerKind::Monitor)(#[trigger] ch[k]) by {
                assert(t[ch[k] as int].kind == ContainerKind::Monitor);
            }
            lemma_filter_keeps_all(ch, kind_pred(t, ContainerKind::Monitor));
            assert forall|i: int| 0 <= i < t2.len() implies #[trigger] links_ok(t2, i) by {
                assert(links_ok(t, i));
                if i == root {
                    assert forall|k: int| #![trigger t2[i].children[k]] 0 <= k < t2[i].children.len() implies
                        t2[i].children[k] < t2.len() && t2[t2[i].children[k] as int].parent == Some(i as usize) by {
                        let x = o[k];
                        assert(o.contains(x));
                        assert(ch.contains(x));
                        let j = choose|j: int| 0 <= j < ch.len() && ch[j] == x;
                        assert(ch[j] < t.len());
                    }
                } else {
                    if t[i].parent == Some(root) {
                        assert(ch.contains(i as usize));
                        assert(o.contains(i as usize));
                    }
                    assert forall|k: int| #![trigger t2[i].children[k]] 0 <= k < t2[i].children.len() implies
                        t2[i].children[k] < t2.len() && t2[t2[i].children[k] as int].parent == Some(i as usize) by {
                        assert(t2[i].children[k] == t[i].children[k]);
                    }
                }
            }
            assert forall|i: int| 0 <= i < t2.len() implies #[trigger] focus_ok(t2, i) by {
                assert(focus_ok(t, i));
            }
        }
    }
    let r = tree.children(root);
    r
}


/// Sorting monitors that are already in order leaves their order as it
/// is: a permutation of a sorted list that is itself sorted and keeps the
/// order of monitors that rank alike is that list. So sorting the monitors
/// a second time gives the order the first sort gave.
pub proof fn sorting_sorted_monitors_keeps_their_order(xs: Seq<usize>, r: Seq<usize>, keys: Seq<MonitorSortKey>)
    requires
        xs.no_duplicates(),
        sorted_by_key(xs, keys),
        is_permutation_of(r, xs),
        sorted_by_key(r, keys),
        stable_wrt(r, xs, keys),
    ensures
        r == xs,
{
    lemma_agree_upto(xs, r, keys, xs.len() as int);
    assert(r =~= xs);
}

proof fn lemma_agree_upto(xs: Seq<usize>, r: Seq<usize>, keys: Seq<MonitorSortKey>, n: int)
    requires
        xs.no_duplicates(),
        sorted_by_key(xs, keys),
        is_permutation_of(r, xs),
        sorted_by_key(r, keys),
        stable_wrt(r, xs, keys),
        0 <= n <= xs.len(),
    ensures
        forall|j: int| 0 <= j < n ==> r[j] == xs[j],
    decreases n,
{
    if n > 0 {
        lemma_agree_upto(xs, r, keys, n - 1);
        let i = n - 1;
        let y = r[i];
        let z = xs[i];
        if y != z {
            assert(r.contains(y));
            let j = choose|j: int| 0 <= j < xs.len() && xs[j] == y;
            assert(xs.contains(z));
            let k = choose|k: int| 0 <= k < r.len() && r[k] == z;
            if j < i {
                assert(r[j] == xs[j]);
            }
            if k < i {
                assert(r[k] == xs[k]);
            }
            assert(j > i && k > i);
            assert(!sorts_before(keys[xs[j] as int], keys[xs[i] as int]));
            assert(!sorts_before(keys[r[k] as int], keys[r[i] as int]));
            lemma_index_of_unique(xs, j);
            lemma_index_of_unique(xs, i);
            assert(same_rank(keys[r[i] as int], keys[r[k] as int]));
            assert(xs.index_of(r[i]) < xs.index_of(r[k]));
        }
    }
}

} // verus!
