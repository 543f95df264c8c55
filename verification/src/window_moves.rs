use vstd::prelude::*;
use crate::common::ContainerKind;
use crate::error::WmError;
use crate::app_command::WindowState;
use crate::tree::{
    ContainerTree, ContainerView, KindClass, TreeError, tree_wf, links_ok, workspace_of, monitor_of,
    spec_try_move, move_container_within_tree,
};
use crate::sync::{
    WindowInfo, descendant_focus_order, leaf_descendants, descendants, all_descendants, is_displayed,
    displayed_workspace_of,
};
use crate::monitors::kind_pred;
use crate::focus::{spec_set_focused_descendant, set_focused_descendant};
use crate::monitors::{
    WorkspaceBinding, monitors_of, workspace_by_name, children_of_kind, workspaces_of_monitors, workspaces_in, find_named,
};
use crate::seqs::{first_index, lemma_first_index};

verus! {

/// Whether the workspace configured at `i` belongs to the monitor at index
/// `monitor_idx` (with id `monitor`, among `count` monitors): by its
/// binding; else by where it is active; else by alternating the
/// configured workspaces over the monitors.
pub open spec fn belongs_to_monitor(
    t: Seq<ContainerView>,
    root: usize,
    names: Seq<String>,
    cfg: WorkspaceBinding,
    i: int,
    monitor: usize,
    monitor_idx: int,
    count: int,
) -> bool {
    match cfg.bind_to_monitor {
        Some(b) => b as int == monitor_idx,
        None => {
            let by_modulo = if count > 0 { i % count == monitor_idx } else { true };
            match workspace_by_name(t, root, names, cfg.name@) {
                Some(ws) => match monitor_of(t, ws) {
                    Some(m) => m == monitor,
                    None => by_modulo,
                },
                None => by_modulo,
            }
        },
    }
}

/// The names of the configured workspaces (the first `k`) that belong to
/// the monitor, in configuration order.
pub open spec fn monitor_workspace_names(
    t: Seq<ContainerView>,
    root: usize,
    names: Seq<String>,
    cfgs: Seq<WorkspaceBinding>,
    k: int,
    monitor: usize,
    monitor_idx: int,
    count: int,
) -> Seq<Seq<char>>
    decreases k,
{
    if k <= 0 {
        Seq::empty()
    } else {
        let prev = monitor_workspace_names(t, root, names, cfgs, k - 1, monitor, monitor_idx, count);
        if belongs_to_monitor(t, root, names, cfgs[k - 1], k - 1, monitor, monitor_idx, count) {
            prev.push(cfgs[k - 1].name@)
        } else {
            prev
        }
    }
}

/// The position of the first `x` in `v` (`v.len()` when there is none).
pub open spec fn first_name_index(v: Seq<Seq<char>>, x: Seq<char>) -> int
    decreases v.len(),
{
    if v.len() == 0 {
        0
    } else if v[0] == x {
        0
    } else {
        1 + first_name_index(v.drop_first(), x)
    }
}

/// The names of the configured workspaces that belong to monitor `m`, in
/// configuration order.
pub open spec fn monitor_valid_names(
    t: Seq<ContainerView>,
    root: usize,
    names: Seq<String>,
    cfgs: Seq<WorkspaceBinding>,
    m: usize,
) -> Seq<Seq<char>> {
    let ms = monitors_of(t, root);
    let idx = if ms.contains(m) { first_index(ms, m) } else { 0 };
    monitor_workspace_names(t, root, names, cfgs, cfgs.len() as int, m, idx, ms.len() as int)
}

/// The workspace name that "next/previous workspace on this monitor"
/// targets from window `w`: among the configured workspaces that belong to
/// the window's monitor, the one after (`next`) or before the window's
/// workspace, cyclically (from the first one when the current workspace is
/// not among them); `None` when none belongs to the monitor.
pub open spec fn spec_workspace_on_monitor(
    t: Seq<ContainerView>,
    root: usize,
    names: Seq<String>,
    cfgs: Seq<WorkspaceBinding>,
    w: usize,
    next: bool,
) -> Result<Option<Seq<char>>, WmError> {
    match workspace_of(t, w) {
        None => Err(WmError::NoWorkspace),
        Some(ws) => match monitor_of(t, ws) {
            None => Err(WmError::NoMonitor),
            Some(m) => {
                let valid = monitor_valid_names(t, root, names, cfgs, m);
                if valid.len() == 0 {
                    Ok(None)
                } else {
                    let found = first_name_index(valid, names[ws as int]@);
                    let cur = if found < valid.len() { found } else { 0 };
                    let target = if next {
                        (cur + 1) % (valid.len() as int)
                    } else if cur == 0 {
                        valid.len() - 1
                    } else {
                        cur - 1
                    };
                    Ok(Some(valid[target]))
                }
            },
        },
    }
}

/// See [`spec_workspace_on_monitor`].
pub fn workspace_on_monitor(
    tree: &ContainerTree,
    root: usize,
    names: &Vec<String>,
    cfgs: &Vec<WorkspaceBinding>,
    w: usize,
    next: bool,
) -> (res: Result<Option<String>, WmError>)
    requires
        tree_wf(tree@),
        root < tree@.len(),
        w < tree@.len(),
        names@.len() == tree@.len(),
    ensures
        match (res, spec_workspace_on_monitor(tree@, root, names@, cfgs@, w, next)) {
            (Ok(Some(s)), Ok(Some(v))) => s@ == v,
            (Ok(None), Ok(None)) => true,
            (Err(e), Err(f)) => e == f,
            _ => false,
        },
{
    let ghost t = tree@;
    let ws = match tree.nearest(w, KindClass::Workspace) {
        None => { return Err(WmError::NoWorkspace); },
        Some(ws) => ws,
    };
    let m = match tree.nearest(ws, KindClass::Monitor) {
        None => { return Err(WmError::NoMonitor); },
        Some(m) => m,
    };
    let ms = children_of_kind(tree, root, ContainerKind::Monitor);
    let idx = match crate::seqs::position(&ms, m) {
        Some(k) => {
            proof {
                lemma_first_index(ms@, m, k as int);
            }
            k
        },
        None => 0,
    };
    let count = ms.len();
    let all = workspaces_of_monitors(tree, &ms);
    let mut valid: Vec<String> = Vec::new();
    let mut i: usize = 0;
    while i < cfgs.len()
        invariant
            t == tree@,
            tree_wf(t),
            names@.len() == t.len(),
            ms@ == monitors_of(t, root),
            all@ == workspaces_in(t, ms@),
            forall|k: int| 0 <= k < all@.len() ==> (#[trigger] all@[k]) < t.len(),
            count == ms@.len(),
            i <= cfgs.len(),
            valid@.map_values(|s: String| s@) == monitor_workspace_names(t, root, names@, cfgs@, i as int, m, idx as int, count as int),
        decreases cfgs.len() - i,
    {
        let cfg = &cfgs[i];
        let belongs = match cfg.bind_to_monitor {
            Some(b) => b as usize == idx,
            None => {
                let by_modulo = if count > 0 { i % count == idx } else { true };
                match find_named(&all, names, &cfg.name) {
                    Some(aw) => match tree.nearest(aw, KindClass::Monitor) {
                        Some(am) => am == m,
                        None => by_modulo,
                    },
                    None => by_modulo,
                }
            },
        };
        let ghost before = valid@;
        if belongs {
            valid.push(cfg.name.clone());
        }
        proof {
            assert(valid@.map_values(|s: String| s@) =~= monitor_workspace_names(t, root, names@, cfgs@, i as int + 1, m, idx as int, count as int));
        }
        i = i + 1;
    }
    if valid.len() == 0 {
        return Ok(None);
    }
    let ghost vv = valid@.map_values(|s: String| s@);
    let mut cur: usize = 0;
    let mut j: usize = 0;
    let mut found = false;
    proof {
        assert(vv.skip(0) =~= vv);
    }
    while j < valid.len()
        invariant
            vv == valid@.map_values(|s: String| s@),
            j <= valid.len(),
            !found ==> first_name_index(vv, names@[ws as int]@) == j + first_name_index(vv.skip(j as int), names@[ws as int]@),
            !found ==> cur == 0,
            found ==> cur < valid.len() && first_name_index(vv, names@[ws as int]@) == cur,
            names@.len() == t.len(),
            ws < t.len(),
        decreases valid.len() - j,
    {
        if !found {
            proof {
                assert(vv.skip(j as int).drop_first() =~= vv.skip(j as int + 1));
                assert(vv.skip(j as int)[0] == vv[j as int]);
            }
            if valid[j] == names[ws] {
                cur = j;
                found = true;
            }
        }
        j = j + 1;
    }
    proof {
        if !found {
            assert(vv.skip(valid.len() as int) =~= Seq::<Seq<char>>::empty());
        }
    }
    let n = valid.len();
    let target = if next {
        (cur + 1) % n
    } else if cur == 0 {
        n - 1
    } else {
        cur - 1
    };
    Ok(Some(valid[target].clone()))
}


/// The first of `xs` that is a window in the tiling state.
pub open spec fn first_tiling_window(t: Seq<ContainerView>, info: Seq<WindowInfo>, xs: Seq<usize>) -> Option<usize>
    decreases xs.len(),
{
    if xs.len() == 0 {
        None
    } else if t[xs[0] as int].kind.is_window() && info[xs[0] as int].state == WindowState::Tiling {
        Some(xs[0])
    } else {
        first_tiling_window(t, info, xs.drop_first())
    }
}

/// Where a window moved to workspace `ws` goes: a tiling window goes just
/// after the most recently focused tiling window of `ws`, when there is
/// one; any other window goes to the end of `ws`.
pub open spec fn spec_place_in_workspace(t: Seq<ContainerView>, info: Seq<WindowInfo>, w: usize, ws: usize) -> (Seq<ContainerView>, Result<(), TreeError>) {
    let sib = first_tiling_window(t, info, descendant_focus_order(t, ws));
    let append = spec_try_move(t, w, ws, t[ws as int].children.len() as usize);
    if t[w as int].kind == ContainerKind::TilingWindow && sib is Some {
        match t[sib->0 as int].parent {
            Some(p) => spec_try_move(t, w, p, (first_index(t[p as int].children, sib->0) + 1) as usize),
            None => append,
        }
    } else {
        append
    }
}

/// Moves window `w` into workspace `ws` (see [`spec_place_in_workspace`]).
pub fn place_in_workspace(tree: &mut ContainerTree, info: &Vec<WindowInfo>, w: usize, ws: usize) -> (res: Result<(), TreeError>)
    requires
        tree_wf(old(tree)@),
        w < old(tree)@.len(),
        ws < old(tree)@.len(),
        info@.len() == old(tree)@.len(),
    ensures
        tree_wf(final(tree)@),
        final(tree)@.len() == old(tree)@.len(),
        (final(tree)@, res) == spec_place_in_workspace(old(tree)@, info@, w, ws),
{
    let ghost t = tree@;
    let order = leaf_descendants(tree, ws);
    let mut sib: Option<usize> = None;
    let mut i: usize = 0;
    proof {
        assert(order@.skip(0) =~= order@);
    }
    while i < order.len()
        invariant
            t == tree@,
            info@.len() == t.len(),
            order@ == descendant_focus_order(t, ws),
            forall|k: int| 0 <= k < order@.len() ==> (#[trigger] order@[k]) < t.len(),
            i <= order.len(),
            sib is None ==> first_tiling_window(t, info@, order@) == first_tiling_window(t, info@, order@.skip(i as int)),
            sib matches Some(x) ==> first_tiling_window(t, info@, order@) == Some(x) && x < t.len(),
        decreases order.len() - i,
    {
        if sib.is_none() {
            let x = order[i];
            proof {
                assert(order@.skip(i as int).drop_first() =~= order@.skip(i as int + 1));
                assert(order@.skip(i as int)[0] == x);
            }
            let k = tree.kind(x);
            if (k == ContainerKind::TilingWindow || k == ContainerKind::NonTilingWindow) && info[x].state == WindowState::Tiling {
                sib = Some(x);
            }
        }
        i = i + 1;
    }
    proof {
        if sib is None {
            assert(order@.skip(order.len() as int) =~= Seq::<usize>::empty());
        }
    }
    let n = tree.child_count(ws);
    if tree.kind(w) == ContainerKind::TilingWindow && sib.is_some() {
        let s = sib.unwrap();
        match tree.parent(s) {
            Some(p) => {
                proof {
                    assert(links_ok(t, s as int));
                }
                let k = crate::seqs::position(&tree.children(p), s).unwrap();
                proof {
                    lemma_first_index(t[p as int].children, s, k as int);
                }
                let at = k + 1;
                return move_container_within_tree(tree, w, p, at);
            },
            None => {},
        }
    }
    move_container_within_tree(tree, w, ws, n)
}


/// The tiling windows among the descendants of `c`, in tree order.
pub open spec fn tiling_windows_under(t: Seq<ContainerView>, c: usize) -> Seq<usize> {
    descendants(t, c).filter(kind_pred(t, ContainerKind::TilingWindow))
}

/// See [`tiling_windows_under`].
pub fn collect_tiling_windows(tree: &ContainerTree, c: usize) -> (res: Vec<usize>)
    requires
        tree_wf(tree@),
        c < tree@.len(),
    ensures
        res@ == tiling_windows_under(tree@, c),
        forall|k: int| 0 <= k < res@.len() ==> (#[trigger] res@[k]) < tree@.len(),
{
    let ghost t = tree@;
    let ds = all_descendants(tree, c);
    let ghost pred = kind_pred(t, ContainerKind::TilingWindow);
    let mut res: Vec<usize> = Vec::new();
    let mut i: usize = 0;
    while i < ds.len()
        invariant
            t == tree@,
            ds@ == descendants(t, c),
            forall|k: int| 0 <= k < ds@.len() ==> (#[trigger] ds@[k]) < t.len(),
            pred == kind_pred(t, ContainerKind::TilingWindow),
            i <= ds.len(),
            res@ == ds@.take(i as int).filter(pred),
            forall|k: int| 0 <= k < res@.len() ==> (#[trigger] res@[k]) < t.len(),
        decreases ds.len() - i,
    {
        let x = ds[i];
        proof {
            assert(ds@.take(i as int).push(x) =~= ds@.take(i as int + 1));
            ds@.take(i as int).lemma_filter_push(x, pred);
        }
        if tree.kind(x) == ContainerKind::TilingWindow {
            res.push(x);
        }
        i = i + 1;
    }
    proof {
        assert(ds@.take(ds.len() as int) =~= ds@);
    }
    res
}

/// What moving a window into another workspace leaves to do: the tiling
/// windows of the workspace it left and of the one it entered, whose
/// spiral layouts are rebuilt (both empty for a non-tiling window).
pub struct WorkspaceMove {
    pub source_windows: Vec<usize>,
    pub target_windows: Vec<usize>,
}

/// Moving window `w` into workspace `target` (already chosen, and
/// activated when it had to be): `w` needs a workspace on a monitor, and
/// nothing happens when `target` is that workspace. Otherwise, when
/// `target` is not displayed, its monitor's most recently focused window is
/// focused up to the monitor; `w` goes into `target` (see
/// [`spec_place_in_workspace`]); `focus_target` (the container chosen to
/// take the focus from `w`, if any) is focused; and for a tiling window the
/// tiling windows of both workspaces are listed for their layouts to be
/// rebuilt.
pub open spec fn spec_move_window_into_workspace(
    t: Seq<ContainerView>,
    info: Seq<WindowInfo>,
    w: usize,
    target: usize,
    focus_target: Option<usize>,
) -> (Seq<ContainerView>, Result<Option<(Seq<usize>, Seq<usize>)>, WmError>) {
    match workspace_of(t, w) {
        None => (t, Err(WmError::NoWorkspace)),
        Some(ws) => match monitor_of(t, ws) {
            None => (t, Err(WmError::NoMonitor)),
            Some(_) => if target == ws {
                (t, Ok(None))
            } else {
                match monitor_of(t, target) {
                    None => (t, Err(WmError::NoMonitor)),
                    Some(tm) => {
                        let order = descendant_focus_order(t, tm);
                        let reset = if !is_displayed(t, target) && order.len() > 0 { Some(order[0]) } else { None };
                        let r = spec_place_in_workspace(t, info, w, target);
                        match r.1 {
                            Err(e) => (r.0, Err(WmError::Tree(e))),
                            Ok(()) => {
                                let t2 = match reset {
                                    Some(x) => spec_set_focused_descendant(r.0, x, Some(tm), r.0.len() as nat),
                                    None => r.0,
                                };
                                let t3 = match focus_target {
                                    Some(f) => spec_set_focused_descendant(t2, f, None, t2.len() as nat),
                                    None => t2,
                                };
                                if t[w as int].kind == ContainerKind::TilingWindow {
                                    (t3, Ok(Some((tiling_windows_under(t3, ws), tiling_windows_under(t3, target)))))
                                } else {
                                    (t3, Ok(Some((Seq::empty(), Seq::empty()))))
                                }
                            },
                        }
                    },
                }
            },
        },
    }
}

/// See [`spec_move_window_into_workspace`].
pub fn move_window_into_workspace(
    tree: &mut ContainerTree,
    info: &Vec<WindowInfo>,
    w: usize,
    target: usize,
    focus_target: Option<usize>,
) -> (res: Result<Option<WorkspaceMove>, WmError>)
    requires
        tree_wf(old(tree)@),
        w < old(tree)@.len(),
        target < old(tree)@.len(),
        info@.len() == old(tree)@.len(),
        focus_target matches Some(f) ==> f < old(tree)@.len(),
    ensures
        tree_wf(final(tree)@),
        final(tree)@ == spec_move_window_into_workspace(old(tree)@, info@, w, target, focus_target).0,
        match spec_move_window_into_workspace(old(tree)@, info@, w, target, focus_target).1 {
            Err(e) => res is Err && res->Err_0 == e,
            Ok(None) => res is Ok && res->Ok_0 is None,
            Ok(Some((src, dst))) => res is Ok && res->Ok_0 is Some
                && res->Ok_0->0.source_windows@ == src && res->Ok_0->0.target_windows@ == dst,
        },
{
    let ghost t = tree@;
    let is_tiling = tree.kind(w) == ContainerKind::TilingWindow;
    let ws = match tree.nearest(w, KindClass::Workspace) {
        None => { return Err(WmError::NoWorkspace); },
        Some(ws) => ws,
    };
    if tree.nearest(ws, KindClass::Monitor).is_none() {
        return Err(WmError::NoMonitor);
    }
    if target == ws {
        return Ok(None);
    }
    let tm = match tree.nearest(target, KindClass::Monitor) {
        None => { return Err(WmError::NoMonitor); },
        Some(tm) => tm,
    };
    let displayed = displayed_workspace_of(tree, tm) == Some(target);
    let order = leaf_descendants(tree, tm);
    let reset = if !displayed && order.len() > 0 { Some(order[0]) } else { None };
    match place_in_workspace(tree, info, w, target) {
        Ok(()) => {},
        Err(e) => { return Err(WmError::Tree(e)); },
    }
    match reset {
        Some(x) => { set_focused_descendant(tree, x, Some(tm)); },
        None => {},
    }
    match focus_target {
        Some(f) => { set_focused_descendant(tree, f, None); },
        None => {},
    }
    if !is_tiling {
        return Ok(Some(WorkspaceMove { source_windows: Vec::new(), target_windows: Vec::new() }));
    }
    let source_windows = collect_tiling_windows(tree, ws);
    let target_windows = collect_tiling_windows(tree, target);
    Ok(Some(WorkspaceMove { source_windows, target_windows }))
}


proof fn lemma_first_name_index_of_unique(v: Seq<Seq<char>>, i: int)
    requires
        v.no_duplicates(),
        0 <= i < v.len(),
    ensures
        first_name_index(v, v[i]) == i,
    decreases v.len(),
{
    if i > 0 {
        let d = v.drop_first();
        assert(d.no_duplicates());
        assert(d[i - 1] == v[i]);
        assert(v[0] != v[i]);
        lemma_first_name_index_of_unique(d, i - 1);
    }
}

/// "Next/previous workspace on this monitor" steps through the monitor's
/// workspaces cyclically: from the workspace at position `i` among the
/// (distinct) names of the monitor's workspaces, next goes to position
/// `(i + 1) % len` and previous to `(i + len - 1) % len`; with two or more
/// workspaces, neither stays on the current one.
pub proof fn workspace_on_monitor_steps_cyclically(
    t: Seq<ContainerView>,
    root: usize,
    names: Seq<String>,
    cfgs: Seq<WorkspaceBinding>,
    w: usize,
    ws: usize,
    m: usize,
    i: int,
)
    requires
        workspace_of(t, w) == Some(ws),
        monitor_of(t, ws) == Some(m),
        monitor_valid_names(t, root, names, cfgs, m).no_duplicates(),
        0 <= i < monitor_valid_names(t, root, names, cfgs, m).len(),
        monitor_valid_names(t, root, names, cfgs, m)[i] == names[ws as int]@,
    ensures
        ({
            let valid = monitor_valid_names(t, root, names, cfgs, m);
            let n = valid.len() as int;
            &&& spec_workspace_on_monitor(t, root, names, cfgs, w, true) == Ok::<Option<Seq<char>>, WmError>(Some(valid[(i + 1) % n]))
            &&& spec_workspace_on_monitor(t, root, names, cfgs, w, false) == Ok::<Option<Seq<char>>, WmError>(Some(valid[(i + n - 1) % n]))
            &&& n >= 2 ==> valid[(i + 1) % n] != names[ws as int]@ && valid[(i + n - 1) % n] != names[ws as int]@
        }),
{
    let valid = monitor_valid_names(t, root, names, cfgs, m);
    let n = valid.len() as int;
    lemma_first_name_index_of_unique(valid, i);
    assert(0 <= (i + 1) % n < n) by (nonlinear_arith) requires n > 0;
    if i == 0 {
        assert((i + n - 1) % n == n - 1) by (nonlinear_arith) requires i == 0, n > 0;
    } else {
        assert((i + n - 1) % n == i - 1) by (nonlinear_arith) requires 0 < i < n;
    }
    if i + 1 < n {
        assert((i + 1) % n == i + 1) by (nonlinear_arith) requires 0 <= i, i + 1 < n;
    } else {
        assert((i + 1) % n == 0) by (nonlinear_arith) requires i + 1 == n, n > 0;
    }
}

} // verus!
