use vstd::prelude::*;
use crate::common::ContainerKind;
use crate::error::WmError;
use crate::tree::{
    ContainerTree, ContainerView, KindClass, TreeError, tree_wf, links_ok, monitor_of, spec_try_move,
    move_container_within_tree, detach_error, spec_detach, detach_container,
};
use crate::seqs::{ne_pred, without};
use crate::sync::{displayed_workspace, displayed_workspace_of};

verus! {

broadcast use vstd::seq_lib::group_seq_properties;

pub open spec fn kind_pred(t: Seq<ContainerView>, k: ContainerKind) -> spec_fn(usize) -> bool {
    |x: usize| t[x as int].kind == k
}

/// The monitors, in the root's child order.
pub open spec fn monitors_of(t: Seq<ContainerView>, root: usize) -> Seq<usize> {
    t[root as int].children.filter(kind_pred(t, ContainerKind::Monitor))
}

/// The workspaces of monitor `m`, in child order.
pub open spec fn monitor_workspaces(t: Seq<ContainerView>, m: usize) -> Seq<usize> {
    t[m as int].children.filter(kind_pred(t, ContainerKind::Workspace))
}

/// The children of `p` of kind `k`, in child order.
pub fn children_of_kind(tree: &ContainerTree, p: usize, k: ContainerKind) -> (res: Vec<usize>)
    requires
        tree_wf(tree@),
        p < tree@.len(),
    ensures
        res@ == tree@[p as int].children.filter(kind_pred(tree@, k)),
        forall|i: int| 0 <= i < res@.len() ==> (#[trigger] res@[i]) < tree@.len() && tree@[res@[i] as int].parent == Some(p),
{
    let ghost t = tree@;
    let ch = tree.children(p);
    let ghost pred = kind_pred(t, k);
    let mut res: Vec<usize> = Vec::new();
    let mut i: usize = 0;
    proof {
        assert(links_ok(t, p as int));
        assert(ch@.take(0).filter(pred) =~= Seq::<usize>::empty());
    }
    while i < ch.len()
        invariant
            t == tree@,
            ch@ == t[p as int].children,
            links_ok(t, p as int),
            pred == kind_pred(t, k),
            i <= ch.len(),
            res@ == ch@.take(i as int).filter(pred),
            forall|q: int| 0 <= q < res@.len() ==> (#[trigger] res@[q]) < t.len() && t[res@[q] as int].parent == Some(p),
        decreases ch.len() - i,
    {
        let x = ch[i];
        proof {
            assert(ch@.take(i as int).push(x) =~= ch@.take(i as int + 1));
            ch@.take(i as int).lemma_filter_push(x, pred);
            assert(t[p as int].children[i as int] == x);
        }
        if tree.kind(x) == k {
            res.push(x);
        }
        i = i + 1;
    }
    proof {
        assert(ch@.take(ch.len() as int) =~= ch@);
    }
    res
}

/// The monitor at `index` displays a workspace: that workspace, to focus.
pub open spec fn spec_focus_monitor(t: Seq<ContainerView>, root: usize, index: usize) -> Result<usize, WmError> {
    let ms = monitors_of(t, root);
    if index >= ms.len() {
        Err(WmError::MonitorNotFound)
    } else {
        match displayed_workspace(t, ms[index as int]) {
            None => Err(WmError::NoDisplayedWorkspace),
            Some(w) => Ok(w),
        }
    }
}

/// Focusing a monitor by index: returns the workspace it displays, which
/// is then focused by name (see [`spec_focus_monitor`]).
pub fn focus_monitor(tree: &ContainerTree, root: usize, index: usize) -> (res: Result<usize, WmError>)
    requires
        tree_wf(tree@),
        root < tree@.len(),
    ensures
        res == spec_focus_monitor(tree@, root, index),
        res matches Ok(w) ==> w < tree@.len(),
{
    let ms = children_of_kind(tree, root, ContainerKind::Monitor);
    if index >= ms.len() {
        return Err(WmError::MonitorNotFound);
    }
    match displayed_workspace_of(tree, ms[index]) {
        None => Err(WmError::NoDisplayedWorkspace),
        Some(w) => Ok(w),
    }
}

/// What moving a workspace to another monitor leaves to do.
#[derive(Clone, Copy, Debug, PartialEq, Eq, Structural)]
pub struct WorkspaceMoved {
    pub workspace: usize,
    /// The monitor the workspace left.
    pub origin: usize,
    /// The workspace the target monitor displays, to redraw.
    pub displayed_on_target: usize,
    /// The workspace the origin monitor displays, to redraw; `None` when the
    /// origin monitor has no workspace left and needs one activated.
    pub origin_displayed: Option<usize>,
}

/// Moving workspace `ws` to the end of monitor `target`'s children; it
/// needs the workspace's monitor and the workspace that `target` displays.
pub open spec fn spec_move_workspace_to_monitor(t: Seq<ContainerView>, ws: usize, target: usize) -> (Seq<ContainerView>, Result<WorkspaceMoved, WmError>) {
    match monitor_of(t, ws) {
        None => (t, Err(WmError::NoMonitor)),
        Some(origin) => match displayed_workspace(t, target) {
            None => (t, Err(WmError::NoDisplayedWorkspace)),
            Some(d) => {
                let r = spec_try_move(t, ws, target, t[target as int].children.len() as usize);
                match r.1 {
                    Err(e) => (r.0, Err(WmError::Tree(e))),
                    Ok(()) => {
                        let t2 = r.0;
                        if t2[origin as int].children.len() == 0 {
                            (t2, Ok(WorkspaceMoved { workspace: ws, origin, displayed_on_target: d, origin_displayed: None }))
                        } else {
                            match displayed_workspace(t2, origin) {
                                None => (t2, Err(WmError::NoDisplayedWorkspace)),
                                Some(od) => (t2, Ok(WorkspaceMoved { workspace: ws, origin, displayed_on_target: d, origin_displayed: Some(od) })),
                            }
                        }
                    },
                }
            },
        },
    }
}

/// See [`spec_move_workspace_to_monitor`].
pub fn move_workspace_to_monitor(tree: &mut ContainerTree, ws: usize, target: usize) -> (res: Result<WorkspaceMoved, WmError>)
    requires
        tree_wf(old(tree)@),
        ws < old(tree)@.len(),
        target < old(tree)@.len(),
    ensures
        tree_wf(final(tree)@),
        final(tree)@.len() == old(tree)@.len(),
        (final(tree)@, res) == spec_move_workspace_to_monitor(old(tree)@, ws, target),
{
    let origin = match tree.nearest(ws, KindClass::Monitor) {
        None => { return Err(WmError::NoMonitor); },
        Some(m) => m,
    };
    let d = match displayed_workspace_of(tree, target) {
        None => { return Err(WmError::NoDisplayedWorkspace); },
        Some(d) => d,
    };
    let n = tree.child_count(target);
    match move_container_within_tree(tree, ws, target, n) {
        Err(e) => { return Err(WmError::Tree(e)); },
        Ok(()) => {},
    }
    if tree.child_count(origin) == 0 {
        return Ok(WorkspaceMoved { workspace: ws, origin, displayed_on_target: d, origin_displayed: None });
    }
    match displayed_workspace_of(tree, origin) {
        None => Err(WmError::NoDisplayedWorkspace),
        Some(od) => Ok(WorkspaceMoved { workspace: ws, origin, displayed_on_target: d, origin_displayed: Some(od) }),
    }
}

/// Moving each of `wss` in turn to `target`, up to the first failure.
pub open spec fn spec_move_workspaces(t: Seq<ContainerView>, wss: Seq<usize>, target: usize) -> (Seq<ContainerView>, Result<Seq<WorkspaceMoved>, WmError>)
    decreases wss.len(),
{
    if wss.len() == 0 {
        (t, Ok(Seq::empty()))
    } else {
        let r = spec_move_workspaces(t, wss.drop_last(), target);
        match r.1 {
            Err(e) => (r.0, Err(e)),
            Ok(done) => {
                let m = spec_move_workspace_to_monitor(r.0, wss.last(), target);
                match m.1 {
                    Err(e) => (m.0, Err(e)),
                    Ok(o) => (m.0, Ok(done.push(o))),
                }
            },
        }
    }
}

proof fn lemma_move_workspaces_err_prefix(t: Seq<ContainerView>, wss: Seq<usize>, k: int, target: usize)
    requires
        0 <= k <= wss.len(),
        spec_move_workspaces(t, wss.take(k), target).1 is Err,
    ensures
        spec_move_workspaces(t, wss, target) == spec_move_workspaces(t, wss.take(k), target),
    decreases wss.len(),
{
    if k == wss.len() {
        assert(wss.take(k) =~= wss);
    } else {
        let d = wss.drop_last();
        assert(d.take(k) =~= wss.take(k));
        lemma_move_workspaces_err_prefix(t, d, k, target);
    }
}

/// See [`spec_move_workspaces`].
pub fn move_workspaces_to_monitor(tree: &mut ContainerTree, wss: &Vec<usize>, target: usize) -> (res: Result<Vec<WorkspaceMoved>, WmError>)
    requires
        tree_wf(old(tree)@),
        target < old(tree)@.len(),
        forall|k: int| 0 <= k < wss@.len() ==> (#[trigger] wss@[k]) < old(tree)@.len(),
    ensures
        tree_wf(final(tree)@),
        final(tree)@.len() == old(tree)@.len(),
        final(tree)@ == spec_move_workspaces(old(tree)@, wss@, target).0,
        match (res, spec_move_workspaces(old(tree)@, wss@, target).1) {
            (Ok(v), Ok(s)) => v@ == s,
            (Err(e), Err(f)) => e == f,
            _ => false,
        },
{
    let ghost t = old(tree)@;
    let mut done: Vec<WorkspaceMoved> = Vec::new();
    let mut i: usize = 0;
    proof {
        assert(wss@.take(0) =~= Seq::<usize>::empty());
    }
    while i < wss.len()
        invariant
            t == old(tree)@,
            tree_wf(tree@),
            tree@.len() == t.len(),
            target < t.len(),
            forall|k: int| 0 <= k < wss@.len() ==> (#[trigger] wss@[k]) < t.len(),
            i <= wss.len(),
            (tree@, Ok::<Seq<WorkspaceMoved>, WmError>(done@)) == spec_move_workspaces(t, wss@.take(i as int), target),
        decreases wss.len() - i,
    {
        proof {
            let xs = wss@.take(i as int + 1);
            assert(xs.drop_last() =~= wss@.take(i as int));
            assert(xs.last() == wss@[i as int]);
        }
        match move_workspace_to_monitor(tree, wss[i], target) {
            Err(e) => {
                proof {
                    lemma_move_workspaces_err_prefix(t, wss@, i as int + 1, target);
                }
                return Err(e);
            },
            Ok(o) => { done.push(o); },
        }
        i = i + 1;
    }
    proof {
        assert(wss@.take(wss.len() as int) =~= wss@);
    }
    Ok(done)
}


/// Moving each of `wss` in turn to the end of `target`, up to the first
/// failure.
pub open spec fn spec_move_all(t: Seq<ContainerView>, wss: Seq<usize>, target: usize) -> (Seq<ContainerView>, Result<(), TreeError>)
    decreases wss.len(),
{
    if wss.len() == 0 {
        (t, Ok(()))
    } else {
        let r = spec_move_all(t, wss.drop_last(), target);
        match r.1 {
            Err(e) => r,
            Ok(()) => spec_try_move(r.0, wss.last(), target, r.0[target as int].children.len() as usize),
        }
    }
}

proof fn lemma_move_all_err_prefix(t: Seq<ContainerView>, wss: Seq<usize>, k: int, target: usize)
    requires
        0 <= k <= wss.len(),
        spec_move_all(t, wss.take(k), target).1 is Err,
    ensures
        spec_move_all(t, wss, target) == spec_move_all(t, wss.take(k), target),
    decreases wss.len(),
{
    if k == wss.len() {
        assert(wss.take(k) =~= wss);
    } else {
        let d = wss.drop_last();
        assert(d.take(k) =~= wss.take(k));
        lemma_move_all_err_prefix(t, d, k, target);
    }
}

fn move_all(tree: &mut ContainerTree, wss: &Vec<usize>, target: usize) -> (res: Result<(), TreeError>)
    requires
        tree_wf(old(tree)@),
        target < old(tree)@.len(),
        forall|k: int| 0 <= k < wss@.len() ==> (#[trigger] wss@[k]) < old(tree)@.len(),
    ensures
        tree_wf(final(tree)@),
        final(tree)@.len() == old(tree)@.len(),
        (final(tree)@, res) == spec_move_all(old(tree)@, wss@, target),
{
    let ghost t = old(tree)@;
    let mut i: usize = 0;
    proof {
        assert(wss@.take(0) =~= Seq::<usize>::empty());
    }
    while i < wss.len()
        invariant
            t == old(tree)@,
            tree_wf(tree@),
            tree@.len() == t.len(),
            target < t.len(),
            forall|k: int| 0 <= k < wss@.len() ==> (#[trigger] wss@[k]) < t.len(),
            i <= wss.len(),
            (tree@, Ok::<(), TreeError>(())) == spec_move_all(t, wss@.take(i as int), target),
        decreases wss.len() - i,
    {
        proof {
            let xs = wss@.take(i as int + 1);
            assert(xs.drop_last() =~= wss@.take(i as int));
            assert(xs.last() == wss@[i as int]);
        }
        let n = tree.child_count(target);
        match move_container_within_tree(tree, wss[i], target, n) {
            Err(e) => {
                proof {
                    lemma_move_all_err_prefix(t, wss@, i as int + 1, target);
                }
                return Err(e);
            },
            Ok(()) => {},
        }
        i = i + 1;
    }
    proof {
        assert(wss@.take(wss.len() as int) =~= wss@);
    }
    Ok(())
}

/// The workspaces of `m` worth keeping: those with children or kept alive
/// by the configuration.
pub open spec fn keep_pred(t: Seq<ContainerView>, keep_alive: Seq<bool>) -> spec_fn(usize) -> bool {
    |w: usize| t[w as int].children.len() > 0 || keep_alive[w as int]
}

/// Removing monitor `m`: its workspaces worth keeping move, in order, to
/// the first other monitor, and `m` is detached. Returns the workspaces
/// that moved.
pub open spec fn spec_remove_monitor(t: Seq<ContainerView>, root: usize, m: usize, keep_alive: Seq<bool>) -> (Seq<ContainerView>, Result<Seq<usize>, WmError>) {
    let others = monitors_of(t, root).filter(ne_pred(m));
    if others.len() == 0 {
        (t, Err(WmError::NoTargetMonitor))
    } else {
        let target = others[0];
        let wss = monitor_workspaces(t, m).filter(keep_pred(t, keep_alive));
        let r = spec_move_all(t, wss, target);
        match r.1 {
            Err(e) => (r.0, Err(WmError::Tree(e))),
            Ok(()) => match detach_error(r.0, m) {
                Some(e) => (r.0, Err(WmError::Tree(e))),
                None => (spec_detach(r.0, m), Ok(wss)),
            },
        }
    }
}

/// See [`spec_remove_monitor`].
pub fn remove_monitor(tree: &mut ContainerTree, root: usize, m: usize, keep_alive: &Vec<bool>) -> (res: Result<Vec<usize>, WmError>)
    requires
        tree_wf(old(tree)@),
        root < old(tree)@.len(),
        m < old(tree)@.len(),
        keep_alive@.len() == old(tree)@.len(),
    ensures
        tree_wf(final(tree)@),
        final(tree)@.len() == old(tree)@.len(),
        final(tree)@ == spec_remove_monitor(old(tree)@, root, m, keep_alive@).0,
        match (res, spec_remove_monitor(old(tree)@, root, m, keep_alive@).1) {
            (Ok(v), Ok(s)) => v@ == s,
            (Err(e), Err(f)) => e == f,
            _ => false,
        },
{
    let ghost t = tree@;
    let ms = children_of_kind(tree, root, ContainerKind::Monitor);
    let others = without(&ms, m);
    if others.len() == 0 {
        return Err(WmError::NoTargetMonitor);
    }
    let target = others[0];
    proof {
        assert(others@.contains(target));
        crate::seqs::lemma_filter_contains_iff(ms@, ne_pred(m), target);
        let j = choose|j: int| 0 <= j < ms@.len() && ms@[j] == target;
    }
    let own = children_of_kind(tree, m, ContainerKind::Workspace);
    let ghost kp = keep_pred(t, keep_alive@);
    let mut wss: Vec<usize> = Vec::new();
    let mut i: usize = 0;
    proof {
        assert(own@.take(0).filter(kp) =~= Seq::<usize>::empty());
    }
    while i < own.len()
        invariant
            t == tree@,
            keep_alive@.len() == t.len(),
            forall|q: int| 0 <= q < own@.len() ==> (#[trigger] own@[q]) < t.len(),
            kp == keep_pred(t, keep_alive@),
            i <= own.len(),
            wss@ == own@.take(i as int).filter(kp),
            forall|q: int| 0 <= q < wss@.len() ==> (#[trigger] wss@[q]) < t.len(),
        decreases own.len() - i,
    {
        let w = own[i];
        proof {
            assert(own@.take(i as int).push(w) =~= own@.take(i as int + 1));
            own@.take(i as int).lemma_filter_push(w, kp);
        }
        if tree.child_count(w) > 0 || keep_alive[w] {
            wss.push(w);
        }
        i = i + 1;
    }
    proof {
        assert(own@.take(own.len() as int) =~= own@);
    }
    match move_all(tree, &wss, target) {
        Err(e) => { return Err(WmError::Tree(e)); },
        Ok(()) => {},
    }
    match detach_container(tree, m) {
        Err(e) => Err(WmError::Tree(e)),
        Ok(()) => Ok(wss),
    }
}

// ---------------------------------------------------------------------
// Disconnected monitors.
// ---------------------------------------------------------------------

/// How long a disconnected monitor is remembered, in milliseconds.
pub const GHOST_TTL_MS: u64 = 3_600_000;

/// What is remembered of a monitor after it was disconnected, so that its
/// workspaces can return when it reconnects.
#[derive(Debug)]
pub struct DisconnectedMonitor {
    pub device_path: Option<String>,
    pub hardware_id: Option<String>,
    pub device_name: String,
    /// Its workspaces' names, the displayed one first.
    pub workspace_names: Vec<String>,
    /// When it was disconnected, in milliseconds of a monotonic clock.
    pub disconnected_at: u64,
}

pub open spec fn opt_chars(o: Option<String>) -> Option<Seq<char>> {
    match o {
        Some(s) => Some(s@),
        None => None,
    }
}

/// A record is replaced by a new one for the same device: same device
/// path, or same hardware id (each only when the new record has one).
pub open spec fn same_device(dm: DisconnectedMonitor, device_path: Option<Seq<char>>, hardware_id: Option<Seq<char>>) -> bool {
    (device_path is Some && opt_chars(dm.device_path) == device_path)
    || (hardware_id is Some && opt_chars(dm.hardware_id) == hardware_id)
}

/// A record has expired at `now` when [`GHOST_TTL_MS`] or more have passed
/// since the disconnection.
pub open spec fn expired(dm: DisconnectedMonitor, now: u64) -> bool {
    now >= dm.disconnected_at && now - dm.disconnected_at >= GHOST_TTL_MS
}

/// The records after a disconnection at `now`: the records of the same
/// device and the expired records are dropped, and the new record is
/// appended.
pub open spec fn spec_record_disconnect(records: Seq<DisconnectedMonitor>, new: DisconnectedMonitor, now: u64) -> Seq<DisconnectedMonitor> {
    records.filter(|dm: DisconnectedMonitor| !same_device(dm, opt_chars(new.device_path), opt_chars(new.hardware_id)))
        .filter(|dm: DisconnectedMonitor| !expired(dm, now))
        .push(new)
}

fn opt_eq(a: &Option<String>, b: &Option<String>) -> (res: bool)
    ensures
        res == (opt_chars(*a) == opt_chars(*b)),
{
    match (a, b) {
        (Some(x), Some(y)) => *x == *y,
        (None, None) => true,
        _ => false,
    }
}

/// Records a disconnected monitor (see [`spec_record_disconnect`]).
pub fn record_disconnect(records: &mut Vec<DisconnectedMonitor>, new: DisconnectedMonitor, now: u64)
    ensures
        final(records)@ == spec_record_disconnect(old(records)@, new, now),
{
    let ghost p1 = |dm: DisconnectedMonitor| !same_device(dm, opt_chars(new.device_path), opt_chars(new.hardware_id));
    let ghost p2 = |dm: DisconnectedMonitor| !expired(dm, now);
    let ghost orig = records@;
    let mut rest: Vec<DisconnectedMonitor> = Vec::new();
    std::mem::swap(records, &mut rest);
    let ghost n = rest@.len();
    let mut kept: Vec<DisconnectedMonitor> = Vec::new();
    proof {
        assert(orig.take(0).filter(p1) =~= Seq::<DisconnectedMonitor>::empty());
        assert(orig.skip(0) =~= orig);
    }
    while rest.len() > 0
        invariant
            rest@.len() <= n,
            n == orig.len(),
            rest@ == orig.skip(n - rest@.len()),
            kept@ == orig.take(n - rest@.len()).filter(p1),
            p1 == (|dm: DisconnectedMonitor| !same_device(dm, opt_chars(new.device_path), opt_chars(new.hardware_id))),
        decreases rest@.len(),
    {
        let ghost i = n - rest@.len();
        let dm = rest.remove(0);
        proof {
            assert(dm == orig[i]);
            assert(orig.take(i).push(dm) =~= orig.take(i + 1));
            orig.take(i).lemma_filter_push(dm, p1);
            assert(rest@ =~= orig.skip(i + 1));
        }
        let path_match = new.device_path.is_some() && opt_eq(&dm.device_path, &new.device_path);
        let hw_match = new.hardware_id.is_some() && opt_eq(&dm.hardware_id, &new.hardware_id);
        if !path_match && !hw_match {
            kept.push(dm);
        }
    }
    proof {
        assert(orig.take(n as int) =~= orig);
    }
    let ghost first = kept@;
    let mut out: Vec<DisconnectedMonitor> = Vec::new();
    let ghost m = kept@.len();
    proof {
        assert(first.take(0).filter(p2) =~= Seq::<DisconnectedMonitor>::empty());
        assert(first.skip(0) =~= first);
    }
    while kept.len() > 0
        invariant
            kept@.len() <= m,
            m == first.len(),
            kept@ == first.skip(m - kept@.len()),
            out@ == first.take(m - kept@.len()).filter(p2),
            p2 == (|dm: DisconnectedMonitor| !expired(dm, now)),
        decreases kept@.len(),
    {
        let ghost i = m - kept@.len();
        let dm = kept.remove(0);
        proof {
            assert(dm == first[i]);
            assert(first.take(i).push(dm) =~= first.take(i + 1));
            first.take(i).lemma_filter_push(dm, p2);
            assert(kept@ =~= first.skip(i + 1));
        }
        let gone = now >= dm.disconnected_at && now - dm.disconnected_at >= GHOST_TTL_MS;
        if !gone {
            out.push(dm);
        }
    }
    proof {
        assert(first.take(m as int) =~= first);
    }
    out.push(new);
    *records = out;
}

/// The names of the workspaces of monitor `m`, in its focus order (the
/// displayed workspace first).
pub open spec fn workspace_names(t: Seq<ContainerView>, names: Seq<String>, m: usize) -> Seq<Seq<char>> {
    t[m as int].focus.filter(kind_pred(t, ContainerKind::Workspace)).map_values(|w: usize| names[w as int]@)
}

pub open spec fn string_views(v: Seq<String>) -> Seq<Seq<char>> {
    v.map_values(|s: String| s@)
}

fn focused_workspace_names(tree: &ContainerTree, names: &Vec<String>, m: usize) -> (res: Vec<String>)
    requires
        tree_wf(tree@),
        m < tree@.len(),
        names@.len() == tree@.len(),
    ensures
        string_views(res@) == workspace_names(tree@, names@, m),
{
    let ghost t = tree@;
    let f = tree.focus_order(m);
    let ghost pred = kind_pred(t, ContainerKind::Workspace);
    let ghost g = |w: usize| names@[w as int]@;
    let mut res: Vec<String> = Vec::new();
    let mut i: usize = 0;
    proof {
        assert(crate::tree::focus_ok(t, m as int));
        assert(links_ok(t, m as int));
        assert forall|k: int| 0 <= k < f@.len() implies (#[trigger] f@[k]) < t.len() by {
            assert(t[m as int].focus.contains(f@[k]));
            let j = choose|j: int| 0 <= j < t[m as int].children.len() && t[m as int].children[j] == f@[k];
            assert(t[m as int].children[j] < t.len());
        }
        assert(string_views(res@) =~= f@.take(0).filter(pred).map_values(g));
    }
    while i < f.len()
        invariant
            t == tree@,
            names@.len() == t.len(),
            f@ == t[m as int].focus,
            forall|k: int| 0 <= k < f@.len() ==> (#[trigger] f@[k]) < t.len(),
            pred == kind_pred(t, ContainerKind::Workspace),
            g == (|w: usize| names@[w as int]@),
            i <= f.len(),
            string_views(res@) == f@.take(i as int).filter(pred).map_values(g),
        decreases f.len() - i,
    {
        let x = f[i];
        proof {
            assert(f@.take(i as int).push(x) =~= f@.take(i as int + 1));
            f@.take(i as int).lemma_filter_push(x, pred);
        }
        if tree.kind(x) == ContainerKind::Workspace {
            let ghost before = res@;
            res.push(names[x].clone());
            proof {
                assert(string_views(res@) =~= string_views(before).push(names@[x as int]@));
                assert(f@.take(i as int + 1).filter(pred) == f@.take(i as int).filter(pred).push(x));
                assert(f@.take(i as int + 1).filter(pred).map_values(g) =~= f@.take(i as int).filter(pred).map_values(g).push(g(x)));
            }
        }
        i = i + 1;
    }
    proof {
        assert(f@.take(f.len() as int) =~= f@);
    }
    res
}

/// The identity of a monitor as the platform reports it.
pub struct MonitorIdentity {
    pub device_path: Option<String>,
    pub hardware_id: Option<String>,
    pub device_name: String,
}

/// Disconnecting monitor `m` at `now`: a record of it with its workspace
/// names is kept (see [`spec_record_disconnect`]), then it is removed (see
/// [`spec_remove_monitor`]).
pub fn disconnect_monitor(
    tree: &mut ContainerTree,
    root: usize,
    m: usize,
    names: &Vec<String>,
    keep_alive: &Vec<bool>,
    records: &mut Vec<DisconnectedMonitor>,
    identity: MonitorIdentity,
    now: u64,
) -> (res: Result<Vec<usize>, WmError>)
    requires
        tree_wf(old(tree)@),
        root < old(tree)@.len(),
        m < old(tree)@.len(),
        names@.len() == old(tree)@.len(),
        keep_alive@.len() == old(tree)@.len(),
    ensures
        exists|r: DisconnectedMonitor| {
            &&& final(records)@ == spec_record_disconnect(old(records)@, r, now)
            &&& opt_chars(r.device_path) == opt_chars(identity.device_path)
            &&& opt_chars(r.hardware_id) == opt_chars(identity.hardware_id)
            &&& r.device_name@ == identity.device_name@
            &&& string_views(r.workspace_names@) == workspace_names(old(tree)@, names@, m)
            &&& r.disconnected_at == now
        },
        tree_wf(final(tree)@),
        final(tree)@ == spec_remove_monitor(old(tree)@, root, m, keep_alive@).0,
        match (res, spec_remove_monitor(old(tree)@, root, m, keep_alive@).1) {
            (Ok(v), Ok(s)) => v@ == s,
            (Err(e), Err(f)) => e == f,
            _ => false,
        },
{
    let workspace_names = focused_workspace_names(tree, names, m);
    let r = DisconnectedMonitor {
        device_path: identity.device_path,
        hardware_id: identity.hardware_id,
        device_name: identity.device_name,
        workspace_names,
        disconnected_at: now,
    };
    let ghost rv = r;
    record_disconnect(records, r, now);
    proof {
        assert(records@ == spec_record_disconnect(old(records)@, rv, now));
    }
    remove_monitor(tree, root, m, keep_alive)
}


// ---------------------------------------------------------------------
// Workspaces and the monitor topology.
// ---------------------------------------------------------------------

/// The workspaces of each of the monitors `ms`, in turn.
pub open spec fn workspaces_in(t: Seq<ContainerView>, ms: Seq<usize>) -> Seq<usize>
    decreases ms.len(),
{
    if ms.len() == 0 {
        Seq::empty()
    } else {
        workspaces_in(t, ms.drop_last()) + monitor_workspaces(t, ms.last())
    }
}

/// The first of `ws` named `name`.
pub open spec fn first_named(ws: Seq<usize>, names: Seq<String>, name: Seq<char>) -> Option<usize>
    decreases ws.len(),
{
    if ws.len() == 0 {
        None
    } else if names[ws[0] as int]@ == name {
        Some(ws[0])
    } else {
        first_named(ws.drop_first(), names, name)
    }
}

/// The workspace named `name`, looked up monitor by monitor.
pub open spec fn workspace_by_name(t: Seq<ContainerView>, root: usize, names: Seq<String>, name: Seq<char>) -> Option<usize> {
    first_named(workspaces_in(t, monitors_of(t, root)), names, name)
}

pub fn workspaces_of_monitors(tree: &ContainerTree, ms: &Vec<usize>) -> (res: Vec<usize>)
    requires
        tree_wf(tree@),
        forall|k: int| 0 <= k < ms@.len() ==> (#[trigger] ms@[k]) < tree@.len(),
    ensures
        res@ == workspaces_in(tree@, ms@),
        forall|k: int| 0 <= k < res@.len() ==> (#[trigger] res@[k]) < tree@.len(),
{
    let ghost t = tree@;
    let mut res: Vec<usize> = Vec::new();
    let mut i: usize = 0;
    proof {
        assert(ms@.take(0) =~= Seq::<usize>::empty());
    }
    while i < ms.len()
        invariant
            t == tree@,
            tree_wf(t),
            forall|k: int| 0 <= k < ms@.len() ==> (#[trigger] ms@[k]) < t.len(),
            i <= ms.len(),
            res@ == workspaces_in(t, ms@.take(i as int)),
            forall|k: int| 0 <= k < res@.len() ==> (#[trigger] res@[k]) < t.len(),
        decreases ms.len() - i,
    {
        let own = children_of_kind(tree, ms[i], ContainerKind::Workspace);
        let ghost before = res@;
        res = crate::seqs::concat(&res, &own);
        proof {
            let xs = ms@.take(i as int + 1);
            assert(xs.drop_last() =~= ms@.take(i as int));
            assert(xs.last() == ms@[i as int]);
            assert forall|k: int| 0 <= k < res@.len() implies (#[trigger] res@[k]) < t.len() by {
                if k < before.len() {
                    assert(res@[k] == before[k]);
                } else {
                    assert(res@[k] == own@[k - before.len()]);
                }
            }
        }
        i = i + 1;
    }
    proof {
        assert(ms@.take(ms.len() as int) =~= ms@);
    }
    res
}

pub fn find_named(ws: &Vec<usize>, names: &Vec<String>, name: &String) -> (res: Option<usize>)
    requires
        forall|k: int| 0 <= k < ws@.len() ==> (#[trigger] ws@[k]) < names@.len(),
    ensures
        res == first_named(ws@, names@, name@),
        res matches Some(w) ==> ws@.contains(w),
{
    let mut i: usize = 0;
    proof {
        assert(ws@.skip(0) =~= ws@);
    }
    while i < ws.len()
        invariant
            forall|k: int| 0 <= k < ws@.len() ==> (#[trigger] ws@[k]) < names@.len(),
            i <= ws.len(),
            first_named(ws@, names@, name@) == first_named(ws@.skip(i as int), names@, name@),
        decreases ws.len() - i,
    {
        proof {
            assert(ws@.skip(i as int).drop_first() =~= ws@.skip(i as int + 1));
            assert(ws@.skip(i as int)[0] == ws@[i as int]);
        }
        if names[ws[i]] == *name {
            return Some(ws[i]);
        }
        i = i + 1;
    }
    None
}

/// A workspace of the configuration, with the index of the monitor it is
/// bound to, if any.
pub struct WorkspaceBinding {
    pub name: String,
    pub bind_to_monitor: Option<u32>,
}

/// One binding's rebind: the named workspace moves to the monitor at its
/// index in `ms` when both exist and the workspace is elsewhere.
pub open spec fn spec_rebind_one(t: Seq<ContainerView>, root: usize, ms: Seq<usize>, names: Seq<String>, b: WorkspaceBinding) -> (Seq<ContainerView>, Result<Option<WorkspaceMoved>, WmError>) {
    match b.bind_to_monitor {
        None => (t, Ok(None)),
        Some(index) => match workspace_by_name(t, root, names, b.name@) {
            None => (t, Ok(None)),
            Some(ws) => if index as int >= ms.len() {
                (t, Ok(None))
            } else {
                let target = ms[index as int];
                match monitor_of(t, ws) {
                    None => (t, Err(WmError::NoMonitor)),
                    Some(cur) => if cur == target {
                        (t, Ok(None))
                    } else {
                        let m = spec_move_workspace_to_monitor(t, ws, target);
                        match m.1 {
                            Err(e) => (m.0, Err(e)),
                            Ok(o) => (m.0, Ok(Some(o))),
                        }
                    },
                }
            },
        },
    }
}

pub open spec fn option_push(s: Seq<WorkspaceMoved>, o: Option<WorkspaceMoved>) -> Seq<WorkspaceMoved> {
    match o {
        Some(x) => s.push(x),
        None => s,
    }
}

/// Rebinding for each binding in turn, up to the first failure; `ms` is
/// the monitor order when the rebind started.
pub open spec fn spec_rebind(t: Seq<ContainerView>, root: usize, ms: Seq<usize>, names: Seq<String>, bs: Seq<WorkspaceBinding>) -> (Seq<ContainerView>, Result<Seq<WorkspaceMoved>, WmError>)
    decreases bs.len(),
{
    if bs.len() == 0 {
        (t, Ok(Seq::empty()))
    } else {
        let r = spec_rebind(t, root, ms, names, bs.drop_last());
        match r.1 {
            Err(e) => (r.0, Err(e)),
            Ok(done) => {
                let m = spec_rebind_one(r.0, root, ms, names, bs.last());
                match m.1 {
                    Err(e) => (m.0, Err(e)),
                    Ok(o) => (m.0, Ok(option_push(done, o))),
                }
            },
        }
    }
}

proof fn lemma_rebind_err_prefix(t: Seq<ContainerView>, root: usize, ms: Seq<usize>, names: Seq<String>, bs: Seq<WorkspaceBinding>, k: int)
    requires
        0 <= k <= bs.len(),
        spec_rebind(t, root, ms, names, bs.take(k)).1 is Err,
    ensures
        spec_rebind(t, root, ms, names, bs) == spec_rebind(t, root, ms, names, bs.take(k)),
    decreases bs.len(),
{
    if k == bs.len() {
        assert(bs.take(k) =~= bs);
    } else {
        let d = bs.drop_last();
        assert(d.take(k) =~= bs.take(k));
        lemma_rebind_err_prefix(t, root, ms, names, d, k);
    }
}

fn rebind_one(tree: &mut ContainerTree, root: usize, ms: &Vec<usize>, names: &Vec<String>, b: &WorkspaceBinding) -> (res: Result<Option<WorkspaceMoved>, WmError>)
    requires
        tree_wf(old(tree)@),
        root < old(tree)@.len(),
        names@.len() == old(tree)@.len(),
        forall|k: int| 0 <= k < ms@.len() ==> (#[trigger] ms@[k]) < old(tree)@.len(),
    ensures
        tree_wf(final(tree)@),
        final(tree)@.len() == old(tree)@.len(),
        (final(tree)@, res) == spec_rebind_one(old(tree)@, root, ms@, names@, *b),
{
    let index = match b.bind_to_monitor {
        None => { return Ok(None); },
        Some(i) => i as usize,
    };
    let mons = children_of_kind(tree, root, ContainerKind::Monitor);
    let all = workspaces_of_monitors(tree, &mons);
    let ws = match find_named(&all, names, &b.name) {
        None => { return Ok(None); },
        Some(ws) => ws,
    };
    proof {
        let j = choose|j: int| 0 <= j < all@.len() && all@[j] == ws;
    }
    if index >= ms.len() {
        return Ok(None);
    }
    let target = ms[index];
    let cur = match tree.nearest(ws, KindClass::Monitor) {
        None => { return Err(WmError::NoMonitor); },
        Some(c) => c,
    };
    if cur == target {
        return Ok(None);
    }
    match move_workspace_to_monitor(tree, ws, target) {
        Err(e) => Err(e),
        Ok(o) => Ok(Some(o)),
    }
}

/// Moves the workspaces bound to a monitor index onto the monitor now at
/// that index (see [`spec_rebind`]); returns the moves made.
pub fn rebind_workspaces_to_monitors(tree: &mut ContainerTree, root: usize, names: &Vec<String>, bindings: &Vec<WorkspaceBinding>) -> (res: Result<Vec<WorkspaceMoved>, WmError>)
    requires
        tree_wf(old(tree)@),
        root < old(tree)@.len(),
        names@.len() == old(tree)@.len(),
    ensures
        tree_wf(final(tree)@),
        final(tree)@ == spec_rebind(old(tree)@, root, monitors_of(old(tree)@, root), names@, bindings@).0,
        match (res, spec_rebind(old(tree)@, root, monitors_of(old(tree)@, root), names@, bindings@).1) {
            (Ok(v), Ok(s)) => v@ == s,
            (Err(e), Err(f)) => e == f,
            _ => false,
        },
{
    let ghost t = old(tree)@;
    let ms = children_of_kind(tree, root, ContainerKind::Monitor);
    let mut done: Vec<WorkspaceMoved> = Vec::new();
    let mut i: usize = 0;
    proof {
        assert(bindings@.take(0) =~= Seq::<WorkspaceBinding>::empty());
    }
    while i < bindings.len()
        invariant
            t == old(tree)@,
            tree_wf(tree@),
            tree@.len() == t.len(),
            root < t.len(),
            names@.len() == t.len(),
            ms@ == monitors_of(t, root),
            forall|k: int| 0 <= k < ms@.len() ==> (#[trigger] ms@[k]) < t.len(),
            i <= bindings.len(),
            (tree@, Ok::<Seq<WorkspaceMoved>, WmError>(done@)) == spec_rebind(t, root, ms@, names@, bindings@.take(i as int)),
        decreases bindings.len() - i,
    {
        proof {
            let xs = bindings@.take(i as int + 1);
            assert(xs.drop_last() =~= bindings@.take(i as int));
            assert(xs.last() == bindings@[i as int]);
        }
        match rebind_one(tree, root, &ms, names, &bindings[i]) {
            Err(e) => {
                proof {
                    lemma_rebind_err_prefix(t, root, ms@, names@, bindings@, i as int + 1);
                }
                return Err(e);
            },
            Ok(Some(o)) => { done.push(o); },
            Ok(None) => {},
        }
        i = i + 1;
    }
    proof {
        assert(bindings@.take(bindings.len() as int) =~= bindings@);
    }
    Ok(done)
}

/// Moving every workspace of the monitors other than `primary` onto it, in
/// monitor order.
pub open spec fn spec_consolidate(t: Seq<ContainerView>, root: usize, primary: Option<usize>) -> (Seq<ContainerView>, Result<Seq<WorkspaceMoved>, WmError>) {
    match primary {
        None => (t, Err(WmError::NoPrimaryMonitor)),
        Some(p) => spec_move_workspaces(t, workspaces_in(t, monitors_of(t, root).filter(ne_pred(p))), p),
    }
}

/// Moves every workspace off the monitors other than the primary one (see
/// [`spec_consolidate`]); returns the moves made.
pub fn consolidate_non_primary_workspaces_onto_primary(tree: &mut ContainerTree, root: usize, primary: Option<usize>) -> (res: Result<Vec<WorkspaceMoved>, WmError>)
    requires
        tree_wf(old(tree)@),
        root < old(tree)@.len(),
        primary matches Some(p) ==> p < old(tree)@.len(),
    ensures
        tree_wf(final(tree)@),
        final(tree)@ == spec_consolidate(old(tree)@, root, primary).0,
        match (res, spec_consolidate(old(tree)@, root, primary).1) {
            (Ok(v), Ok(s)) => v@ == s,
            (Err(e), Err(f)) => e == f,
            _ => false,
        },
{
    let p = match primary {
        None => { return Err(WmError::NoPrimaryMonitor); },
        Some(p) => p,
    };
    let ms = children_of_kind(tree, root, ContainerKind::Monitor);
    let others = without(&ms, p);
    proof {
        assert forall|k: int| 0 <= k < others@.len() implies (#[trigger] others@[k]) < tree@.len() by {
            assert(others@.contains(others@[k]));
            crate::seqs::lemma_filter_contains_iff(ms@, ne_pred(p), others@[k]);
            let j = choose|j: int| 0 <= j < ms@.len() && ms@[j] == others@[k];
        }
    }
    let wss = workspaces_of_monitors(tree, &others);
    move_workspaces_to_monitor(tree, &wss, p)
}

/// What matching workspaces to the monitor topology did.
pub enum TopologySync {
    /// With workspaces on every monitor: bind workspaces to each of these
    /// monitors, and give each at least one workspace.
    BindWorkspaces(Vec<usize>),
    /// With workspaces on the primary monitor only: the moves made.
    Consolidated(Vec<WorkspaceMoved>),
}

/// Matches workspace placement to the monitor topology: with workspaces on
/// every monitor, each monitor gets its bound workspaces (returned for the
/// caller to bind, in monitor order); otherwise all workspaces move onto
/// the primary monitor.
pub fn sync_workspaces_to_monitor_topology(tree: &mut ContainerTree, root: usize, multi_monitor_workspaces: bool, primary: Option<usize>) -> (res: Result<TopologySync, WmError>)
    requires
        tree_wf(old(tree)@),
        root < old(tree)@.len(),
        primary matches Some(p) ==> p < old(tree)@.len(),
    ensures
        tree_wf(final(tree)@),
        multi_monitor_workspaces ==> final(tree)@ == old(tree)@
            && (res matches Ok(TopologySync::BindWorkspaces(ms)) && ms@ == monitors_of(old(tree)@, root)),
        !multi_monitor_workspaces ==> final(tree)@ == spec_consolidate(old(tree)@, root, primary).0
            && match (res, spec_consolidate(old(tree)@, root, primary).1) {
                (Ok(TopologySync::Consolidated(v)), Ok(s)) => v@ == s,
                (Err(e), Err(f)) => e == f,
                _ => false,
            },
{
    if multi_monitor_workspaces {
        Ok(TopologySync::BindWorkspaces(children_of_kind(tree, root, ContainerKind::Monitor)))
    } else {
        match consolidate_non_primary_workspaces_onto_primary(tree, root, primary) {
            Ok(v) => Ok(TopologySync::Consolidated(v)),
            Err(e) => Err(e),
        }
    }
}


/// Records `a` and `b` are for one device: both have the same device path,
/// or both the same hardware id.
pub open spec fn share_device(a: DisconnectedMonitor, b: DisconnectedMonitor) -> bool {
    same_device(a, opt_chars(b.device_path), opt_chars(b.hardware_id))
}

/// No two records are for one device.
pub open spec fn one_record_per_device(rs: Seq<DisconnectedMonitor>) -> bool {
    forall|i: int, j: int| 0 <= i < j < rs.len() ==> !share_device(#[trigger] rs[i], #[trigger] rs[j])
}

proof fn lemma_filter_keeps_one_per_device(s: Seq<DisconnectedMonitor>, pred: spec_fn(DisconnectedMonitor) -> bool)
    requires
        one_record_per_device(s),
    ensures
        one_record_per_device(s.filter(pred)),
    decreases s.len(),
{
    reveal(Seq::filter);
    if s.len() > 0 {
        let d = s.drop_last();
        assert(one_record_per_device(d)) by {
            assert forall|i: int, j: int| 0 <= i < j < d.len() implies !share_device(#[trigger] d[i], #[trigger] d[j]) by {
                assert(d[i] == s[i] && d[j] == s[j]);
            }
        }
        lemma_filter_keeps_one_per_device(d, pred);
        let f = d.filter(pred);
        if pred(s.last()) {
            let r = f.push(s.last());
            assert forall|i: int, j: int| 0 <= i < j < r.len() implies !share_device(#[trigger] r[i], #[trigger] r[j]) by {
                if j == r.len() - 1 {
                    assert(f.contains(f[i]));
                    crate::seqs::lemma_filter_contains_iff(d, pred, f[i]);
                    let k = choose|k: int| 0 <= k < d.len() && d[k] == f[i];
                    assert(s[k] == f[i] && s[s.len() - 1] == s.last());
                    assert(!share_device(s[k], s[s.len() - 1]));
                } else {
                    assert(r[i] == f[i] && r[j] == f[j]);
                }
            }
        }
    }
}

/// After a disconnection is recorded, the new record comes last and no
/// other record is for the same device or expired: each device keeps one
/// record, and records that had one record per device still do.
pub proof fn record_disconnect_keeps_one_per_device(records: Seq<DisconnectedMonitor>, new: DisconnectedMonitor, now: u64)
    ensures
        ({
            let r = spec_record_disconnect(records, new, now);
            &&& r.len() >= 1
            &&& r.last() == new
            &&& forall|i: int| 0 <= i < r.len() - 1 ==>
                !same_device(#[trigger] r[i], opt_chars(new.device_path), opt_chars(new.hardware_id)) && !expired(r[i], now)
            &&& one_record_per_device(records) ==> one_record_per_device(r)
        }),
{
    let p1 = |dm: DisconnectedMonitor| !same_device(dm, opt_chars(new.device_path), opt_chars(new.hardware_id));
    let p2 = |dm: DisconnectedMonitor| !expired(dm, now);
    let f1 = records.filter(p1);
    let f2 = f1.filter(p2);
    let r = f2.push(new);
    assert forall|i: int| 0 <= i < r.len() - 1 implies
        !same_device(#[trigger] r[i], opt_chars(new.device_path), opt_chars(new.hardware_id)) && !expired(r[i], now) by {
        assert(r[i] == f2[i]);
        f1.lemma_filter_pred(p2, i);
        assert(p2(f2[i]));
        assert(f2.contains(f2[i]));
        crate::seqs::lemma_filter_contains_iff(f1, p2, f2[i]);
        assert(f1.contains(f2[i]));
        let j = choose|j: int| 0 <= j < f1.len() && f1[j] == f2[i];
        records.lemma_filter_pred(p1, j);
        assert(p1(f2[i]));
    }
    if one_record_per_device(records) {
        lemma_filter_keeps_one_per_device(records, p1);
        lemma_filter_keeps_one_per_device(f1, p2);
        assert forall|i: int, j: int| 0 <= i < j < r.len() implies !share_device(#[trigger] r[i], #[trigger] r[j]) by {
            if j == r.len() - 1 {
                assert(!same_device(r[i], opt_chars(new.device_path), opt_chars(new.hardware_id)));
            } else {
                assert(r[i] == f2[i] && r[j] == f2[j]);
            }
        }
    }
}

/// Consolidating is a no-op when every workspace is on the primary
/// monitor already.
pub proof fn consolidate_is_noop_when_consolidated(t: Seq<ContainerView>, root: usize, p: usize)
    requires
        workspaces_in(t, monitors_of(t, root).filter(ne_pred(p))).len() == 0,
    ensures
        spec_consolidate(t, root, Some(p)) == (t, Ok::<Seq<WorkspaceMoved>, WmError>(Seq::empty())),
{
}


/// Attaching new monitor `m` (detached) at the end of the root's children;
/// the result is its index among the root's monitors.
pub open spec fn spec_attach_monitor(t: Seq<ContainerView>, root: usize, m: usize) -> (Seq<ContainerView>, Result<usize, WmError>) {
    if t[m as int].parent is Some {
        (t, Err(WmError::Tree(TreeError::AlreadyAttached)))
    } else {
        let t1 = crate::tree::spec_attach(t, m, root, None);
        (t1, Ok(monitors_of(t1, root).index_of(m) as usize))
    }
}

/// See [`spec_attach_monitor`].
pub fn attach_monitor(tree: &mut ContainerTree, root: usize, m: usize) -> (res: Result<usize, WmError>)
    requires
        tree_wf(old(tree)@),
        root < old(tree)@.len(),
        m < old(tree)@.len(),
        old(tree)@[m as int].kind == ContainerKind::Monitor,
    ensures
        tree_wf(final(tree)@),
        final(tree)@.len() == old(tree)@.len(),
        (final(tree)@, res) == spec_attach_monitor(old(tree)@, root, m),
{
    match crate::tree::attach_container(tree, m, root, None) {
        Ok(()) => {},
        Err(e) => { return Err(WmError::Tree(e)); },
    }
    let ms = children_of_kind(tree, root, ContainerKind::Monitor);
    proof {
        let t1 = tree@;
        assert(links_ok(t1, m as int));
        assert(t1[m as int].kind == ContainerKind::Monitor);
        crate::seqs::lemma_filter_contains_iff(t1[root as int].children, kind_pred(t1, ContainerKind::Monitor), m);
        assert(ms@.contains(m));
    }
    let k = crate::seqs::position(&ms, m).unwrap();
    proof {
        lemma_filter_no_dup_monitors(tree@, root);
        crate::tree::lemma_index_of_unique(ms@, k as int);
    }
    Ok(k)
}

proof fn lemma_filter_no_dup_monitors(t: Seq<ContainerView>, root: usize)
    requires
        tree_wf(t),
        root < t.len(),
    ensures
        monitors_of(t, root).no_duplicates(),
{
    assert(links_ok(t, root as int));
    crate::seqs::lemma_filter_no_dup(t[root as int].children, kind_pred(t, ContainerKind::Monitor));
}

/// What adding a monitor does with one workspace binding.
#[derive(Clone, Copy, Debug, PartialEq, Eq, Structural)]
pub enum MonitorBindingStep {
    /// The bound workspace existed and moved onto the new monitor.
    Moved(WorkspaceMoved),
    /// The bound workspace is kept alive but does not exist: it is
    /// activated on the new monitor.
    Activate,
}

/// One workspace binding when a monitor `m` is added at monitor index
/// `index`: a workspace bound to that index moves onto `m` when it exists,
/// or is to be activated there when it is kept alive; other bindings do
/// nothing.
pub open spec fn spec_bind_workspace_to_new_monitor(
    t: Seq<ContainerView>,
    root: usize,
    m: usize,
    index: usize,
    names: Seq<String>,
    b: WorkspaceBinding,
    keep_alive: bool,
) -> (Seq<ContainerView>, Result<Option<MonitorBindingStep>, WmError>) {
    if b.bind_to_monitor matches Some(i) && i as int == index as int {
        match workspace_by_name(t, root, names, b.name@) {
            Some(ws) => {
                let r = spec_move_workspace_to_monitor(t, ws, m);
                match r.1 {
                    Err(e) => (r.0, Err(e)),
                    Ok(o) => (r.0, Ok(Some(MonitorBindingStep::Moved(o)))),
                }
            },
            None => if keep_alive { (t, Ok(Some(MonitorBindingStep::Activate))) } else { (t, Ok(None)) },
        }
    } else {
        (t, Ok(None))
    }
}

/// See [`spec_bind_workspace_to_new_monitor`].
pub fn bind_workspace_to_new_monitor(
    tree: &mut ContainerTree,
    root: usize,
    m: usize,
    index: usize,
    names: &Vec<String>,
    b: &WorkspaceBinding,
    keep_alive: bool,
) -> (res: Result<Option<MonitorBindingStep>, WmError>)
    requires
        tree_wf(old(tree)@),
        root < old(tree)@.len(),
        m < old(tree)@.len(),
        names@.len() == old(tree)@.len(),
    ensures
        tree_wf(final(tree)@),
        final(tree)@.len() == old(tree)@.len(),
        (final(tree)@, res) == spec_bind_workspace_to_new_monitor(old(tree)@, root, m, index, names@, *b, keep_alive),
{
    let bound = match b.bind_to_monitor {
        Some(i) => i as usize == index && i as u64 == index as u64,
        None => false,
    };
    if !bound {
        return Ok(None);
    }
    let mons = children_of_kind(tree, root, ContainerKind::Monitor);
    let all = workspaces_of_monitors(tree, &mons);
    match find_named(&all, names, &b.name) {
        Some(ws) => {
            proof {
                let j = choose|j: int| 0 <= j < all@.len() && all@[j] == ws;
            }
            match move_workspace_to_monitor(tree, ws, m) {
                Err(e) => Err(e),
                Ok(o) => Ok(Some(MonitorBindingStep::Moved(o))),
            }
        },
        None => if keep_alive { Ok(Some(MonitorBindingStep::Activate)) } else { Ok(None) },
    }
}


proof fn lemma_first_named_in(ws: Seq<usize>, names: Seq<String>, name: Seq<char>)
    ensures
        first_named(ws, names, name) matches Some(x) ==> ws.contains(x),
    decreases ws.len(),
{
    if ws.len() > 0 && names[ws[0] as int]@ != name {
        lemma_first_named_in(ws.drop_first(), names, name);
        if let Some(x) = first_named(ws, names, name) {
            let k = choose|k: int| 0 <= k < ws.drop_first().len() && ws.drop_first()[k] == x;
            assert(ws[k + 1] == x);
        }
    } else if ws.len() > 0 {
        assert(ws[0] == ws[0]);
    }
}

proof fn lemma_workspaces_in_bounded(t: Seq<ContainerView>, ms: Seq<usize>)
    requires
        tree_wf(t),
        forall|k: int| 0 <= k < ms.len() ==> (#[trigger] ms[k]) < t.len(),
    ensures
        forall|k: int| 0 <= k < workspaces_in(t, ms).len() ==> (#[trigger] workspaces_in(t, ms)[k]) < t.len(),
    decreases ms.len(),
{
    if ms.len() > 0 {
        let d = ms.drop_last();
        assert forall|k: int| 0 <= k < d.len() implies (#[trigger] d[k]) < t.len() by {
            assert(d[k] == ms[k]);
        }
        lemma_workspaces_in_bounded(t, d);
        let m = ms.last();
        let b = monitor_workspaces(t, m);
        assert(links_ok(t, m as int));
        assert forall|k: int| 0 <= k < b.len() implies (#[trigger] b[k]) < t.len() by {
            assert(b.contains(b[k]));
            crate::seqs::lemma_filter_contains_iff(t[m as int].children, kind_pred(t, ContainerKind::Workspace), b[k]);
            let j = choose|j: int| 0 <= j < t[m as int].children.len() && t[m as int].children[j] == b[k];
        }
        let w = workspaces_in(t, ms);
        assert(w == workspaces_in(t, d) + b);
        assert forall|k: int| 0 <= k < w.len() implies (#[trigger] w[k]) < t.len() by {
            if k < workspaces_in(t, d).len() {
                assert(w[k] == workspaces_in(t, d)[k]);
            } else {
                assert(w[k] == b[k - workspaces_in(t, d).len()]);
            }
        }
    }
}

/// The workspace that a name leads to is a container of the tree.
proof fn lemma_workspace_by_name_in_tree(t: Seq<ContainerView>, root: usize, names: Seq<String>, name: Seq<char>)
    requires
        tree_wf(t),
        root < t.len(),
    ensures
        workspace_by_name(t, root, names, name) matches Some(ws) ==> ws < t.len(),
{
    let ms = monitors_of(t, root);
    assert(links_ok(t, root as int));
    assert forall|k: int| 0 <= k < ms.len() implies (#[trigger] ms[k]) < t.len() by {
        assert(ms.contains(ms[k]));
        crate::seqs::lemma_filter_contains_iff(t[root as int].children, kind_pred(t, ContainerKind::Monitor), ms[k]);
        let j = choose|j: int| 0 <= j < t[root as int].children.len() && t[root as int].children[j] == ms[k];
    }
    lemma_workspaces_in_bounded(t, ms);
    let w = workspaces_in(t, ms);
    lemma_first_named_in(w, names, name);
    if let Some(ws) = workspace_by_name(t, root, names, name) {
        let k = choose|k: int| 0 <= k < w.len() && w[k] == ws;
    }
}

/// Moving a workspace onto the monitor it is on already changes no
/// container's parent.
proof fn lemma_move_onto_own_monitor_keeps_parents(t: Seq<ContainerView>, ws: usize, m: usize)
    requires
        ws < t.len(),
        m < t.len(),
        t[ws as int].parent == Some(m),
    ensures
        spec_move_workspace_to_monitor(t, ws, m).0.len() == t.len(),
        forall|i: int| 0 <= i < t.len() ==> (#[trigger] spec_move_workspace_to_monitor(t, ws, m).0[i]).parent == t[i].parent,
{
    let r = spec_try_move(t, ws, m, t[m as int].children.len() as usize);
    let u = t.update(m as int, ContainerView {
        children: crate::tree::spec_shift_to_index(t[m as int].children, (t[m as int].children.len() as usize) as int, ws),
        ..t[m as int]
    });
    assert(r.0 == u);
    assert(spec_move_workspace_to_monitor(t, ws, m).0 == t || spec_move_workspace_to_monitor(t, ws, m).0 == u);
    assert forall|i: int| 0 <= i < t.len() implies (#[trigger] u[i]).parent == t[i].parent by {
        if i == m {
            assert(u[i].parent == t[m as int].parent);
        }
    }
}

/// Moving a workspace onto monitor `m` either leaves the tree as it was or
/// puts the workspace on `m`.
proof fn lemma_move_onto_monitor_places_workspace(t: Seq<ContainerView>, ws: usize, m: usize)
    requires
        tree_wf(t),
        ws < t.len(),
        m < t.len(),
    ensures
        spec_move_workspace_to_monitor(t, ws, m).0.len() == t.len(),
        spec_move_workspace_to_monitor(t, ws, m).0 == t
            || spec_move_workspace_to_monitor(t, ws, m).0[ws as int].parent == Some(m),
{
    if t[ws as int].parent != Some(m) && detach_error(t, ws) is None {
        let p = t[ws as int].parent->0;
        assert(links_ok(t, ws as int));
        if crate::tree::detach_flattens_parent(t, ws) {
            assert(links_ok(t, p as int));
            crate::tree::lemma_flatten_wf(t, p);
            let f = crate::tree::spec_flatten(t, p);
            assert(f[ws as int].parent is Some);
            crate::tree::lemma_unlink_wf(f, ws);
        } else {
            crate::tree::lemma_unlink_wf(t, ws);
        }
        assert(spec_detach(t, ws).len() == t.len());
    }
}

/// Binding a workspace to a new monitor again, when the binding's name
/// still leads to the same workspace, changes no container's parent: the
/// second binding keeps every workspace on the monitor the first one left
/// it on.
pub proof fn binding_again_keeps_every_parent(
    t: Seq<ContainerView>,
    root: usize,
    m: usize,
    index: usize,
    names: Seq<String>,
    b: WorkspaceBinding,
    keep_alive: bool,
)
    requires
        tree_wf(t),
        root < t.len(),
        m < t.len(),
        workspace_by_name(spec_bind_workspace_to_new_monitor(t, root, m, index, names, b, keep_alive).0, root, names, b.name@)
            == workspace_by_name(t, root, names, b.name@),
    ensures
        ({
            let t1 = spec_bind_workspace_to_new_monitor(t, root, m, index, names, b, keep_alive).0;
            let t2 = spec_bind_workspace_to_new_monitor(t1, root, m, index, names, b, keep_alive).0;
            &&& t2.len() == t1.len()
            &&& forall|i: int| 0 <= i < t1.len() ==> (#[trigger] t2[i]).parent == t1[i].parent
        }),
{
    let t1 = spec_bind_workspace_to_new_monitor(t, root, m, index, names, b, keep_alive).0;
    if b.bind_to_monitor matches Some(i) && i as int == index as int {
        lemma_workspace_by_name_in_tree(t, root, names, b.name@);
        if let Some(ws) = workspace_by_name(t, root, names, b.name@) {
            lemma_move_onto_monitor_places_workspace(t, ws, m);
            if t1 != t {
                lemma_move_onto_own_monitor_keeps_parents(t1, ws, m);
            }
        }
    }
}

} // verus!
