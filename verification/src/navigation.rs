use vstd::prelude::*;
use crate::common::{ContainerKind, Direction, TilingDirection};
use crate::error::WmError;
use crate::app_command::WindowState;
use crate::tree::{
    ContainerTree, ContainerView, KindClass, tree_wf, links_ok, focus_ok, monitor_of, lemma_index_of_unique,
};
use crate::sync::{
    WindowInfo, displayed_workspace, displayed_workspace_of, descendant_focus_order, leaf_descendants,
    spec_focused_container, focused_container,
};
use crate::tree::workspace_of;
use crate::focus::{spec_set_focused_descendant, set_focused_descendant};
use crate::directional_moves::{spec_tiling_sibling_in_direction, tiling_sibling_in_direction};

verus! {

broadcast use vstd::seq_lib::group_seq_properties;

pub open spec fn is_tiling(t: Seq<ContainerView>, x: usize) -> bool {
    t[x as int].kind.is_tiling_container()
}

/// The first tiling container among `xs`.
pub open spec fn first_tiling(t: Seq<ContainerView>, xs: Seq<usize>) -> Option<usize>
    decreases xs.len(),
{
    if xs.len() == 0 {
        None
    } else if is_tiling(t, xs[0]) {
        Some(xs[0])
    } else {
        first_tiling(t, xs.drop_first())
    }
}

/// The last tiling container among `xs`.
pub open spec fn last_tiling(t: Seq<ContainerView>, xs: Seq<usize>) -> Option<usize>
    decreases xs.len(),
{
    if xs.len() == 0 {
        None
    } else if is_tiling(t, xs.last()) {
        Some(xs.last())
    } else {
        last_tiling(t, xs.drop_last())
    }
}

/// The child of direction container `c` that lies furthest in direction
/// `d`: along `c`'s axis, its first or last tiling child; across it, its
/// most recently focused tiling child.
pub open spec fn spec_child_in_direction(t: Seq<ContainerView>, c: usize, d: Direction) -> Option<usize> {
    if t[c as int].direction != TilingDirection::spec_from_direction(d) {
        first_tiling(t, t[c as int].focus)
    } else {
        match d {
            Direction::Up | Direction::Left => first_tiling(t, t[c as int].children),
            _ => last_tiling(t, t[c as int].children),
        }
    }
}

/// The tiling window furthest in direction `d` below `c`, descending
/// through split containers (at most `fuel` levels).
pub open spec fn spec_descendant_in_direction(t: Seq<ContainerView>, c: usize, d: Direction, fuel: nat) -> Option<usize>
    decreases fuel,
{
    match spec_child_in_direction(t, c, d) {
        None => None,
        Some(ch) => if t[ch as int].kind == ContainerKind::Split {
            if fuel == 0 { None } else { spec_descendant_in_direction(t, ch, d, (fuel - 1) as nat) }
        } else {
            Some(ch)
        },
    }
}

fn first_tiling_of(tree: &ContainerTree, xs: &Vec<usize>) -> (res: Option<usize>)
    requires
        forall|k: int| 0 <= k < xs@.len() ==> (#[trigger] xs@[k]) < tree@.len(),
    ensures
        res == first_tiling(tree@, xs@),
        res matches Some(x) ==> x < tree@.len(),
{
    let mut i: usize = 0;
    proof {
        assert(xs@.skip(0) =~= xs@);
    }
    while i < xs.len()
        invariant
            forall|k: int| 0 <= k < xs@.len() ==> (#[trigger] xs@[k]) < tree@.len(),
            i <= xs.len(),
            first_tiling(tree@, xs@) == first_tiling(tree@, xs@.skip(i as int)),
        decreases xs.len() - i,
    {
        proof {
            assert(xs@.skip(i as int).drop_first() =~= xs@.skip(i as int + 1));
            assert(xs@.skip(i as int)[0] == xs@[i as int]);
        }
        if tree.is_tiling_container(xs[i]) {
            return Some(xs[i]);
        }
        i = i + 1;
    }
    proof {
        assert(xs@.skip(xs.len() as int) =~= Seq::<usize>::empty());
    }
    None
}

fn last_tiling_of(tree: &ContainerTree, xs: &Vec<usize>) -> (res: Option<usize>)
    requires
        forall|k: int| 0 <= k < xs@.len() ==> (#[trigger] xs@[k]) < tree@.len(),
    ensures
        res == last_tiling(tree@, xs@),
        res matches Some(x) ==> x < tree@.len(),
{
    let mut i: usize = xs.len();
    proof {
        assert(xs@.take(xs.len() as int) =~= xs@);
    }
    while i > 0
        invariant
            forall|k: int| 0 <= k < xs@.len() ==> (#[trigger] xs@[k]) < tree@.len(),
            i <= xs.len(),
            last_tiling(tree@, xs@) == last_tiling(tree@, xs@.take(i as int)),
        decreases i,
    {
        proof {
            assert(xs@.take(i as int).drop_last() =~= xs@.take(i as int - 1));
            assert(xs@.take(i as int).last() == xs@[i as int - 1]);
        }
        if tree.is_tiling_container(xs[i - 1]) {
            return Some(xs[i - 1]);
        }
        i = i - 1;
    }
    proof {
        assert(xs@.take(0) =~= Seq::<usize>::empty());
    }
    None
}

proof fn lemma_children_bounded(t: Seq<ContainerView>, c: usize)
    requires
        tree_wf(t),
        c < t.len(),
    ensures
        forall|k: int| 0 <= k < t[c as int].children.len() ==> (#[trigger] t[c as int].children[k]) < t.len(),
        forall|k: int| 0 <= k < t[c as int].focus.len() ==> (#[trigger] t[c as int].focus[k]) < t.len(),
{
    assert(links_ok(t, c as int));
    assert(focus_ok(t, c as int));
    assert forall|k: int| 0 <= k < t[c as int].focus.len() implies (#[trigger] t[c as int].focus[k]) < t.len() by {
        let x = t[c as int].focus[k];
        assert(t[c as int].focus.contains(x));
        let j = choose|j: int| 0 <= j < t[c as int].children.len() && t[c as int].children[j] == x;
        assert(t[c as int].children[j] < t.len());
    }
}

/// See [`spec_child_in_direction`].
pub fn child_in_direction(tree: &ContainerTree, c: usize, d: Direction) -> (res: Option<usize>)
    requires
        tree_wf(tree@),
        c < tree@.len(),
    ensures
        res == spec_child_in_direction(tree@, c, d),
        res matches Some(x) ==> x < tree@.len(),
{
    proof {
        lemma_children_bounded(tree@, c);
    }
    if tree.tiling_direction(c) != TilingDirection::from_direction(d) {
        return first_tiling_of(tree, &tree.focus_order(c));
    }
    match d {
        Direction::Up | Direction::Left => first_tiling_of(tree, &tree.children(c)),
        _ => last_tiling_of(tree, &tree.children(c)),
    }
}

/// See [`spec_descendant_in_direction`]; the descent is bounded by the
/// number of containers.
pub fn descendant_in_direction(tree: &ContainerTree, c: usize, d: Direction) -> (res: Option<usize>)
    requires
        tree_wf(tree@),
        c < tree@.len(),
    ensures
        res == spec_descendant_in_direction(tree@, c, d, tree@.len() as nat),
        res matches Some(x) ==> x < tree@.len(),
{
    let mut cur = c;
    let mut fuel = tree.len();
    loop
        invariant
            tree_wf(tree@),
            cur < tree@.len(),
            spec_descendant_in_direction(tree@, c, d, tree@.len() as nat) == spec_descendant_in_direction(tree@, cur, d, fuel as nat),
        decreases fuel,
    {
        match child_in_direction(tree, cur, d) {
            None => { return None; },
            Some(ch) => {
                if tree.kind(ch) != ContainerKind::Split {
                    return Some(ch);
                }
                if fuel == 0 {
                    return None;
                }
                cur = ch;
                fuel = fuel - 1;
            },
        }
    }
}

/// The tiling container nearest to position `i` of `v` going backwards
/// (`v[0..i]`, closest first).
pub open spec fn prev_tiling(t: Seq<ContainerView>, v: Seq<usize>, i: int) -> Option<usize> {
    last_tiling(t, v.take(i))
}

/// The tiling container nearest after position `i` of `v`.
pub open spec fn next_tiling(t: Seq<ContainerView>, v: Seq<usize>, i: int) -> Option<usize> {
    first_tiling(t, v.skip(i + 1))
}

/// Where focus goes from tiling window `cur` in direction `d`, climbing
/// towards the workspace: in the first ancestor along `d`'s axis, the
/// nearest tiling sibling in direction `d` of the climbing container; a
/// window is the target, a split container leads to its descendant
/// nearest to the origin. Climbing needs direction containers; `fuel`
/// bounds it.
pub open spec fn spec_tiling_focus_target(t: Seq<ContainerView>, cur: usize, d: Direction, fuel: nat) -> Result<Option<usize>, WmError>
    decreases fuel,
{
    if t[cur as int].kind == ContainerKind::Workspace || fuel == 0 {
        Ok(None)
    } else {
        match t[cur as int].parent {
            None => Err(WmError::NoDirectionContainer),
            Some(p) => if !t[p as int].kind.is_direction_container() {
                Err(WmError::NoDirectionContainer)
            } else if t[p as int].direction != TilingDirection::spec_from_direction(d) {
                spec_tiling_focus_target(t, p, d, (fuel - 1) as nat)
            } else {
                let v = t[p as int].children;
                let i = v.index_of(cur);
                let target = match d {
                    Direction::Up | Direction::Left => prev_tiling(t, v, i),
                    _ => next_tiling(t, v, i),
                };
                match target {
                    Some(x) => if t[x as int].kind == ContainerKind::TilingWindow {
                        Ok(Some(x))
                    } else {
                        Ok(spec_descendant_in_direction(t, x, d.spec_inverse(), t.len() as nat))
                    },
                    None => spec_tiling_focus_target(t, p, d, (fuel - 1) as nat),
                }
            },
        }
    }
}

pub(crate) fn sibling_tiling(tree: &ContainerTree, p: usize, cur: usize, d: Direction) -> (res: Option<usize>)
    requires
        tree_wf(tree@),
        p < tree@.len(),
        cur < tree@.len(),
        tree@[cur as int].parent == Some(p),
    ensures
        res == (match d {
            Direction::Up | Direction::Left => prev_tiling(tree@, tree@[p as int].children, tree@[p as int].children.index_of(cur)),
            _ => next_tiling(tree@, tree@[p as int].children, tree@[p as int].children.index_of(cur)),
        }),
        res matches Some(x) ==> x < tree@.len(),
{
    let ghost t = tree@;
    proof {
        assert(links_ok(t, cur as int));
        assert(links_ok(t, p as int));
        lemma_children_bounded(t, p);
    }
    let v = tree.children(p);
    let i = crate::seqs::position(&v, cur).unwrap();
    proof {
        lemma_index_of_unique(v@, i as int);
    }
    match d {
        Direction::Up | Direction::Left => {
            let mut before: Vec<usize> = Vec::new();
            let mut k: usize = 0;
            while k < i
                invariant
                    k <= i < v@.len(),
                    before@ == v@.take(k as int),
                decreases i - k,
            {
                before.push(v[k]);
                k = k + 1;
                proof {
                    assert(before@ =~= v@.take(k as int));
                }
            }
            proof {
                assert forall|q: int| 0 <= q < before@.len() implies (#[trigger] before@[q]) < t.len() by {
                    assert(before@[q] == v@[q]);
                }
            }
            last_tiling_of(tree, &before)
        },
        _ => {
            let mut after: Vec<usize> = Vec::new();
            let mut k: usize = i + 1;
            proof {
                assert(v@.skip(i as int + 1).take(0) =~= Seq::<usize>::empty());
            }
            while k < v.len()
                invariant
                    i < k <= v@.len(),
                    after@ == v@.skip(i as int + 1).take(k - i - 1),
                decreases v.len() - k,
            {
                after.push(v[k]);
                k = k + 1;
                proof {
                    assert(after@ =~= v@.skip(i as int + 1).take(k - i - 1));
                }
            }
            proof {
                assert(after@ =~= v@.skip(i as int + 1));
                assert forall|q: int| 0 <= q < after@.len() implies (#[trigger] after@[q]) < t.len() by {
                    assert(after@[q] == v@[i + 1 + q]);
                }
            }
            first_tiling_of(tree, &after)
        },
    }
}

/// See [`spec_tiling_focus_target`], climbing at most as many steps as
/// there are containers.
pub fn tiling_focus_target(tree: &ContainerTree, origin: usize, d: Direction) -> (res: Result<Option<usize>, WmError>)
    requires
        tree_wf(tree@),
        origin < tree@.len(),
    ensures
        res == spec_tiling_focus_target(tree@, origin, d, tree@.len() as nat),
        res matches Ok(Some(x)) ==> x < tree@.len(),
{
    let ghost t = tree@;
    let mut cur = origin;
    let mut fuel = tree.len();
    let td = TilingDirection::from_direction(d);
    loop
        invariant
            t == tree@,
            tree_wf(t),
            cur < t.len(),
            td == TilingDirection::spec_from_direction(d),
            spec_tiling_focus_target(t, origin, d, t.len() as nat) == spec_tiling_focus_target(t, cur, d, fuel as nat),
        decreases fuel,
    {
        if tree.kind(cur) == ContainerKind::Workspace || fuel == 0 {
            return Ok(None);
        }
        let p = match tree.parent(cur) {
            None => { return Err(WmError::NoDirectionContainer); },
            Some(p) => p,
        };
        proof {
            assert(links_ok(t, cur as int));
        }
        let pk = tree.kind(p);
        if !(pk == ContainerKind::Workspace || pk == ContainerKind::Split) {
            return Err(WmError::NoDirectionContainer);
        }
        if tree.tiling_direction(p) != td {
            cur = p;
            fuel = fuel - 1;
            continue;
        }
        match sibling_tiling(tree, p, cur, d) {
            Some(x) => {
                if tree.kind(x) == ContainerKind::TilingWindow {
                    return Ok(Some(x));
                }
                return Ok(descendant_in_direction(tree, x, d.inverse()));
            },
            None => {
                cur = p;
                fuel = fuel - 1;
            },
        }
    }
}

pub open spec fn is_floating_window(t: Seq<ContainerView>, info: Seq<WindowInfo>, x: usize) -> bool {
    t[x as int].kind == ContainerKind::NonTilingWindow && info[x as int].state is Floating
}

/// The first floating window among `xs`.
pub open spec fn first_floating(t: Seq<ContainerView>, info: Seq<WindowInfo>, xs: Seq<usize>) -> Option<usize>
    decreases xs.len(),
{
    if xs.len() == 0 {
        None
    } else if is_floating_window(t, info, xs[0]) {
        Some(xs[0])
    } else {
        first_floating(t, info, xs.drop_first())
    }
}

/// Where focus goes from floating window `c` sideways: to the left, the
/// next floating sibling after it (else the last floating sibling); to the
/// right, the nearest floating sibling before it (else the first floating
/// sibling); nowhere up or down.
pub open spec fn spec_floating_focus_target(t: Seq<ContainerView>, info: Seq<WindowInfo>, c: usize, d: Direction) -> Option<usize> {
    match t[c as int].parent {
        None => None,
        Some(p) => {
            let v = t[p as int].children;
            let i = v.index_of(c);
            let others = v.take(i) + v.skip(i + 1);
            match d {
                Direction::Left => match first_floating(t, info, v.skip(i + 1)) {
                    Some(x) => Some(x),
                    None => first_floating(t, info, others.reverse()),
                },
                Direction::Right => match first_floating(t, info, v.take(i).reverse()) {
                    Some(x) => Some(x),
                    None => first_floating(t, info, others),
                },
                _ => None,
            }
        },
    }
}

fn first_floating_of(tree: &ContainerTree, info: &Vec<WindowInfo>, xs: &Vec<usize>) -> (res: Option<usize>)
    requires
        info@.len() == tree@.len(),
        forall|k: int| 0 <= k < xs@.len() ==> (#[trigger] xs@[k]) < tree@.len(),
    ensures
        res == first_floating(tree@, info@, xs@),
        res matches Some(x) ==> x < tree@.len(),
{
    let mut i: usize = 0;
    proof {
        assert(xs@.skip(0) =~= xs@);
    }
    while i < xs.len()
        invariant
            info@.len() == tree@.len(),
            forall|k: int| 0 <= k < xs@.len() ==> (#[trigger] xs@[k]) < tree@.len(),
            i <= xs.len(),
            first_floating(tree@, info@, xs@) == first_floating(tree@, info@, xs@.skip(i as int)),
        decreases xs.len() - i,
    {
        proof {
            assert(xs@.skip(i as int).drop_first() =~= xs@.skip(i as int + 1));
            assert(xs@.skip(i as int)[0] == xs@[i as int]);
        }
        let x = xs[i];
        if tree.kind(x) == ContainerKind::NonTilingWindow {
            match info[x].state {
                WindowState::Floating { .. } => { return Some(x); },
                _ => {},
            }
        }
        i = i + 1;
    }
    proof {
        assert(xs@.skip(xs.len() as int) =~= Seq::<usize>::empty());
    }
    None
}

/// See [`spec_floating_focus_target`].
pub fn floating_focus_target(tree: &ContainerTree, info: &Vec<WindowInfo>, c: usize, d: Direction) -> (res: Option<usize>)
    requires
        tree_wf(tree@),
        c < tree@.len(),
        info@.len() == tree@.len(),
    ensures
        res == spec_floating_focus_target(tree@, info@, c, d),
        res matches Some(x) ==> x < tree@.len(),
{
    let ghost t = tree@;
    let p = match tree.parent(c) {
        None => { return None; },
        Some(p) => p,
    };
    proof {
        assert(links_ok(t, c as int));
        assert(links_ok(t, p as int));
        lemma_children_bounded(t, p);
    }
    let v = tree.children(p);
    let i = crate::seqs::position(&v, c).unwrap();
    proof {
        lemma_index_of_unique(v@, i as int);
    }
    let mut before_rev: Vec<usize> = Vec::new();
    let mut after: Vec<usize> = Vec::new();
    let mut k: usize = 0;
    while k < v.len()
        invariant
            i < v@.len(),
            k <= v@.len(),
            before_rev@ == v@.take(if k <= i { k as int } else { i as int }).reverse(),
            after@ == v@.skip(i as int + 1).take(if k > i { k - i - 1 } else { 0 }),
        decreases v.len() - k,
    {
        if k < i {
            before_rev.insert(0, v[k]);
        } else if k > i {
            after.push(v[k]);
        }
        k = k + 1;
        proof {
            assert(before_rev@ =~= v@.take(if k <= i { k as int } else { i as int }).reverse());
            assert(after@ =~= v@.skip(i as int + 1).take(if k > i { k - i - 1 } else { 0 }));
        }
    }
    proof {
        assert(after@ =~= v@.skip(i as int + 1));
        assert forall|q: int| 0 <= q < after@.len() implies (#[trigger] after@[q]) < t.len() by {
            assert(after@[q] == v@[i + 1 + q]);
        }
        assert forall|q: int| 0 <= q < before_rev@.len() implies (#[trigger] before_rev@[q]) < t.len() by {
            assert(before_rev@[q] == v@[i - 1 - q]);
        }
    }
    let mut others: Vec<usize> = Vec::new();
    let mut k2: usize = before_rev.len();
    while k2 > 0
        invariant
            k2 <= before_rev@.len(),
            others@ == before_rev@.skip(k2 as int).reverse(),
        decreases k2,
    {
        k2 = k2 - 1;
        others.push(before_rev[k2]);
        proof {
            assert(others@ =~= before_rev@.skip(k2 as int).reverse());
        }
    }
    let others = crate::seqs::concat(&others, &after);
    proof {
        assert(before_rev@.skip(0) =~= before_rev@);
        assert(before_rev@.reverse().reverse() =~= before_rev@.reverse().reverse());
        assert(v@.take(i as int).reverse().reverse() =~= v@.take(i as int));
        assert(others@ =~= v@.take(i as int) + v@.skip(i as int + 1));
        assert forall|q: int| 0 <= q < others@.len() implies (#[trigger] others@[q]) < t.len() by {
            if q < i {
                assert(others@[q] == v@[q]);
            } else {
                assert(others@[q] == v@[q + 1]);
            }
        }
    }
    match d {
        Direction::Left => match first_floating_of(tree, info, &after) {
            Some(x) => Some(x),
            None => {
                let rev = crate::seqs::reversed(&others);
                proof {
                    assert forall|q: int| 0 <= q < rev@.len() implies (#[trigger] rev@[q]) < t.len() by {
                        assert(rev@[q] == others@[others@.len() - 1 - q]);
                    }
                }
                first_floating_of(tree, info, &rev)
            },
        },
        Direction::Right => match first_floating_of(tree, info, &before_rev) {
            Some(x) => Some(x),
            None => first_floating_of(tree, info, &others),
        },
        _ => None,
    }
}


/// Where focus goes towards the workspace displayed on `target_monitor`
/// (the monitor next to the origin's monitor in the direction moved): its
/// focused fullscreen window, else its window nearest to the side entered
/// from, else the workspace itself; nothing without such a workspace. The
/// origin needs a monitor.
pub open spec fn spec_workspace_focus_target(
    t: Seq<ContainerView>,
    info: Seq<WindowInfo>,
    origin: usize,
    d: Direction,
    target_monitor: Option<usize>,
) -> Result<Option<usize>, WmError> {
    match monitor_of(t, origin) {
        None => Err(WmError::NoMonitor),
        Some(_) => match target_monitor {
            None => Ok(None),
            Some(m) => match displayed_workspace(t, m) {
                None => Ok(None),
                Some(ws) => {
                    let dfo = descendant_focus_order(t, ws);
                    if dfo.len() > 0 && t[dfo[0] as int].kind == ContainerKind::NonTilingWindow
                        && info[dfo[0] as int].state is Fullscreen {
                        Ok(Some(dfo[0]))
                    } else {
                        match spec_descendant_in_direction(t, ws, d.spec_inverse(), t.len() as nat) {
                            Some(x) => Ok(Some(x)),
                            None => Ok(Some(ws)),
                        }
                    }
                },
            },
        },
    }
}

/// See [`spec_workspace_focus_target`].
pub fn workspace_focus_target(
    tree: &ContainerTree,
    info: &Vec<WindowInfo>,
    origin: usize,
    d: Direction,
    target_monitor: Option<usize>,
) -> (res: Result<Option<usize>, WmError>)
    requires
        tree_wf(tree@),
        origin < tree@.len(),
        info@.len() == tree@.len(),
        target_monitor matches Some(m) ==> m < tree@.len(),
    ensures
        res == spec_workspace_focus_target(tree@, info@, origin, d, target_monitor),
        res matches Ok(Some(x)) ==> x < tree@.len(),
{
    match tree.nearest(origin, KindClass::Monitor) {
        None => { return Err(WmError::NoMonitor); },
        Some(_) => {},
    }
    let m = match target_monitor {
        None => { return Ok(None); },
        Some(m) => m,
    };
    let ws = match displayed_workspace_of(tree, m) {
        None => { return Ok(None); },
        Some(ws) => ws,
    };
    let dfo = leaf_descendants(tree, ws);
    if dfo.len() > 0 && tree.kind(dfo[0]) == ContainerKind::NonTilingWindow {
        match info[dfo[0]].state {
            WindowState::Fullscreen { .. } => { return Ok(Some(dfo[0])); },
            _ => {},
        }
    }
    match descendant_in_direction(tree, ws, d.inverse()) {
        Some(x) => Ok(Some(x)),
        None => Ok(Some(ws)),
    }
}

/// What a directional focus command did.
#[derive(Clone, Copy, Debug, PartialEq, Eq, Structural)]
pub enum FocusMove {
    /// The container now focused.
    Focused(usize),
    /// No target on the way: focus wraps to the previous (`false`) or next
    /// (`true`) workspace, then to its edge (see [`focus_workspace_edge`]).
    Wrap { next: bool },
}

/// The target of a directional focus from `origin`: a tiling window looks
/// in its workspace (see [`spec_tiling_focus_target`]) and then across
/// monitors (see [`spec_workspace_focus_target`]); a floating window looks
/// among its siblings; a fullscreen window and a workspace look across
/// monitors; other containers have none.
pub open spec fn spec_focus_target(
    t: Seq<ContainerView>,
    info: Seq<WindowInfo>,
    origin: usize,
    d: Direction,
    target_monitor: Option<usize>,
) -> Result<Option<usize>, WmError> {
    match t[origin as int].kind {
        ContainerKind::TilingWindow => match spec_tiling_focus_target(t, origin, d, t.len() as nat) {
            Err(e) => Err(e),
            Ok(Some(x)) => Ok(Some(x)),
            Ok(None) => spec_workspace_focus_target(t, info, origin, d, target_monitor),
        },
        ContainerKind::NonTilingWindow => match info[origin as int].state {
            WindowState::Floating { .. } => Ok(spec_floating_focus_target(t, info, origin, d)),
            WindowState::Fullscreen { .. } => spec_workspace_focus_target(t, info, origin, d, target_monitor),
            _ => Ok(None),
        },
        ContainerKind::Workspace => spec_workspace_focus_target(t, info, origin, d, target_monitor),
        _ => Ok(None),
    }
}

/// Moves focus from `origin` in direction `d`: the target found (see
/// [`spec_focus_target`]) gets the focus; without one, focus wraps to the
/// previous workspace (left, up) or the next one (right, down).
pub fn focus_in_direction_with_wrap(
    tree: &mut ContainerTree,
    info: &Vec<WindowInfo>,
    origin: usize,
    d: Direction,
    target_monitor: Option<usize>,
) -> (res: Result<FocusMove, WmError>)
    requires
        tree_wf(old(tree)@),
        origin < old(tree)@.len(),
        info@.len() == old(tree)@.len(),
        target_monitor matches Some(m) ==> m < old(tree)@.len(),
    ensures
        tree_wf(final(tree)@),
        match spec_focus_target(old(tree)@, info@, origin, d, target_monitor) {
            Err(e) => res == Err::<FocusMove, WmError>(e) && final(tree)@ == old(tree)@,
            Ok(Some(x)) => res == Ok::<FocusMove, WmError>(FocusMove::Focused(x))
                && final(tree)@ == spec_set_focused_descendant(old(tree)@, x, None, old(tree)@.len() as nat),
            Ok(None) => res == Ok::<FocusMove, WmError>(FocusMove::Wrap { next: d == Direction::Right || d == Direction::Down })
                && final(tree)@ == old(tree)@,
        },
{
    let target = match tree.kind(origin) {
        ContainerKind::TilingWindow => match tiling_focus_target(tree, origin, d) {
            Err(e) => { return Err(e); },
            Ok(Some(x)) => Ok(Some(x)),
            Ok(None) => workspace_focus_target(tree, info, origin, d, target_monitor),
        },
        ContainerKind::NonTilingWindow => match info[origin].state {
            WindowState::Floating { .. } => Ok(floating_focus_target(tree, info, origin, d)),
            WindowState::Fullscreen { .. } => workspace_focus_target(tree, info, origin, d, target_monitor),
            _ => Ok(None),
        },
        ContainerKind::Workspace => workspace_focus_target(tree, info, origin, d, target_monitor),
        _ => Ok(None),
    };
    match target {
        Err(e) => Err(e),
        Ok(Some(x)) => {
            set_focused_descendant(tree, x, None);
            Ok(FocusMove::Focused(x))
        },
        Ok(None) => Ok(FocusMove::Wrap { next: d == Direction::Right || d == Direction::Down }),
    }
}

/// After wrapping to workspace `ws`, focus goes to its window on the side
/// entered from (the workspace itself when it has none). Returns the
/// container focused.
pub fn focus_workspace_edge(tree: &mut ContainerTree, ws: usize, d: Direction) -> (res: usize)
    requires
        tree_wf(old(tree)@),
        ws < old(tree)@.len(),
    ensures
        tree_wf(final(tree)@),
        res == (match spec_descendant_in_direction(old(tree)@, ws, d.spec_inverse(), old(tree)@.len() as nat) {
            Some(x) => x,
            None => ws,
        }),
        final(tree)@ == spec_set_focused_descendant(old(tree)@, res, None, old(tree)@.len() as nat),
{
    let target = match descendant_in_direction(tree, ws, d.inverse()) {
        Some(x) => x,
        None => ws,
    };
    set_focused_descendant(tree, target, None);
    target
}


/// Where focus goes from `origin` inside an accordion: when its parent is a
/// horizontal accordion and `d` is up or down, or a vertical accordion and
/// `d` is left or right, the nearest tiling sibling that way (see
/// [`spec_tiling_sibling_in_direction`]); nowhere otherwise.
pub open spec fn spec_accordion_focus_target(t: Seq<ContainerView>, origin: usize, d: Direction) -> Option<usize> {
    match t[origin as int].parent {
        None => None,
        Some(p) => {
            let valid = t[p as int].kind.is_direction_container() && match t[p as int].direction {
                TilingDirection::HorizontalAccordion => d == Direction::Up || d == Direction::Down,
                TilingDirection::VerticalAccordion => d == Direction::Left || d == Direction::Right,
                _ => false,
            };
            if valid { spec_tiling_sibling_in_direction(t, origin, d) } else { None }
        },
    }
}

/// Moves focus within an accordion (see [`spec_accordion_focus_target`]);
/// returns the container focused, if any.
pub fn focus_in_accordion(tree: &mut ContainerTree, origin: usize, d: Direction) -> (res: Option<usize>)
    requires
        tree_wf(old(tree)@),
        origin < old(tree)@.len(),
    ensures
        tree_wf(final(tree)@),
        res == spec_accordion_focus_target(old(tree)@, origin, d),
        final(tree)@ == (match res {
            Some(x) => spec_set_focused_descendant(old(tree)@, x, None, old(tree)@.len() as nat),
            None => old(tree)@,
        }),
{
    let p = match tree.parent(origin) {
        None => { return None; },
        Some(p) => p,
    };
    proof {
        assert(links_ok(tree@, origin as int));
    }
    let k = tree.kind(p);
    let valid = (k == ContainerKind::Workspace || k == ContainerKind::Split) && match tree.tiling_direction(p) {
        TilingDirection::HorizontalAccordion => d == Direction::Up || d == Direction::Down,
        TilingDirection::VerticalAccordion => d == Direction::Left || d == Direction::Right,
        _ => false,
    };
    if !valid {
        return None;
    }
    match tiling_sibling_in_direction(tree, origin, d) {
        Some(x) => {
            set_focused_descendant(tree, x, None);
            Some(x)
        },
        None => None,
    }
}


/// Focusing the monitor in a direction (`target_monitor`, chosen by the
/// caller from the monitors' areas): the focused container needs a
/// workspace and that a monitor; without a target nothing changes;
/// otherwise the target's displayed workspace (which it needs) is entered
/// and the target's most recently focused window, else that workspace,
/// gets the focus. Returns the workspaces left and entered.
pub open spec fn spec_focus_monitor_in_direction(
    t: Seq<ContainerView>,
    root: usize,
    target_monitor: Option<usize>,
) -> (Seq<ContainerView>, Result<Option<(usize, usize)>, WmError>) {
    match spec_focused_container(t, root) {
        None => (t, Err(WmError::NoWorkspace)),
        Some(f) => match workspace_of(t, f) {
            None => (t, Err(WmError::NoWorkspace)),
            Some(ws) => match monitor_of(t, ws) {
                None => (t, Err(WmError::NoMonitor)),
                Some(_) => match target_monitor {
                    None => (t, Ok(None)),
                    Some(m) => match displayed_workspace(t, m) {
                        None => (t, Err(WmError::NoDisplayedWorkspace)),
                        Some(tws) => {
                            let order = descendant_focus_order(t, m);
                            let c = if order.len() > 0 { order[0] } else { tws };
                            (spec_set_focused_descendant(t, c, None, t.len() as nat), Ok(Some((ws, tws))))
                        },
                    },
                },
            },
        },
    }
}

/// See [`spec_focus_monitor_in_direction`].
pub fn focus_monitor_in_direction(
    tree: &mut ContainerTree,
    root: usize,
    target_monitor: Option<usize>,
) -> (res: Result<Option<(usize, usize)>, WmError>)
    requires
        tree_wf(old(tree)@),
        root < old(tree)@.len(),
        target_monitor matches Some(m) ==> m < old(tree)@.len(),
    ensures
        tree_wf(final(tree)@),
        (final(tree)@, res) == spec_focus_monitor_in_direction(old(tree)@, root, target_monitor),
{
    let f = match focused_container(tree, root) {
        None => { return Err(WmError::NoWorkspace); },
        Some(f) => f,
    };
    let ws = match tree.nearest(f, KindClass::Workspace) {
        None => { return Err(WmError::NoWorkspace); },
        Some(ws) => ws,
    };
    if tree.nearest(ws, KindClass::Monitor).is_none() {
        return Err(WmError::NoMonitor);
    }
    let m = match target_monitor {
        None => { return Ok(None); },
        Some(m) => m,
    };
    let tws = match displayed_workspace_of(tree, m) {
        None => { return Err(WmError::NoDisplayedWorkspace); },
        Some(tws) => tws,
    };
    let order = leaf_descendants(tree, m);
    let c = if order.len() > 0 { order[0] } else { tws };
    set_focused_descendant(tree, c, None);
    Ok(Some((ws, tws)))
}

} // verus!
