use vstd::prelude::*;
use crate::common::ContainerKind;
use crate::error::WmError;
use crate::app_command::{WindowState, same_state};
use crate::tree::{ContainerTree, ContainerView, KindClass, tree_wf, links_ok, focus_ok, workspace_of, monitor_of};
use crate::seqs::{dedup, dedup_vec, concat, reversed, contains, in_pred, not_in_pred, without_all, only, lemma_dedup_contains, lemma_filter_contains_iff};

verus! {

broadcast use vstd::seq_lib::group_seq_properties;

// ---------------------------------------------------------------------
// Traversals of the container tree.
// ---------------------------------------------------------------------

/// The containers without children below `c` (or `c` itself when it has
/// none), depth first, each level in focus order; `fuel` bounds the depth.
pub open spec fn leaf_order(t: Seq<ContainerView>, c: usize, fuel: nat) -> Seq<usize>
    decreases fuel, 0nat, 0nat,
{
    if fuel == 0 {
        Seq::empty()
    } else if t[c as int].children.len() == 0 {
        seq![c]
    } else {
        leaf_list(t, t[c as int].focus, (fuel - 1) as nat)
    }
}

/// [`leaf_order`] of each of `xs`, concatenated.
pub open spec fn leaf_list(t: Seq<ContainerView>, xs: Seq<usize>, fuel: nat) -> Seq<usize>
    decreases fuel, 1nat, xs.len(),
{
    if xs.len() == 0 {
        Seq::empty()
    } else {
        leaf_list(t, xs.drop_last(), fuel) + leaf_order(t, xs.last(), fuel)
    }
}

/// The descendants of `c` that have no children, most recently focused
/// first (depth first, each level in focus order).
pub open spec fn descendant_focus_order(t: Seq<ContainerView>, c: usize) -> Seq<usize> {
    leaf_list(t, t[c as int].focus, (t.len() - 1) as nat)
}

/// The descendants of `c`, depth first in child order, parents before
/// their children; `fuel` bounds the depth.
pub open spec fn descendants_of(t: Seq<ContainerView>, c: usize, fuel: nat) -> Seq<usize>
    decreases fuel, 0nat, 0nat,
{
    if fuel == 0 {
        Seq::empty()
    } else {
        descendant_list(t, t[c as int].children, (fuel - 1) as nat)
    }
}

/// Each of `xs` followed by its descendants, concatenated.
pub open spec fn descendant_list(t: Seq<ContainerView>, xs: Seq<usize>, fuel: nat) -> Seq<usize>
    decreases fuel, 1nat, xs.len(),
{
    if xs.len() == 0 {
        Seq::empty()
    } else {
        descendant_list(t, xs.drop_last(), fuel) + seq![xs.last()] + descendants_of(t, xs.last(), fuel)
    }
}

/// All descendants of `c` (see [`descendants_of`]).
pub open spec fn descendants(t: Seq<ContainerView>, c: usize) -> Seq<usize> {
    descendants_of(t, c, t.len())
}

fn collect_leaves(tree: &ContainerTree, c: usize, fuel: usize, out: &mut Vec<usize>)
    requires
        tree_wf(tree@),
        c < tree@.len(),
    ensures
        final(out)@ == old(out)@ + leaf_order(tree@, c, fuel as nat),
        forall|k: int| 0 <= k < old(out)@.len() ==> final(out)@[k] == old(out)@[k],
        forall|k: int| old(out)@.len() <= k < final(out)@.len() ==> (#[trigger] final(out)@[k]) < tree@.len(),
    decreases fuel, 0nat,
{
    let ghost t = tree@;
    if fuel == 0 {
        assert(old(out)@ + Seq::<usize>::empty() =~= old(out)@);
        return;
    }
    if tree.child_count(c) == 0 {
        out.push(c);
        return;
    }
    let f = tree.focus_order(c);
    proof {
        assert(links_ok(t, c as int));
        assert(focus_ok(t, c as int));
        assert forall|k: int| 0 <= k < f@.len() implies (#[trigger] f@[k]) < t.len() by {
            assert(t[c as int].focus.contains(f@[k]));
            assert(t[c as int].children.contains(f@[k]));
            let j = choose|j: int| 0 <= j < t[c as int].children.len() && t[c as int].children[j] == f@[k];
            assert(t[c as int].children[j] < t.len());
        }
        assert(f@.take(0) =~= Seq::<usize>::empty());
        assert(old(out)@ + Seq::<usize>::empty() =~= old(out)@);
    }
    let mut i: usize = 0;
    while i < f.len()
        invariant
            t == tree@,
            tree_wf(t),
            f@ == t[c as int].focus,
            forall|k: int| 0 <= k < f@.len() ==> (#[trigger] f@[k]) < t.len(),
            fuel > 0,
            i <= f.len(),
            out@ == old(out)@ + leaf_list(t, f@.take(i as int), (fuel - 1) as nat),
            forall|k: int| 0 <= k < old(out)@.len() ==> out@[k] == old(out)@[k],
            forall|k: int| old(out)@.len() <= k < out@.len() ==> (#[trigger] out@[k]) < t.len(),
        decreases f.len() - i,
    {
        let ghost before = out@;
        collect_leaves(tree, f[i], fuel - 1, out);
        proof {
            let xs = f@.take(i as int + 1);
            assert(xs.drop_last() =~= f@.take(i as int));
            assert(xs.last() == f@[i as int]);
            assert(out@ =~= old(out)@ + leaf_list(t, xs, (fuel - 1) as nat));
            assert forall|k: int| old(out)@.len() <= k < out@.len() implies (#[trigger] out@[k]) < t.len() by {
                if k < before.len() {
                    assert(out@[k] == before[k]);
                }
            }
        }
        i = i + 1;
    }
    proof {
        assert(f@.take(f.len() as int) =~= f@);
    }
}

/// The leaf descendants of `c` in focus order (see
/// [`descendant_focus_order`]).
pub fn leaf_descendants(tree: &ContainerTree, c: usize) -> (res: Vec<usize>)
    requires
        tree_wf(tree@),
        c < tree@.len(),
    ensures
        res@ == descendant_focus_order(tree@, c),
        forall|k: int| 0 <= k < res@.len() ==> (#[trigger] res@[k]) < tree@.len(),
{
    let mut out: Vec<usize> = Vec::new();
    let n = tree.len();
    if tree.child_count(c) == 0 {
        proof {
            assert(focus_ok(tree@, c as int));
            assert(tree@[c as int].focus.len() == 0) by {
                if tree@[c as int].focus.len() > 0 {
                    assert(tree@[c as int].focus.contains(tree@[c as int].focus[0]));
                }
            }
            assert(leaf_list(tree@, tree@[c as int].focus, (n - 1) as nat) =~= Seq::<usize>::empty());
        }
        return out;
    }
    collect_leaves(tree, c, n, &mut out);
    proof {
        assert(out@ =~= leaf_order(tree@, c, n as nat));
    }
    out
}


fn collect_descendants(tree: &ContainerTree, c: usize, fuel: usize, out: &mut Vec<usize>)
    requires
        tree_wf(tree@),
        c < tree@.len(),
    ensures
        final(out)@ == old(out)@ + descendants_of(tree@, c, fuel as nat),
        forall|k: int| 0 <= k < old(out)@.len() ==> final(out)@[k] == old(out)@[k],
        forall|k: int| old(out)@.len() <= k < final(out)@.len() ==> (#[trigger] final(out)@[k]) < tree@.len(),
    decreases fuel, 0nat,
{
    let ghost t = tree@;
    if fuel == 0 {
        assert(old(out)@ + Seq::<usize>::empty() =~= old(out)@);
        return;
    }
    let ch = tree.children(c);
    proof {
        assert(links_ok(t, c as int));
        assert(ch@.take(0) =~= Seq::<usize>::empty());
        assert(old(out)@ + Seq::<usize>::empty() =~= old(out)@);
    }
    let mut i: usize = 0;
    while i < ch.len()
        invariant
            t == tree@,
            tree_wf(t),
            ch@ == t[c as int].children,
            links_ok(t, c as int),
            fuel > 0,
            i <= ch.len(),
            out@ == old(out)@ + descendant_list(t, ch@.take(i as int), (fuel - 1) as nat),
            forall|k: int| 0 <= k < old(out)@.len() ==> out@[k] == old(out)@[k],
            forall|k: int| old(out)@.len() <= k < out@.len() ==> (#[trigger] out@[k]) < t.len(),
        decreases ch.len() - i,
    {
        let x = ch[i];
        let ghost before = out@;
        out.push(x);
        collect_descendants(tree, x, fuel - 1, out);
        proof {
            let xs = ch@.take(i as int + 1);
            assert(xs.drop_last() =~= ch@.take(i as int));
            assert(xs.last() == x);
            assert(out@ =~= old(out)@ + descendant_list(t, xs, (fuel - 1) as nat));
            assert forall|k: int| old(out)@.len() <= k < out@.len() implies (#[trigger] out@[k]) < t.len() by {
                if k < before.len() {
                    assert(out@[k] == before[k]);
                }
            }
        }
        i = i + 1;
    }
    proof {
        assert(ch@.take(ch.len() as int) =~= ch@);
    }
}

/// All descendants of `c` (see [`descendants`]).
pub fn all_descendants(tree: &ContainerTree, c: usize) -> (res: Vec<usize>)
    requires
        tree_wf(tree@),
        c < tree@.len(),
    ensures
        res@ == descendants(tree@, c),
        forall|k: int| 0 <= k < res@.len() ==> (#[trigger] res@[k]) < tree@.len(),
{
    let mut out: Vec<usize> = Vec::new();
    collect_descendants(tree, c, tree.len(), &mut out);
    proof {
        assert(out@ =~= descendants(tree@, c));
    }
    out
}


// ---------------------------------------------------------------------
// What a redraw does to each window.
// ---------------------------------------------------------------------

/// Whether a window is shown, hidden, or on its way between the two.
#[derive(Clone, Copy, Debug, PartialEq, Eq, Structural)]
pub enum DisplayState {
    Shown,
    Showing,
    Hidden,
    Hiding,
}

/// Where a window goes in the z-order of the desktop.
#[derive(Clone, Copy, Debug, PartialEq, Eq, Structural)]
pub enum ZOrder {
    Normal,
    TopMost,
    /// Just below the given window.
    AfterWindow(usize),
}

/// What the window manager knows of a window besides the tree.
#[derive(Clone, Copy, Debug, PartialEq, Eq, Structural)]
pub struct WindowInfo {
    pub state: WindowState,
    pub prev_state: Option<WindowState>,
    pub display_state: DisplayState,
}

/// The display state a window moves to when its workspace is, or is not,
/// displayed.
pub open spec fn spec_next_display_state(ds: DisplayState, displayed: bool) -> DisplayState {
    match ds {
        DisplayState::Hidden | DisplayState::Hiding => if displayed { DisplayState::Showing } else { ds },
        DisplayState::Shown | DisplayState::Showing => if displayed { ds } else { DisplayState::Hiding },
    }
}

/// See [`spec_next_display_state`].
pub fn next_display_state(ds: DisplayState, displayed: bool) -> (res: DisplayState)
    ensures
        res == spec_next_display_state(ds, displayed),
{
    match (ds, displayed) {
        (DisplayState::Hidden, true) | (DisplayState::Hiding, true) => DisplayState::Showing,
        (DisplayState::Shown, false) | (DisplayState::Showing, false) => DisplayState::Hiding,
        _ => ds,
    }
}

pub open spec fn is_visible_state(ds: DisplayState) -> bool {
    ds == DisplayState::Showing || ds == DisplayState::Shown
}

/// The z-order of window `w`: on top when its floating or fullscreen state
/// asks for it; just below the focused window `fd` of its workspace when it
/// is brought to the front and is not `fd` itself; normal otherwise.
pub open spec fn spec_z_order(state: WindowState, bring_to_front: bool, w: usize, fd: Option<usize>) -> ZOrder {
    match state {
        WindowState::Floating { shown_on_top: true, .. } => ZOrder::TopMost,
        WindowState::Fullscreen { shown_on_top: true, .. } => ZOrder::TopMost,
        _ => if bring_to_front {
            match fd {
                Some(f) => if f == w { ZOrder::Normal } else { ZOrder::AfterWindow(f) },
                None => ZOrder::Normal,
            }
        } else {
            ZOrder::Normal
        },
    }
}

/// See [`spec_z_order`].
pub fn z_order(state: WindowState, bring_to_front: bool, w: usize, fd: Option<usize>) -> (res: ZOrder)
    ensures
        res == spec_z_order(state, bring_to_front, w, fd),
{
    match state {
        WindowState::Floating { shown_on_top: true, .. } => ZOrder::TopMost,
        WindowState::Fullscreen { shown_on_top: true, .. } => ZOrder::TopMost,
        _ => if bring_to_front {
            match fd {
                Some(f) => if f == w { ZOrder::Normal } else { ZOrder::AfterWindow(f) },
                None => ZOrder::Normal,
            }
        } else {
            ZOrder::Normal
        },
    }
}

/// A window whose floating or fullscreen state asks to be shown on top is
/// always on top, whether or not it is brought to the front; any other
/// window is on top never, and goes just below the focused window of its
/// workspace exactly when it is brought to the front and is not that
/// window itself.
pub proof fn shown_on_top_windows_stay_on_top(state: WindowState, bring_to_front: bool, w: usize, fd: Option<usize>)
    ensures
        (state matches WindowState::Floating { shown_on_top: true, .. }) ==> spec_z_order(state, bring_to_front, w, fd) == ZOrder::TopMost,
        (state matches WindowState::Fullscreen { shown_on_top: true, .. }) ==> spec_z_order(state, bring_to_front, w, fd) == ZOrder::TopMost,
        !(state matches WindowState::Floating { shown_on_top: true, .. })
            && !(state matches WindowState::Fullscreen { shown_on_top: true, .. }) ==> {
            &&& spec_z_order(state, bring_to_front, w, fd) != ZOrder::TopMost
            &&& (spec_z_order(state, bring_to_front, w, fd) is AfterWindow
                <==> (bring_to_front && fd is Some && fd != Some(w)))
            &&& (bring_to_front && fd is Some && fd != Some(w)) ==> spec_z_order(state, bring_to_front, w, fd) == ZOrder::AfterWindow(fd->0)
        },
{
}

/// Whether a window is entering or leaving fullscreen: it had a previous
/// state and is now fullscreen but not maximized, or it was fullscreen.
pub open spec fn spec_transitioning_fullscreen(prev: Option<WindowState>, state: WindowState) -> bool {
    match (prev, state) {
        (Some(_), WindowState::Fullscreen { maximized: false, .. }) => true,
        (Some(WindowState::Fullscreen { .. }), _) => true,
        _ => false,
    }
}

/// See [`spec_transitioning_fullscreen`].
pub fn transitioning_fullscreen(prev: Option<WindowState>, state: WindowState) -> (res: bool)
    ensures
        res == spec_transitioning_fullscreen(prev, state),
{
    match (prev, state) {
        (Some(_), WindowState::Fullscreen { maximized: false, .. }) => true,
        (Some(WindowState::Fullscreen { .. }), _) => true,
        _ => false,
    }
}

/// A rectangle in screen coordinates.
#[derive(Clone, Copy, Debug, PartialEq, Eq, Structural)]
pub struct Rect {
    pub left: i32,
    pub top: i32,
    pub right: i32,
    pub bottom: i32,
}

pub open spec fn abs_int(x: int) -> int {
    if x < 0 { -x } else { x }
}

/// How far two rectangles are apart: the sum of the differences of their
/// positions and sizes.
pub open spec fn rect_distance(a: Rect, b: Rect) -> int {
    abs_int(a.left - b.left) + abs_int(a.top - b.top)
    + abs_int((a.right - a.left) - (b.right - b.left)) + abs_int((a.bottom - a.top) - (b.bottom - b.top))
}

fn abs_i64(x: i64) -> (res: i64)
    requires
        x > i64::MIN,
    ensures
        res == abs_int(x as int),
{
    if x < 0 { -x } else { x }
}

/// See [`rect_distance`].
pub fn distance(a: Rect, b: Rect) -> (res: i64)
    ensures
        res == rect_distance(a, b),
{
    let dx = abs_i64(a.left as i64 - b.left as i64);
    let dy = abs_i64(a.top as i64 - b.top as i64);
    let dw = abs_i64((a.right as i64 - a.left as i64) - (b.right as i64 - b.left as i64));
    let dh = abs_i64((a.bottom as i64 - a.top as i64) - (b.bottom as i64 - b.top as i64));
    dx + dy + dw + dh
}

/// An animation already running for a window: whether it has completed,
/// and the rectangle it moves to.
#[derive(Clone, Copy, Debug, PartialEq, Eq, Structural)]
pub struct RunningAnimation {
    pub complete: bool,
    pub target: Rect,
}

/// Which window animations are enabled.
#[derive(Clone, Copy, Debug, PartialEq, Eq, Structural)]
pub struct AnimationSwitches {
    pub open: bool,
    pub close: bool,
    pub movement: bool,
}

/// Whether a redraw starts a new animation: an opening or closing window
/// gets one when none runs; a moving window gets one when its running
/// animation, not yet complete, aims more than 5 px elsewhere, or, with
/// none running, when its target moved more than 10 px since the last
/// redraw.
pub open spec fn spec_should_start_animation(
    is_opening: bool,
    is_closing: bool,
    switches: AnimationSwitches,
    existing: Option<RunningAnimation>,
    previous_target: Option<Rect>,
    target: Rect,
) -> bool {
    if is_opening && switches.open {
        existing is None
    } else if is_closing && switches.close {
        existing is None
    } else if !is_opening && !is_closing && switches.movement {
        match existing {
            Some(a) => !a.complete && rect_distance(a.target, target) > 5,
            None => match previous_target {
                Some(p) => rect_distance(p, target) > 10,
                None => false,
            },
        }
    } else {
        false
    }
}

/// See [`spec_should_start_animation`].
pub fn should_start_animation(
    is_opening: bool,
    is_closing: bool,
    switches: AnimationSwitches,
    existing: Option<RunningAnimation>,
    previous_target: Option<Rect>,
    target: Rect,
) -> (res: bool)
    ensures
        res == spec_should_start_animation(is_opening, is_closing, switches, existing, previous_target, target),
{
    if is_opening && switches.open {
        existing.is_none()
    } else if is_closing && switches.close {
        existing.is_none()
    } else if !is_opening && !is_closing && switches.movement {
        match existing {
            Some(a) => if a.complete { false } else { distance(a.target, target) > 5 },
            None => match previous_target {
                Some(p) => distance(p, target) > 10,
                None => false,
            },
        }
    } else {
        false
    }
}


/// The global animation switch and the switches of each kind.
#[derive(Clone, Copy, Debug, PartialEq, Eq, Structural)]
pub struct AnimationSettings {
    pub enabled: bool,
    pub switches: AnimationSwitches,
}

/// What a redraw knows of a window's motion: the rectangle it goes to, the
/// target recorded at the last redraw, and its running animation.
#[derive(Clone, Copy, Debug, PartialEq, Eq, Structural)]
pub struct WindowMotion {
    pub target: Rect,
    pub previous_target: Option<Rect>,
    pub existing: Option<RunningAnimation>,
}

/// The animation a redraw starts for a window.
#[derive(Clone, Copy, Debug, PartialEq, Eq, Structural)]
pub enum AnimationStart {
    Open,
    Close,
    /// A movement that starts from the window's previous target.
    Movement { from: Rect },
}

/// How a redraw positions a window.
#[derive(Clone, Copy, Debug, PartialEq, Eq, Structural)]
pub struct WindowAnimationPlan {
    /// The target becomes the window's recorded target position.
    pub record_target: bool,
    /// The animation that starts, if any.
    pub start: Option<AnimationStart>,
    /// The window goes to the current frame of its animation, with that
    /// frame's opacity; otherwise straight to its target rectangle, with
    /// its opacity left alone.
    pub from_animation: bool,
}

/// A window moved straight to its target, with no animation started and
/// nothing recorded.
pub open spec fn still_plan() -> WindowAnimationPlan {
    WindowAnimationPlan { record_target: false, start: None, from_animation: false }
}

/// How a redraw positions a window: with animations off, straight to its
/// target and nothing else; with them on, its target is recorded, an
/// animation starts when [`spec_should_start_animation`] says so (opening,
/// closing, or a movement from the previous target, when there is one),
/// and the window follows its animation when one runs or starts.
pub open spec fn spec_plan_window_animation(
    settings: AnimationSettings,
    is_opening: bool,
    is_closing: bool,
    m: WindowMotion,
) -> WindowAnimationPlan {
    if !settings.enabled {
        still_plan()
    } else {
        let start = if spec_should_start_animation(is_opening, is_closing, settings.switches, m.existing, m.previous_target, m.target) {
            if is_opening {
                Some(AnimationStart::Open)
            } else if is_closing {
                Some(AnimationStart::Close)
            } else {
                match m.previous_target {
                    Some(p) => Some(AnimationStart::Movement { from: p }),
                    None => None,
                }
            }
        } else {
            None
        };
        WindowAnimationPlan { record_target: true, start, from_animation: start is Some || m.existing is Some }
    }
}

/// See [`spec_plan_window_animation`].
pub fn plan_window_animation(
    settings: AnimationSettings,
    is_opening: bool,
    is_closing: bool,
    m: WindowMotion,
) -> (res: WindowAnimationPlan)
    ensures
        res == spec_plan_window_animation(settings, is_opening, is_closing, m),
        !settings.enabled ==> res == still_plan(),
{
    if !settings.enabled {
        return WindowAnimationPlan { record_target: false, start: None, from_animation: false };
    }
    let start = if should_start_animation(is_opening, is_closing, settings.switches, m.existing, m.previous_target, m.target) {
        if is_opening {
            Some(AnimationStart::Open)
        } else if is_closing {
            Some(AnimationStart::Close)
        } else {
            match m.previous_target {
                Some(p) => Some(AnimationStart::Movement { from: p }),
                None => None,
            }
        }
    } else {
        None
    };
    WindowAnimationPlan { record_target: true, start, from_animation: start.is_some() || m.existing.is_some() }
}

/// Whether a movement animation takes the resize timing: when the window
/// resizes, or when any window of the redraw resizes and resize animations
/// are on.
pub fn use_resize_timing(is_resize: bool, cycle_has_resize: bool, window_resize_enabled: bool) -> (res: bool)
    ensures
        res == (is_resize || (cycle_has_resize && window_resize_enabled)),
{
    is_resize || (cycle_has_resize && window_resize_enabled)
}

/// The animation settings of one kind of window change.
#[derive(Clone, Copy, Debug, PartialEq, Eq, Structural)]
pub struct AnimationThreshold {
    pub enabled: bool,
    /// Changes of at most this many pixels do not animate.
    pub threshold_px: u32,
}

/// `threshold_px` read as a signed 32-bit number, as the comparison does.
pub open spec fn signed_threshold(threshold_px: u32) -> int {
    if threshold_px <= i32::MAX { threshold_px as int } else { threshold_px - 0x1_0000_0000 }
}

/// Whether a window moving to `target` starts a new animation, with the
/// settings of a resize or of a move: never when those are disabled; with
/// a completed animation, when the change from its target is over the
/// threshold; with one in progress, when the target changes at all; with
/// none, when the change from the previous target is over the threshold.
pub open spec fn spec_should_start_new_animation(
    is_resize: bool,
    window_move: AnimationThreshold,
    window_resize: AnimationThreshold,
    existing: Option<RunningAnimation>,
    previous_target: Option<Rect>,
    target: Rect,
) -> bool {
    let c = if is_resize { window_resize } else { window_move };
    if !c.enabled {
        false
    } else {
        match existing {
            Some(a) => if a.complete {
                rect_distance(a.target, target) > signed_threshold(c.threshold_px)
            } else {
                a.target != target
            },
            None => match previous_target {
                Some(p) => rect_distance(p, target) > signed_threshold(c.threshold_px),
                None => false,
            },
        }
    }
}

/// See [`spec_should_start_new_animation`].
pub fn should_start_new_animation(
    is_resize: bool,
    window_move: AnimationThreshold,
    window_resize: AnimationThreshold,
    existing: Option<RunningAnimation>,
    previous_target: Option<Rect>,
    target: Rect,
) -> (res: bool)
    ensures
        res == spec_should_start_new_animation(is_resize, window_move, window_resize, existing, previous_target, target),
{
    let c = if is_resize { window_resize } else { window_move };
    if !c.enabled {
        return false;
    }
    let threshold: i64 = if c.threshold_px <= 0x7fff_ffffu32 {
        c.threshold_px as i64
    } else {
        c.threshold_px as i64 - 0x1_0000_0000i64
    };
    match existing {
        Some(a) => if a.complete {
            distance(a.target, target) > threshold
        } else {
            a.target != target
        },
        None => match previous_target {
            Some(p) => distance(p, target) > threshold,
            None => false,
        },
    }
}

// ---------------------------------------------------------------------
// Which windows a redraw touches, and in which order.
// ---------------------------------------------------------------------

/// The focused container: the first leaf below the root in focus order.
pub open spec fn spec_focused_container(t: Seq<ContainerView>, root: usize) -> Option<usize> {
    let d = descendant_focus_order(t, root);
    if d.len() > 0 { Some(d[0]) } else { None }
}

/// See [`spec_focused_container`].
pub fn focused_container(tree: &ContainerTree, root: usize) -> (res: Option<usize>)
    requires
        tree_wf(tree@),
        root < tree@.len(),
    ensures
        res == spec_focused_container(tree@, root),
        res matches Some(c) ==> c < tree@.len(),
{
    let d = leaf_descendants(tree, root);
    if d.len() > 0 { Some(d[0]) } else { None }
}

/// The most recently focused window of `ws`: its first leaf in focus order
/// when that leaf is a window.
pub open spec fn focused_window_of(t: Seq<ContainerView>, ws: usize) -> Option<usize> {
    let d = descendant_focus_order(t, ws);
    if d.len() > 0 && t[d[0] as int].kind.is_window() { Some(d[0]) } else { None }
}

fn focused_window(tree: &ContainerTree, ws: usize) -> (res: Option<usize>)
    requires
        tree_wf(tree@),
        ws < tree@.len(),
    ensures
        res == focused_window_of(tree@, ws),
        res matches Some(c) ==> c < tree@.len(),
{
    let d = leaf_descendants(tree, ws);
    if d.len() > 0 {
        let k = tree.kind(d[0]);
        if k == ContainerKind::TilingWindow || k == ContainerKind::NonTilingWindow {
            return Some(d[0]);
        }
    }
    None
}

pub open spec fn is_floating_or_tiling(s: WindowState) -> bool {
    s is Floating || s is Tiling
}

/// The windows of a workspace whose focused window is `fd` that come to
/// the front with it: tiling or floating windows in the state of `fd`.
pub open spec fn front_pred(t: Seq<ContainerView>, info: Seq<WindowInfo>, fd: usize) -> spec_fn(usize) -> bool {
    |x: usize| t[x as int].kind.is_window() && is_floating_or_tiling(info[x as int].state)
        && same_state(info[x as int].state, info[fd as int].state)
}

/// The windows of workspace `ws` to bring to the front (none when it has no
/// focused window).
pub open spec fn workspace_front_windows(t: Seq<ContainerView>, info: Seq<WindowInfo>, ws: usize) -> Seq<usize> {
    match focused_window_of(t, ws) {
        None => Seq::empty(),
        Some(fd) => descendants(t, ws).filter(front_pred(t, info, fd)),
    }
}

pub open spec fn front_windows(t: Seq<ContainerView>, info: Seq<WindowInfo>, wss: Seq<usize>) -> Seq<usize>
    decreases wss.len(),
{
    if wss.len() == 0 {
        Seq::empty()
    } else {
        front_windows(t, info, wss.drop_last()) + workspace_front_windows(t, info, wss.last())
    }
}

/// The windows to bring to the top of their workspace's z-order: in each
/// workspace to reorder (and in the focused container's workspace after a
/// focus change), the windows that share the state of its focused window.
pub open spec fn spec_windows_to_bring_to_front(
    t: Seq<ContainerView>,
    info: Seq<WindowInfo>,
    focused: usize,
    reorder: Seq<usize>,
    needs_focus_update: bool,
) -> Result<Seq<usize>, WmError> {
    match workspace_of(t, focused) {
        None => Err(WmError::NoWorkspace),
        Some(fw) => Ok(front_windows(t, info, dedup(if needs_focus_update { reorder.push(fw) } else { reorder }))),
    }
}

fn same_state_exec(a: WindowState, b: WindowState) -> (res: bool)
    ensures
        res == same_state(a, b),
{
    match (a, b) {
        (WindowState::Tiling, WindowState::Tiling) => true,
        (WindowState::Floating { .. }, WindowState::Floating { .. }) => true,
        (WindowState::Fullscreen { .. }, WindowState::Fullscreen { .. }) => true,
        (WindowState::Minimized, WindowState::Minimized) => true,
        _ => false,
    }
}

fn push_front_windows(tree: &ContainerTree, info: &Vec<WindowInfo>, ws: usize, out: &mut Vec<usize>)
    requires
        tree_wf(tree@),
        ws < tree@.len(),
        info@.len() == tree@.len(),
        forall|k: int| 0 <= k < old(out)@.len() ==> (#[trigger] old(out)@[k]) < tree@.len(),
    ensures
        final(out)@ == old(out)@ + workspace_front_windows(tree@, info@, ws),
        forall|k: int| 0 <= k < final(out)@.len() ==> (#[trigger] final(out)@[k]) < tree@.len(),
{
    let ghost t = tree@;
    let fd = match focused_window(tree, ws) {
        None => {
            assert(old(out)@ + Seq::<usize>::empty() =~= old(out)@);
            return;
        },
        Some(fd) => fd,
    };
    let d = all_descendants(tree, ws);
    let ghost pred = front_pred(t, info@, fd);
    let mut i: usize = 0;
    proof {
        assert(d@.take(0).filter(pred) =~= Seq::<usize>::empty());
        assert(old(out)@ + Seq::<usize>::empty() =~= old(out)@);
    }
    while i < d.len()
        invariant
            t == tree@,
            info@.len() == t.len(),
            fd < t.len(),
            d@ == descendants(t, ws),
            forall|k: int| 0 <= k < d@.len() ==> (#[trigger] d@[k]) < t.len(),
            pred == front_pred(t, info@, fd),
            i <= d.len(),
            out@ == old(out)@ + d@.take(i as int).filter(pred),
            forall|k: int| 0 <= k < out@.len() ==> (#[trigger] out@[k]) < t.len(),
        decreases d.len() - i,
    {
        let x = d[i];
        proof {
            assert(d@.take(i as int).push(x) =~= d@.take(i as int + 1));
            d@.take(i as int).lemma_filter_push(x, pred);
        }
        let k = tree.kind(x);
        let st = info[x].state;
        let keep = (k == ContainerKind::TilingWindow || k == ContainerKind::NonTilingWindow)
            && (match st { WindowState::Floating { .. } | WindowState::Tiling => true, _ => false })
            && same_state_exec(st, info[fd].state);
        if keep {
            out.push(x);
        }
        proof {
            assert(out@ =~= old(out)@ + d@.take(i as int + 1).filter(pred));
        }
        i = i + 1;
    }
    proof {
        assert(d@.take(d.len() as int) =~= d@);
    }
}

/// See [`spec_windows_to_bring_to_front`].
pub fn windows_to_bring_to_front(
    tree: &ContainerTree,
    info: &Vec<WindowInfo>,
    focused: usize,
    reorder: &Vec<usize>,
    needs_focus_update: bool,
) -> (res: Result<Vec<usize>, WmError>)
    requires
        tree_wf(tree@),
        focused < tree@.len(),
        info@.len() == tree@.len(),
        forall|k: int| 0 <= k < reorder@.len() ==> (#[trigger] reorder@[k]) < tree@.len(),
    ensures
        match (res, spec_windows_to_bring_to_front(tree@, info@, focused, reorder@, needs_focus_update)) {
            (Ok(v), Ok(s)) => v@ == s,
            (Err(e), Err(f)) => e == f,
            _ => false,
        },
        res matches Ok(v) ==> forall|k: int| 0 <= k < v@.len() ==> (#[trigger] v@[k]) < tree@.len(),
{
    let ghost t = tree@;
    let fw = match tree.nearest(focused, KindClass::Workspace) {
        None => { return Err(WmError::NoWorkspace); },
        Some(fw) => fw,
    };
    let mut wss = reorder.clone();
    if needs_focus_update {
        wss.push(fw);
    }
    let wss = dedup_vec(&wss);
    proof {
        let src = if needs_focus_update { reorder@.push(fw) } else { reorder@ };
        assert forall|k: int| 0 <= k < wss@.len() implies (#[trigger] wss@[k]) < t.len() by {
            assert(dedup(src).contains(wss@[k]));
            lemma_dedup_contains(src, wss@[k]);
            let j = choose|j: int| 0 <= j < src.len() && src[j] == wss@[k];
        }
        assert(wss@.take(0) =~= Seq::<usize>::empty());
    }
    let mut out: Vec<usize> = Vec::new();
    let mut i: usize = 0;
    while i < wss.len()
        invariant
            t == tree@,
            tree_wf(t),
            info@.len() == t.len(),
            forall|k: int| 0 <= k < wss@.len() ==> (#[trigger] wss@[k]) < t.len(),
            i <= wss.len(),
            out@ == front_windows(t, info@, wss@.take(i as int)),
            forall|k: int| 0 <= k < out@.len() ==> (#[trigger] out@[k]) < t.len(),
        decreases wss.len() - i,
    {
        proof {
            let xs = wss@.take(i as int + 1);
            assert(xs.drop_last() =~= wss@.take(i as int));
            assert(xs.last() == wss@[i as int]);
        }
        push_front_windows(tree, info, wss[i], &mut out);
        i = i + 1;
    }
    proof {
        assert(wss@.take(wss.len() as int) =~= wss@);
    }
    Ok(out)
}

/// `c` and its descendants.
pub open spec fn self_and_descendants(t: Seq<ContainerView>, c: usize) -> Seq<usize> {
    seq![c] + descendants(t, c)
}

pub open spec fn redraw_candidates(t: Seq<ContainerView>, cs: Seq<usize>) -> Seq<usize>
    decreases cs.len(),
{
    if cs.len() == 0 {
        Seq::empty()
    } else {
        redraw_candidates(t, cs.drop_last()) + self_and_descendants(t, cs.last())
    }
}

pub open spec fn attached_window_pred(t: Seq<ContainerView>) -> spec_fn(usize) -> bool {
    |x: usize| t[x as int].kind.is_window() && t[x as int].parent is Some
}

/// The windows to redraw for the containers queued for redraw: the
/// attached windows among them and their descendants, each once.
pub open spec fn spec_windows_to_redraw(t: Seq<ContainerView>, cs: Seq<usize>) -> Seq<usize> {
    dedup(redraw_candidates(t, cs).filter(attached_window_pred(t)))
}

/// See [`spec_windows_to_redraw`].
pub fn windows_to_redraw(tree: &ContainerTree, cs: &Vec<usize>) -> (res: Vec<usize>)
    requires
        tree_wf(tree@),
        forall|k: int| 0 <= k < cs@.len() ==> (#[trigger] cs@[k]) < tree@.len(),
    ensures
        res@ == spec_windows_to_redraw(tree@, cs@),
        forall|k: int| 0 <= k < res@.len() ==> (#[trigger] res@[k]) < tree@.len(),
{
    let ghost t = tree@;
    let mut cand: Vec<usize> = Vec::new();
    let mut i: usize = 0;
    proof {
        assert(cs@.take(0) =~= Seq::<usize>::empty());
    }
    while i < cs.len()
        invariant
            t == tree@,
            tree_wf(t),
            forall|k: int| 0 <= k < cs@.len() ==> (#[trigger] cs@[k]) < t.len(),
            i <= cs.len(),
            cand@ == redraw_candidates(t, cs@.take(i as int)),
            forall|k: int| 0 <= k < cand@.len() ==> (#[trigger] cand@[k]) < t.len(),
        decreases cs.len() - i,
    {
        let c = cs[i];
        let d = all_descendants(tree, c);
        let ghost before = cand@;
        cand.push(c);
        cand = concat(&cand, &d);
        proof {
            let xs = cs@.take(i as int + 1);
            assert(xs.drop_last() =~= cs@.take(i as int));
            assert(xs.last() == c);
            assert(cand@ =~= redraw_candidates(t, xs));
            assert forall|k: int| 0 <= k < cand@.len() implies (#[trigger] cand@[k]) < t.len() by {
                if k < before.len() {
                    assert(cand@[k] == before[k]);
                } else if k > before.len() {
                    assert(cand@[k] == d@[k - before.len() - 1]);
                }
            }
        }
        i = i + 1;
    }
    proof {
        assert(cs@.take(cs.len() as int) =~= cs@);
    }
    let ghost pred = attached_window_pred(t);
    let mut ws: Vec<usize> = Vec::new();
    let mut j: usize = 0;
    proof {
        assert(cand@.take(0).filter(pred) =~= Seq::<usize>::empty());
    }
    while j < cand.len()
        invariant
            t == tree@,
            forall|k: int| 0 <= k < cand@.len() ==> (#[trigger] cand@[k]) < t.len(),
            pred == attached_window_pred(t),
            j <= cand.len(),
            ws@ == cand@.take(j as int).filter(pred),
            forall|k: int| 0 <= k < ws@.len() ==> (#[trigger] ws@[k]) < t.len(),
        decreases cand.len() - j,
    {
        let x = cand[j];
        proof {
            assert(cand@.take(j as int).push(x) =~= cand@.take(j as int + 1));
            cand@.take(j as int).lemma_filter_push(x, pred);
        }
        let k = tree.kind(x);
        if (k == ContainerKind::TilingWindow || k == ContainerKind::NonTilingWindow) && !tree.is_detached(x) {
            ws.push(x);
        }
        j = j + 1;
    }
    proof {
        assert(cand@.take(cand.len() as int) =~= cand@);
    }
    let res = dedup_vec(&ws);
    proof {
        assert forall|k: int| 0 <= k < res@.len() implies (#[trigger] res@[k]) < t.len() by {
            assert(res@.contains(res@[k]));
            lemma_dedup_contains(ws@, res@[k]);
            let j = choose|j: int| 0 <= j < ws@.len() && ws@[j] == res@[k];
        }
    }
    res
}

/// `ws` ordered by position in `order`: the windows missing from `order`
/// first (in their order), then the others in the order of their first
/// occurrence in `order`.
pub open spec fn focus_sorted(ws: Seq<usize>, order: Seq<usize>) -> Seq<usize> {
    ws.filter(not_in_pred(order)) + dedup(order.filter(in_pred(ws)))
}

/// The order in which a redraw updates windows: the windows to redraw and
/// to bring to the front, each once, most recently focused last.
pub open spec fn spec_update_order(t: Seq<ContainerView>, root: usize, redraw: Seq<usize>, front: Seq<usize>) -> Seq<usize> {
    focus_sorted(dedup(redraw + front), descendant_focus_order(t, root)).reverse()
}

/// See [`spec_update_order`].
pub fn update_order(tree: &ContainerTree, root: usize, redraw: &Vec<usize>, front: &Vec<usize>) -> (res: Vec<usize>)
    requires
        tree_wf(tree@),
        root < tree@.len(),
        forall|k: int| 0 <= k < redraw@.len() ==> (#[trigger] redraw@[k]) < tree@.len(),
        forall|k: int| 0 <= k < front@.len() ==> (#[trigger] front@[k]) < tree@.len(),
    ensures
        res@ == spec_update_order(tree@, root, redraw@, front@),
        forall|k: int| 0 <= k < res@.len() ==> (#[trigger] res@[k]) < tree@.len(),
{
    let both = concat(redraw, front);
    let all = dedup_vec(&both);
    let order = leaf_descendants(tree, root);
    let missing = without_all(&all, &order);
    let present = dedup_vec(&only(&order, &all));
    let joined = concat(&missing, &present);
    proof {
        let n = tree@.len();
        assert forall|k: int| 0 <= k < both@.len() implies (#[trigger] both@[k]) < n by {
            if k < redraw@.len() {
                assert(both@[k] == redraw@[k]);
            } else {
                assert(both@[k] == front@[k - redraw@.len()]);
            }
        }
        assert forall|k: int| 0 <= k < joined@.len() implies (#[trigger] joined@[k]) < n by {
            let x = joined@[k];
            if k < missing@.len() {
                assert(missing@[k] == x);
                assert(missing@.contains(x));
                lemma_filter_contains_iff(all@, not_in_pred(order@), x);
                lemma_dedup_contains(both@, x);
                let j = choose|j: int| 0 <= j < both@.len() && both@[j] == x;
            } else {
                assert(present@[k - missing@.len()] == x);
                assert(present@.contains(x));
                lemma_dedup_contains(order@.filter(in_pred(all@)), x);
                lemma_filter_contains_iff(order@, in_pred(all@), x);
                let j = choose|j: int| 0 <= j < order@.len() && order@[j] == x;
            }
        }
    }
    let res = reversed(&joined);
    proof {
        assert forall|k: int| 0 <= k < res@.len() implies (#[trigger] res@[k]) < tree@.len() by {
            assert(res@[k] == joined@[joined@.len() - 1 - k]);
        }
    }
    res
}


/// The workspace a monitor displays: its most recently focused child, when
/// that child is a workspace.
pub open spec fn displayed_workspace(t: Seq<ContainerView>, m: usize) -> Option<usize> {
    let f = t[m as int].focus;
    if f.len() > 0 && t[f[0] as int].kind == ContainerKind::Workspace { Some(f[0]) } else { None }
}

/// Whether workspace `ws` is the one its monitor displays.
pub open spec fn is_displayed(t: Seq<ContainerView>, ws: usize) -> bool {
    match monitor_of(t, ws) {
        Some(m) => displayed_workspace(t, m) == Some(ws),
        None => false,
    }
}

/// See [`displayed_workspace`].
pub fn displayed_workspace_of(tree: &ContainerTree, m: usize) -> (res: Option<usize>)
    requires
        tree_wf(tree@),
        m < tree@.len(),
    ensures
        res == displayed_workspace(tree@, m),
        res matches Some(w) ==> w < tree@.len(),
{
    let f = tree.focus_order(m);
    if f.len() > 0 {
        proof {
            assert(focus_ok(tree@, m as int));
            assert(links_ok(tree@, m as int));
            assert(tree@[m as int].focus.contains(f@[0]));
            let j = choose|j: int| 0 <= j < tree@[m as int].children.len() && tree@[m as int].children[j] == f@[0];
            assert(tree@[m as int].children[j] < tree@.len());
        }
        if tree.kind(f[0]) == ContainerKind::Workspace {
            return Some(f[0]);
        }
    }
    None
}

fn workspace_displayed(tree: &ContainerTree, ws: usize) -> (res: bool)
    requires
        tree_wf(tree@),
        ws < tree@.len(),
    ensures
        res == is_displayed(tree@, ws),
{
    match tree.nearest(ws, KindClass::Monitor) {
        Some(m) => displayed_workspace_of(tree, m) == Some(ws),
        None => false,
    }
}

/// What a redraw does to one window.
#[derive(Clone, Copy, Debug, PartialEq, Eq, Structural)]
pub struct WindowUpdate {
    pub window: usize,
    pub z_order: ZOrder,
    /// Only the z-order changes; the window keeps its position and display
    /// state.
    pub z_order_only: bool,
    /// The display state the window moves to.
    pub display_state: DisplayState,
    pub is_visible: bool,
    /// Hidden before and showing now.
    pub is_opening: bool,
    /// Hiding now.
    pub is_closing: bool,
    /// Marks the window as entering or leaving fullscreen.
    pub transitioning_fullscreen: bool,
    /// Sets the window's taskbar visibility.
    pub update_taskbar: bool,
    /// How the window is positioned: at its target rectangle or along an
    /// animation.
    pub animation: WindowAnimationPlan,
}

/// How the window manager hides windows and shows them in the taskbar.
#[derive(Clone, Copy, Debug, PartialEq, Eq, Structural)]
pub struct HideSettings {
    /// Windows are hidden by cloaking them.
    pub cloak: bool,
    pub show_all_in_taskbar: bool,
}

/// What a redraw does to window `w` (see [`WindowUpdate`]); it fails when
/// `w` has no workspace.
#[verifier::opaque]
pub open spec fn spec_window_update(
    t: Seq<ContainerView>,
    info: Seq<WindowInfo>,
    w: usize,
    front: Seq<usize>,
    redraw: Seq<usize>,
    hide: HideSettings,
    anim: AnimationSettings,
    motion: Seq<WindowMotion>,
) -> Result<WindowUpdate, WmError> {
    match workspace_of(t, w) {
        None => Err(WmError::NoWorkspace),
        Some(ws) => {
            let bring = front.contains(w);
            let i = info[w as int];
            let z = spec_z_order(i.state, bring, w, focused_window_of(t, ws));
            if bring && !redraw.contains(w) {
                Ok(WindowUpdate {
                    window: w,
                    z_order: z,
                    z_order_only: true,
                    display_state: i.display_state,
                    is_visible: is_visible_state(i.display_state),
                    is_opening: false,
                    is_closing: false,
                    transitioning_fullscreen: false,
                    update_taskbar: false,
                    animation: still_plan(),
                })
            } else {
                let ds = spec_next_display_state(i.display_state, is_displayed(t, ws));
                let opening = i.display_state == DisplayState::Hidden && ds == DisplayState::Showing;
                let closing = ds == DisplayState::Hiding;
                Ok(WindowUpdate {
                    window: w,
                    z_order: z,
                    z_order_only: false,
                    display_state: ds,
                    is_visible: is_visible_state(ds),
                    is_opening: opening,
                    is_closing: closing,
                    transitioning_fullscreen: spec_transitioning_fullscreen(i.prev_state, i.state),
                    update_taskbar: hide.cloak && !hide.show_all_in_taskbar
                        && (ds == DisplayState::Showing || ds == DisplayState::Hiding),
                    animation: spec_plan_window_animation(anim, opening, closing, motion[w as int]),
                })
            }
        },
    }
}

/// The updates of the windows of `order`, in order, up to the first that
/// fails, with that failure.
pub open spec fn spec_updates(
    t: Seq<ContainerView>,
    info: Seq<WindowInfo>,
    order: Seq<usize>,
    front: Seq<usize>,
    redraw: Seq<usize>,
    hide: HideSettings,
    anim: AnimationSettings,
    motion: Seq<WindowMotion>,
) -> (Seq<WindowUpdate>, Option<WmError>)
    decreases order.len(),
{
    if order.len() == 0 {
        (Seq::empty(), None)
    } else {
        let r = spec_updates(t, info, order.drop_last(), front, redraw, hide, anim, motion);
        if r.1 is Some {
            r
        } else {
            match spec_window_update(t, info, order.last(), front, redraw, hide, anim, motion) {
                Err(e) => (r.0, Some(e)),
                Ok(u) => (r.0.push(u), None),
            }
        }
    }
}

proof fn lemma_updates_err_prefix(
    t: Seq<ContainerView>,
    info: Seq<WindowInfo>,
    order: Seq<usize>,
    k: int,
    front: Seq<usize>,
    redraw: Seq<usize>,
    hide: HideSettings,
    anim: AnimationSettings,
    motion: Seq<WindowMotion>,
)
    requires
        0 <= k <= order.len(),
        spec_updates(t, info, order.take(k), front, redraw, hide, anim, motion).1 is Some,
    ensures
        spec_updates(t, info, order, front, redraw, hide, anim, motion) == spec_updates(t, info, order.take(k), front, redraw, hide, anim, motion),
    decreases order.len(),
{
    if k == order.len() {
        assert(order.take(k) =~= order);
    } else {
        let d = order.drop_last();
        assert(d.take(k) =~= order.take(k));
        lemma_updates_err_prefix(t, info, d, k, front, redraw, hide, anim, motion);
    }
}

/// With animations off, every update moves its window straight to its
/// target.
proof fn lemma_updates_without_animation(
    t: Seq<ContainerView>,
    info: Seq<WindowInfo>,
    order: Seq<usize>,
    front: Seq<usize>,
    redraw: Seq<usize>,
    hide: HideSettings,
    anim: AnimationSettings,
    motion: Seq<WindowMotion>,
)
    requires
        !anim.enabled,
    ensures
        forall|k: int| 0 <= k < spec_updates(t, info, order, front, redraw, hide, anim, motion).0.len()
            ==> (#[trigger] spec_updates(t, info, order, front, redraw, hide, anim, motion).0[k]).animation == still_plan(),
    decreases order.len(),
{
    if order.len() > 0 {
        lemma_updates_without_animation(t, info, order.drop_last(), front, redraw, hide, anim, motion);
        reveal(spec_window_update);
    }
}

fn window_update(
    tree: &ContainerTree,
    info: &Vec<WindowInfo>,
    w: usize,
    front: &Vec<usize>,
    redraw: &Vec<usize>,
    hide: HideSettings,
    anim: AnimationSettings,
    motion: &Vec<WindowMotion>,
) -> (res: Result<WindowUpdate, WmError>)
    requires
        tree_wf(tree@),
        w < tree@.len(),
        info@.len() == tree@.len(),
        motion@.len() == tree@.len(),
    ensures
        res == spec_window_update(tree@, info@, w, front@, redraw@, hide, anim, motion@),
{
    proof {
        reveal(spec_window_update);
    }
    let ws = match tree.nearest(w, KindClass::Workspace) {
        None => { return Err(WmError::NoWorkspace); },
        Some(ws) => ws,
    };
    let bring = contains(front, w);
    let i = info[w];
    let z = z_order(i.state, bring, w, focused_window(tree, ws));
    let vis = i.display_state == DisplayState::Showing || i.display_state == DisplayState::Shown;
    if bring && !contains(redraw, w) {
        return Ok(WindowUpdate {
            window: w,
            z_order: z,
            z_order_only: true,
            display_state: i.display_state,
            is_visible: vis,
            is_opening: false,
            is_closing: false,
            transitioning_fullscreen: false,
            update_taskbar: false,
            animation: WindowAnimationPlan { record_target: false, start: None, from_animation: false },
        });
    }
    let ds = next_display_state(i.display_state, workspace_displayed(tree, ws));
    let opening = i.display_state == DisplayState::Hidden && ds == DisplayState::Showing;
    let closing = ds == DisplayState::Hiding;
    let animation = plan_window_animation(anim, opening, closing, motion[w]);
    Ok(WindowUpdate {
        window: w,
        z_order: z,
        z_order_only: false,
        display_state: ds,
        is_visible: ds == DisplayState::Showing || ds == DisplayState::Shown,
        is_opening: opening,
        is_closing: closing,
        transitioning_fullscreen: transitioning_fullscreen(i.prev_state, i.state),
        update_taskbar: hide.cloak && !hide.show_all_in_taskbar && (ds == DisplayState::Showing || ds == DisplayState::Hiding),
        animation,
    })
}

fn run_updates(
    tree: &ContainerTree,
    info: &Vec<WindowInfo>,
    order: &Vec<usize>,
    front: &Vec<usize>,
    redraw: &Vec<usize>,
    hide: HideSettings,
    anim: AnimationSettings,
    motion: &Vec<WindowMotion>,
) -> (res: (Vec<WindowUpdate>, Option<WmError>))
    requires
        tree_wf(tree@),
        info@.len() == tree@.len(),
        motion@.len() == tree@.len(),
        forall|k: int| 0 <= k < order@.len() ==> (#[trigger] order@[k]) < tree@.len(),
    ensures
        (res.0@, res.1) == spec_updates(tree@, info@, order@, front@, redraw@, hide, anim, motion@),
{
    let ghost t = tree@;
    let mut ups: Vec<WindowUpdate> = Vec::new();
    let mut i: usize = 0;
    proof {
        assert(order@.take(0) =~= Seq::<usize>::empty());
    }
    while i < order.len()
        invariant
            t == tree@,
            tree_wf(t),
            info@.len() == t.len(),
            motion@.len() == t.len(),
            forall|k: int| 0 <= k < order@.len() ==> (#[trigger] order@[k]) < t.len(),
            i <= order.len(),
            (ups@, None::<WmError>) == spec_updates(t, info@, order@.take(i as int), front@, redraw@, hide, anim, motion@),
        decreases order.len() - i,
    {
        proof {
            let xs = order@.take(i as int + 1);
            assert(xs.drop_last() =~= order@.take(i as int));
            assert(xs.last() == order@[i as int]);
        }
        match window_update(tree, info, order[i], front, redraw, hide, anim, motion) {
            Err(e) => {
                proof {
                    lemma_updates_err_prefix(t, info@, order@, i as int + 1, front@, redraw@, hide, anim, motion@);
                }
                return (ups, Some(e));
            },
            Ok(u) => { ups.push(u); },
        }
        i = i + 1;
    }
    proof {
        assert(order@.take(order.len() as int) =~= order@);
    }
    (ups, None)
}

/// What redrawing does: the windows to bring to the front (see
/// [`spec_windows_to_bring_to_front`]) and to redraw (see
/// [`spec_windows_to_redraw`]) are updated in [`spec_update_order`]; the
/// updates made before a failure stand.
pub open spec fn spec_redraw_plan(
    t: Seq<ContainerView>,
    info: Seq<WindowInfo>,
    root: usize,
    focused: usize,
    to_redraw: Seq<usize>,
    reorder: Seq<usize>,
    needs_focus_update: bool,
    hide: HideSettings,
    anim: AnimationSettings,
    motion: Seq<WindowMotion>,
) -> (Seq<WindowUpdate>, Option<WmError>) {
    match spec_windows_to_bring_to_front(t, info, focused, reorder, needs_focus_update) {
        Err(e) => (Seq::empty(), Some(e)),
        Ok(front) => {
            let redraw = spec_windows_to_redraw(t, to_redraw);
            spec_updates(t, info, spec_update_order(t, root, redraw, front), front, redraw, hide, anim, motion)
        },
    }
}

/// Plans the redraw of the queued containers (see [`spec_redraw_plan`]).
pub fn redraw_containers(
    tree: &ContainerTree,
    info: &Vec<WindowInfo>,
    root: usize,
    focused: usize,
    to_redraw: &Vec<usize>,
    reorder: &Vec<usize>,
    needs_focus_update: bool,
    hide: HideSettings,
    anim: AnimationSettings,
    motion: &Vec<WindowMotion>,
) -> (res: (Vec<WindowUpdate>, Option<WmError>))
    requires
        tree_wf(tree@),
        root < tree@.len(),
        focused < tree@.len(),
        info@.len() == tree@.len(),
        motion@.len() == tree@.len(),
        forall|k: int| 0 <= k < to_redraw@.len() ==> (#[trigger] to_redraw@[k]) < tree@.len(),
        forall|k: int| 0 <= k < reorder@.len() ==> (#[trigger] reorder@[k]) < tree@.len(),
    ensures
        (res.0@, res.1) == spec_redraw_plan(tree@, info@, root, focused, to_redraw@, reorder@, needs_focus_update, hide, anim, motion@),
        !anim.enabled ==> forall|k: int| 0 <= k < res.0@.len() ==> (#[trigger] res.0@[k]).animation == still_plan(),
{
    let ghost t = tree@;
    let front = match windows_to_bring_to_front(tree, info, focused, reorder, needs_focus_update) {
        Err(e) => { return (Vec::new(), Some(e)); },
        Ok(f) => f,
    };
    let redraw = windows_to_redraw(tree, to_redraw);
    let order = update_order(tree, root, &redraw, &front);
    proof {
        if !anim.enabled {
            lemma_updates_without_animation(t, info@, order@, front@, redraw@, hide, anim, motion@);
        }
    }
    run_updates(tree, info, &order, &front, &redraw, hide, anim, motion)
}


// ---------------------------------------------------------------------
// The synchronisation step and its effects.
// ---------------------------------------------------------------------

/// What is pending since the last synchronisation with the platform.
#[derive(Clone, Debug, PartialEq, Eq)]
pub struct PendingSync {
    pub needs_focus_update: bool,
    pub containers_to_redraw: Vec<usize>,
    pub workspaces_to_reorder: Vec<usize>,
    pub needs_cursor_jump: bool,
    pub needs_focused_effect_update: bool,
    pub needs_all_effects_update: bool,
}

impl PendingSync {
    /// Nothing pending.
    pub fn new() -> (res: PendingSync)
        ensures
            res.is_clear(),
    {
        PendingSync {
            needs_focus_update: false,
            containers_to_redraw: Vec::new(),
            workspaces_to_reorder: Vec::new(),
            needs_cursor_jump: false,
            needs_focused_effect_update: false,
            needs_all_effects_update: false,
        }
    }

    /// No work is pending.
    pub open spec fn is_clear(self) -> bool {
        &&& !self.needs_focus_update
        &&& self.containers_to_redraw@.len() == 0
        &&& self.workspaces_to_reorder@.len() == 0
        &&& !self.needs_cursor_jump
        &&& !self.needs_focused_effect_update
        &&& !self.needs_all_effects_update
    }

    /// Containers to redraw or workspaces to reorder are queued.
    pub open spec fn has_redraws(self) -> bool {
        self.containers_to_redraw@.len() > 0 || self.workspaces_to_reorder@.len() > 0
    }
}

/// What a synchronisation does, in order: focus, redraw, cursor jump,
/// window effects.
#[derive(Clone, Debug, PartialEq, Eq)]
pub struct SyncPlan {
    pub focused: usize,
    pub sync_focus: bool,
    pub redraw: bool,
    /// The queued containers to redraw, handed over to the redraw.
    pub containers_to_redraw: Vec<usize>,
    /// The queued workspaces to reorder, handed over to the redraw.
    pub workspaces_to_reorder: Vec<usize>,
    pub jump_cursor: bool,
    /// Whether window effects are applied at all.
    pub update_effects: bool,
    /// The window that gets the focused effects.
    pub focused_effects_window: Option<usize>,
    /// The windows that get the unfocused effects.
    pub unfocused_effects_windows: Vec<usize>,
    /// The window with focused effects after this synchronisation.
    pub prev_effects_window: Option<usize>,
}

/// All windows below `root`.
pub open spec fn all_windows(t: Seq<ContainerView>, root: usize) -> Seq<usize> {
    descendants(t, root).filter(|x: usize| t[x as int].kind.is_window())
}

pub open spec fn option_seq(o: Option<usize>) -> Seq<usize> {
    match o {
        Some(x) => seq![x],
        None => Seq::empty(),
    }
}

/// The windows that get the unfocused effects: all windows when all
/// effects are updated, else the window that had the focused effects;
/// never the focused container.
pub open spec fn spec_unfocused_effects_windows(
    t: Seq<ContainerView>,
    root: usize,
    focused: usize,
    all_effects: bool,
    prev_effects_window: Option<usize>,
) -> Seq<usize> {
    (if all_effects { all_windows(t, root) } else { option_seq(prev_effects_window) }).filter(|x: usize| x != focused)
}

pub open spec fn spec_sync_plan_matches(
    t: Seq<ContainerView>,
    root: usize,
    pending: PendingSync,
    cursor_jump_enabled: bool,
    prev_effects_window: Option<usize>,
    plan: SyncPlan,
) -> bool {
    let effects = pending.needs_focused_effect_update || pending.needs_all_effects_update;
    let f = plan.focused;
    let fw = if t[f as int].kind.is_window() { Some(f) } else { None };
    &&& spec_focused_container(t, root) == Some(f)
    &&& plan.sync_focus == pending.needs_focus_update
    &&& plan.redraw == pending.has_redraws()
    &&& plan.containers_to_redraw@ == pending.containers_to_redraw@
    &&& plan.workspaces_to_reorder@ == pending.workspaces_to_reorder@
    &&& plan.jump_cursor == (pending.needs_cursor_jump && cursor_jump_enabled)
    &&& plan.update_effects == effects
    &&& plan.focused_effects_window == (if effects { fw } else { None })
    &&& plan.unfocused_effects_windows@ == (if effects {
        spec_unfocused_effects_windows(t, root, f, pending.needs_all_effects_update, prev_effects_window)
    } else {
        Seq::empty()
    })
    &&& plan.prev_effects_window == (if effects { fw } else { prev_effects_window })
}

/// Plans a synchronisation with the platform: it needs a focused
/// container, and does each step whose work is pending. The pending work
/// moves into the plan, and nothing is left pending; without a focused
/// container nothing changes.
pub fn platform_sync(
    tree: &ContainerTree,
    root: usize,
    pending: &mut PendingSync,
    cursor_jump_enabled: bool,
    prev_effects_window: Option<usize>,
) -> (res: Result<SyncPlan, WmError>)
    requires
        tree_wf(tree@),
        root < tree@.len(),
    ensures
        match res {
            Ok(plan) => spec_sync_plan_matches(tree@, root, *old(pending), cursor_jump_enabled, prev_effects_window, plan)
                && final(pending).is_clear(),
            Err(e) => e == WmError::NoFocusedContainer && spec_focused_container(tree@, root) is None
                && *final(pending) == *old(pending),
        },
{
    let ghost t = tree@;
    let f = match focused_container(tree, root) {
        None => { return Err(WmError::NoFocusedContainer); },
        Some(f) => f,
    };
    let mut to_redraw: Vec<usize> = Vec::new();
    let mut to_reorder: Vec<usize> = Vec::new();
    std::mem::swap(&mut to_redraw, &mut pending.containers_to_redraw);
    std::mem::swap(&mut to_reorder, &mut pending.workspaces_to_reorder);
    let has_redraws = to_redraw.len() > 0 || to_reorder.len() > 0;
    let needs_focus_update = pending.needs_focus_update;
    let needs_cursor_jump = pending.needs_cursor_jump;
    let needs_focused_effect_update = pending.needs_focused_effect_update;
    let needs_all_effects_update = pending.needs_all_effects_update;
    pending.needs_focus_update = false;
    pending.needs_cursor_jump = false;
    pending.needs_focused_effect_update = false;
    pending.needs_all_effects_update = false;
    let effects = needs_focused_effect_update || needs_all_effects_update;
    let k = tree.kind(f);
    let fw = if k == ContainerKind::TilingWindow || k == ContainerKind::NonTilingWindow { Some(f) } else { None };
    let mut unfocused: Vec<usize> = Vec::new();
    if effects {
        let candidates: Vec<usize> = if needs_all_effects_update {
            let d = all_descendants(tree, root);
            let ghost wpred = |x: usize| t[x as int].kind.is_window();
            let mut w: Vec<usize> = Vec::new();
            let mut i: usize = 0;
            proof {
                assert(d@.take(0).filter(wpred) =~= Seq::<usize>::empty());
            }
            while i < d.len()
                invariant
                    t == tree@,
                    d@ == descendants(t, root),
                    forall|q: int| 0 <= q < d@.len() ==> (#[trigger] d@[q]) < t.len(),
                    wpred == (|x: usize| t[x as int].kind.is_window()),
                    i <= d.len(),
                    w@ == d@.take(i as int).filter(wpred),
                decreases d.len() - i,
            {
                let x = d[i];
                proof {
                    assert(d@.take(i as int).push(x) =~= d@.take(i as int + 1));
                    d@.take(i as int).lemma_filter_push(x, wpred);
                }
                let kx = tree.kind(x);
                if kx == ContainerKind::TilingWindow || kx == ContainerKind::NonTilingWindow {
                    w.push(x);
                }
                i = i + 1;
            }
            proof {
                assert(d@.take(d.len() as int) =~= d@);
            }
            w
        } else {
            let mut w: Vec<usize> = Vec::new();
            match prev_effects_window {
                Some(x) => { w.push(x); },
                None => {},
            }
            proof {
                assert(w@ =~= option_seq(prev_effects_window));
            }
            w
        };
        unfocused = crate::seqs::without(&candidates, f);
        proof {
            assert(crate::seqs::ne_pred(f) == (|x: usize| x != f));
        }
    } else {
        proof {
            assert(unfocused@ =~= Seq::<usize>::empty());
        }
    }
    Ok(SyncPlan {
        focused: f,
        sync_focus: needs_focus_update,
        redraw: has_redraws,
        containers_to_redraw: to_redraw,
        workspaces_to_reorder: to_reorder,
        jump_cursor: needs_cursor_jump && cursor_jump_enabled,
        update_effects: effects,
        focused_effects_window: if effects { fw } else { None },
        unfocused_effects_windows: unfocused,
        prev_effects_window: if effects { fw } else { prev_effects_window },
    })
}

/// Which window effects are switched on for focused and for other windows.
#[derive(Clone, Copy, Debug, PartialEq, Eq, Structural)]
pub struct EffectSwitches {
    pub border: bool,
    pub hide_title_bar: bool,
    pub corner_style: bool,
    pub transparency: bool,
}

/// The effects to apply to one window. Each is `None` when neither focused
/// nor other windows use it; otherwise `Some(true)` applies the configured
/// value (border colour, hidden title bar, corner style, opacity) and
/// `Some(false)` restores the default.
#[derive(Clone, Copy, Debug, PartialEq, Eq, Structural)]
pub struct WindowEffects {
    pub border: Option<bool>,
    pub hide_title_bar: Option<bool>,
    pub corner_style: Option<bool>,
    pub transparency: Option<bool>,
}

pub open spec fn effect_step(any: bool, mine: bool) -> Option<bool> {
    if any { Some(mine) } else { None }
}

/// The effects for a window, from the switches of the focused-window and
/// the other-window settings.
pub open spec fn spec_window_effects(focused_cfg: EffectSwitches, other_cfg: EffectSwitches, is_focused: bool) -> WindowEffects {
    let mine = if is_focused { focused_cfg } else { other_cfg };
    WindowEffects {
        border: effect_step(focused_cfg.border || other_cfg.border, mine.border),
        hide_title_bar: effect_step(focused_cfg.hide_title_bar || other_cfg.hide_title_bar, mine.hide_title_bar),
        corner_style: effect_step(focused_cfg.corner_style || other_cfg.corner_style, mine.corner_style),
        transparency: effect_step(focused_cfg.transparency || other_cfg.transparency, mine.transparency),
    }
}

/// See [`spec_window_effects`].
pub fn apply_window_effects(focused_cfg: EffectSwitches, other_cfg: EffectSwitches, is_focused: bool) -> (res: WindowEffects)
    ensures
        res == spec_window_effects(focused_cfg, other_cfg, is_focused),
{
    let mine = if is_focused { focused_cfg } else { other_cfg };
    WindowEffects {
        border: if focused_cfg.border || other_cfg.border { Some(mine.border) } else { None },
        hide_title_bar: if focused_cfg.hide_title_bar || other_cfg.hide_title_bar { Some(mine.hide_title_bar) } else { None },
        corner_style: if focused_cfg.corner_style || other_cfg.corner_style { Some(mine.corner_style) } else { None },
        transparency: if focused_cfg.transparency || other_cfg.transparency { Some(mine.transparency) } else { None },
    }
}

/// What moves the cursor after a synchronisation.
#[derive(Clone, Copy, Debug, PartialEq, Eq, Structural)]
pub enum CursorJumpTrigger {
    WindowFocus,
    MonitorFocus,
}

/// The container to centre the cursor on: the focused container on window
/// focus; on monitor focus, the focused container's monitor when the
/// cursor is on another monitor (nothing when it is on none).
pub open spec fn spec_jump_target(
    t: Seq<ContainerView>,
    focused: usize,
    trigger: CursorJumpTrigger,
    cursor_monitor: Option<usize>,
) -> Result<Option<usize>, WmError> {
    match trigger {
        CursorJumpTrigger::WindowFocus => Ok(Some(focused)),
        CursorJumpTrigger::MonitorFocus => match monitor_of(t, focused) {
            None => Err(WmError::NoMonitor),
            Some(m) => match cursor_monitor {
                Some(cm) => if cm != m { Ok(Some(m)) } else { Ok(None) },
                None => Ok(None),
            },
        },
    }
}

/// See [`spec_jump_target`].
pub fn jump_cursor(tree: &ContainerTree, focused: usize, trigger: CursorJumpTrigger, cursor_monitor: Option<usize>) -> (res: Result<Option<usize>, WmError>)
    requires
        tree_wf(tree@),
        focused < tree@.len(),
    ensures
        res == spec_jump_target(tree@, focused, trigger, cursor_monitor),
{
    match trigger {
        CursorJumpTrigger::WindowFocus => Ok(Some(focused)),
        CursorJumpTrigger::MonitorFocus => match tree.nearest(focused, KindClass::Monitor) {
            None => Err(WmError::NoMonitor),
            Some(m) => match cursor_monitor {
                Some(cm) => if cm != m { Ok(Some(m)) } else { Ok(None) },
                None => Ok(None),
            },
        },
    }
}

/// The window to centre the cursor on: the focused container when it is a
/// window, nothing otherwise (an empty workspace, or no focus at all).
pub fn move_cursor_to_active_window(tree: &ContainerTree, root: usize) -> (res: Option<usize>)
    requires
        tree_wf(tree@),
        root < tree@.len(),
    ensures
        res == (match spec_focused_container(tree@, root) {
            Some(f) => if tree@[f as int].kind.is_window() { Some(f) } else { None },
            None => None,
        }),
{
    match focused_container(tree, root) {
        None => None,
        Some(f) => {
            let k = tree.kind(f);
            if k == ContainerKind::TilingWindow || k == ContainerKind::NonTilingWindow { Some(f) } else { None }
        },
    }
}


/// The containers whose gaps follow a configuration change: the tiling
/// containers among the root and its descendants (their inner gaps), and
/// the workspaces of every monitor (their outer gaps and maximum window
/// width).
pub fn update_container_gaps(tree: &ContainerTree, root: usize) -> (res: (Vec<usize>, Vec<usize>))
    requires
        tree_wf(tree@),
        root < tree@.len(),
    ensures
        res.0@ == self_and_descendants(tree@, root).filter(|x: usize| tree@[x as int].kind.is_tiling_container()),
        res.1@ == crate::monitors::workspaces_in(tree@, crate::monitors::monitors_of(tree@, root)),
{
    let ghost t = tree@;
    let mut all: Vec<usize> = Vec::new();
    all.push(root);
    let d = all_descendants(tree, root);
    let all = concat(&all, &d);
    let ghost pred = |x: usize| t[x as int].kind.is_tiling_container();
    proof {
        assert(all@ =~= self_and_descendants(t, root));
        assert(all@.take(0).filter(pred) =~= Seq::<usize>::empty());
        assert forall|k: int| 0 <= k < all@.len() implies (#[trigger] all@[k]) < t.len() by {
            if k > 0 {
                assert(all@[k] == d@[k - 1]);
            }
        }
    }
    let mut tiling: Vec<usize> = Vec::new();
    let mut i: usize = 0;
    while i < all.len()
        invariant
            t == tree@,
            forall|k: int| 0 <= k < all@.len() ==> (#[trigger] all@[k]) < t.len(),
            pred == (|x: usize| t[x as int].kind.is_tiling_container()),
            i <= all.len(),
            tiling@ == all@.take(i as int).filter(pred),
        decreases all.len() - i,
    {
        let x = all[i];
        proof {
            assert(all@.take(i as int).push(x) =~= all@.take(i as int + 1));
            all@.take(i as int).lemma_filter_push(x, pred);
        }
        if tree.is_tiling_container(x) {
            tiling.push(x);
        }
        i = i + 1;
    }
    proof {
        assert(all@.take(all.len() as int) =~= all@);
    }
    let ms = crate::monitors::children_of_kind(tree, root, ContainerKind::Monitor);
    let wss = crate::monitors::workspaces_of_monitors(tree, &ms);
    (tiling, wss)
}

/// Whether the tray icon is shown.
#[derive(Clone, Copy, Debug, PartialEq, Eq, Structural)]
pub enum TrayIconMode {
    Shown,
    Hidden,
}

/// The runtime tray icon mode after a toggle.
pub fn toggle_tray_icon_mode(mode: TrayIconMode) -> (res: TrayIconMode)
    ensures
        res != mode,
{
    match mode {
        TrayIconMode::Shown => TrayIconMode::Hidden,
        TrayIconMode::Hidden => TrayIconMode::Shown,
    }
}

} // verus!
