//! Moving a floating window in a direction: in steps across its monitor,
//! snapping to the monitor's edges, and over to the next monitor.
use vstd::prelude::*;
use crate::common::Direction;
use crate::sync::Rect;
use crate::app_command::{WindowState, WindowPositionTarget};

verus! {

/// How close (in pixels) a step may bring a window to a monitor edge
/// before the window snaps to it.
pub const SNAP_DISTANCE: i32 = 15;

pub open spec fn fits_i32(x: int) -> bool {
    i32::MIN <= x <= i32::MAX
}

pub open spec fn width(r: Rect) -> int {
    r.right - r.left
}

pub open spec fn height(r: Rect) -> int {
    r.bottom - r.top
}

/// Integer division rounding towards zero, as `/` does on machine integers.
pub open spec fn trunc_div(a: int, b: int) -> int {
    if a >= 0 { a / b } else { -((-a) / b) }
}

/// `r` moved so that its top-left corner is at (`x`, `y`), keeping its size.
pub open spec fn moved_to(r: Rect, x: int, y: int) -> Rect {
    Rect { left: x as i32, top: y as i32, right: (x + width(r)) as i32, bottom: (y + height(r)) as i32 }
}

/// Whether moving `r` to (`x`, `y`) stays within machine integers.
pub open spec fn moved_to_fits(r: Rect, x: int, y: int) -> bool {
    &&& fits_i32(width(r))
    &&& fits_i32(height(r))
    &&& fits_i32(x)
    &&& fits_i32(y)
    &&& fits_i32(x + width(r))
    &&& fits_i32(y + height(r))
}

fn move_to(r: Rect, x: i32, y: i32) -> (res: Rect)
    requires
        moved_to_fits(r, x as int, y as int),
    ensures
        res == moved_to(r, x as int, y as int),
{
    let w = r.right - r.left;
    let h = r.bottom - r.top;
    Rect { left: x, top: y, right: x + w, bottom: y + h }
}

/// The top-left corner that puts window `w` against edge `edge` of `m`,
/// keeping its other coordinate.
pub open spec fn snap_corner(w: Rect, m: Rect, edge: Direction) -> (int, int) {
    match edge {
        Direction::Up => (w.left as int, m.top as int),
        Direction::Down => (w.left as int, m.bottom - height(w)),
        Direction::Left => (m.left as int, w.top as int),
        Direction::Right => (m.right - width(w), w.top as int),
    }
}

/// Window `w` moved against edge `edge` of monitor area `m`.
pub open spec fn spec_snap_to_monitor_edge(w: Rect, m: Rect, edge: Direction) -> Rect {
    moved_to(w, snap_corner(w, m, edge).0, snap_corner(w, m, edge).1)
}

pub open spec fn snap_fits(w: Rect, m: Rect, edge: Direction) -> bool {
    moved_to_fits(w, snap_corner(w, m, edge).0, snap_corner(w, m, edge).1)
}

/// See [`spec_snap_to_monitor_edge`].
pub fn snap_to_monitor_edge(w: Rect, m: Rect, edge: Direction) -> (res: Rect)
    requires
        snap_fits(w, m, edge),
    ensures
        res == spec_snap_to_monitor_edge(w, m, edge),
{
    let (x, y) = match edge {
        Direction::Up => (w.left, m.top),
        Direction::Down => (w.left, m.bottom - (w.bottom - w.top)),
        Direction::Left => (m.left, w.top),
        Direction::Right => (m.right - (w.right - w.left), w.top),
    };
    move_to(w, x, y)
}

/// `r` moved into `outer`: its top-left corner no further up or left than
/// `outer`'s, and its size no larger than `outer`'s.
pub open spec fn spec_clamp(r: Rect, outer: Rect) -> Rect {
    let x = if r.left >= outer.left { r.left } else { outer.left };
    let y = if r.top >= outer.top { r.top } else { outer.top };
    let w = if width(r) <= width(outer) { width(r) } else { width(outer) };
    let h = if height(r) <= height(outer) { height(r) } else { height(outer) };
    Rect { left: x, top: y, right: (x + w) as i32, bottom: (y + h) as i32 }
}

pub open spec fn clamp_fits(r: Rect, outer: Rect) -> bool {
    let x = if r.left >= outer.left { r.left } else { outer.left };
    let y = if r.top >= outer.top { r.top } else { outer.top };
    let w = if width(r) <= width(outer) { width(r) } else { width(outer) };
    let h = if height(r) <= height(outer) { height(r) } else { height(outer) };
    &&& fits_i32(width(r))
    &&& fits_i32(height(r))
    &&& fits_i32(width(outer))
    &&& fits_i32(height(outer))
    &&& fits_i32(x + w)
    &&& fits_i32(y + h)
}

/// See [`spec_clamp`].
pub fn clamp(r: Rect, outer: Rect) -> (res: Rect)
    requires
        clamp_fits(r, outer),
    ensures
        res == spec_clamp(r, outer),
{
    let x = if r.left >= outer.left { r.left } else { outer.left };
    let y = if r.top >= outer.top { r.top } else { outer.top };
    let rw = r.right - r.left;
    let ow = outer.right - outer.left;
    let rh = r.bottom - r.top;
    let oh = outer.bottom - outer.top;
    let w = if rw <= ow { rw } else { ow };
    let h = if rh <= oh { rh } else { oh };
    Rect { left: x, top: y, right: x + w, bottom: y + h }
}

/// Whether window `w` touches the edge of monitor area `m` in direction `d`.
pub open spec fn on_monitor_edge(w: Rect, m: Rect, d: Direction) -> bool {
    match d {
        Direction::Up => w.top == m.top,
        Direction::Down => w.bottom == m.bottom,
        Direction::Left => w.left == m.left,
        Direction::Right => w.right == m.right,
    }
}

/// The lengths of monitor area `m` and window `w` along the axis of `d`.
pub open spec fn lengths(w: Rect, m: Rect, d: Direction) -> (int, int) {
    match d {
        Direction::Up | Direction::Down => (height(m), height(w)),
        _ => (width(m), width(w)),
    }
}

/// How far a step moves the window: the room left on the monitor along
/// the axis, divided by `divisor` (which the caller picks from the
/// window's share of that length: 5 below a fifth, 4 below two fifths, 3
/// below three fifths, 2 otherwise).
pub open spec fn move_distance(w: Rect, m: Rect, d: Direction, divisor: int) -> int {
    trunc_div(lengths(w, m, d).0 - lengths(w, m, d).1, divisor)
}

/// Whether a step of `dist` would bring the window within
/// [`SNAP_DISTANCE`] of (or past) the monitor edge in direction `d`.
pub open spec fn near_edge(w: Rect, m: Rect, d: Direction, dist: int) -> bool {
    match d {
        Direction::Up => w.top - dist - SNAP_DISTANCE < m.top,
        Direction::Down => w.bottom + dist + SNAP_DISTANCE > m.bottom,
        Direction::Left => w.left - dist - SNAP_DISTANCE < m.left,
        Direction::Right => w.right + dist + SNAP_DISTANCE > m.right,
    }
}

/// Whether the window reaches past the monitor edge opposite to `d`.
pub open spec fn past_opposite_edge(w: Rect, m: Rect, d: Direction) -> bool {
    match d {
        Direction::Up => w.bottom > m.bottom,
        Direction::Down => w.top < m.top,
        Direction::Left => w.right > m.right,
        Direction::Right => w.left < m.left,
    }
}

/// The top-left corner of `w` moved by `dist` in direction `d`.
pub open spec fn step_corner(w: Rect, d: Direction, dist: int) -> (int, int) {
    match d {
        Direction::Up => (w.left as int, w.top - dist),
        Direction::Down => (w.left as int, w.top + dist),
        Direction::Left => (w.left - dist, w.top as int),
        Direction::Right => (w.left + dist, w.top as int),
    }
}

/// Where a floating window goes when moved in direction `d` on its
/// monitor.
#[derive(Clone, Copy, Debug, PartialEq, Eq, Structural)]
pub enum FloatingStep {
    /// The window touches the monitor edge that way: it goes over to the
    /// monitor beyond (see [`position_on_next_monitor`]), or, when there is
    /// none, to the neighbouring workspace.
    CrossMonitor,
    /// The window's new position on its own monitor.
    Within(Rect),
}

/// One step of a floating window `w` on monitor area `m` in direction
/// `d`: at the edge it crosses to the next monitor; a step that would come
/// near the edge snaps to it instead; a window sticking out past the
/// opposite edge snaps back to that edge; otherwise it moves by
/// [`move_distance`].
pub open spec fn spec_new_floating_position(w: Rect, m: Rect, d: Direction, divisor: int) -> FloatingStep {
    if on_monitor_edge(w, m, d) {
        FloatingStep::CrossMonitor
    } else {
        let dist = move_distance(w, m, d, divisor);
        if near_edge(w, m, d, dist) {
            FloatingStep::Within(spec_snap_to_monitor_edge(w, m, d))
        } else if past_opposite_edge(w, m, d) {
            FloatingStep::Within(spec_snap_to_monitor_edge(w, m, d.spec_inverse()))
        } else {
            FloatingStep::Within(moved_to(w, step_corner(w, d, dist).0, step_corner(w, d, dist).1))
        }
    }
}

/// The machine-integer conditions under which the step computes without
/// overflow: the lengths and their difference, the edge test, and the
/// position chosen.
pub open spec fn floating_step_fits(w: Rect, m: Rect, d: Direction, divisor: int) -> bool {
    let (ml, wl) = lengths(w, m, d);
    let dist = move_distance(w, m, d, divisor);
    &&& fits_i32(ml)
    &&& fits_i32(wl)
    &&& fits_i32(ml - wl)
    &&& (on_monitor_edge(w, m, d) || {
        &&& match d {
            Direction::Up => fits_i32(w.top - dist) && fits_i32(w.top - dist - SNAP_DISTANCE),
            Direction::Down => fits_i32(w.bottom + dist) && fits_i32(w.bottom + dist + SNAP_DISTANCE),
            Direction::Left => fits_i32(w.left - dist) && fits_i32(w.left - dist - SNAP_DISTANCE),
            Direction::Right => fits_i32(w.right + dist) && fits_i32(w.right + dist + SNAP_DISTANCE),
        }
        &&& if near_edge(w, m, d, dist) {
            snap_fits(w, m, d)
        } else if past_opposite_edge(w, m, d) {
            snap_fits(w, m, d.spec_inverse())
        } else {
            moved_to_fits(w, step_corner(w, d, dist).0, step_corner(w, d, dist).1)
        }
    })
}


fn fits(v: i64) -> (res: bool)
    ensures
        res == fits_i32(v as int),
{
    v >= -2147483648i64 && v <= 2147483647i64
}

fn corner_fits(r: Rect, x: i64, y: i64) -> (res: bool)
    requires
        -0x2_0000_0000int <= x <= 0x2_0000_0000int,
        -0x2_0000_0000int <= y <= 0x2_0000_0000int,
    ensures
        res == moved_to_fits(r, x as int, y as int),
{
    let w = r.right as i64 - r.left as i64;
    let h = r.bottom as i64 - r.top as i64;
    fits(w) && fits(h) && fits(x) && fits(y) && fits(x + w) && fits(y + h)
}

fn snap_corner_exec(w: Rect, m: Rect, edge: Direction) -> (res: (i64, i64))
    ensures
        res.0 == snap_corner(w, m, edge).0,
        res.1 == snap_corner(w, m, edge).1,
        -0x2_0000_0000int <= res.0 <= 0x2_0000_0000int,
        -0x2_0000_0000int <= res.1 <= 0x2_0000_0000int,
{
    match edge {
        Direction::Up => (w.left as i64, m.top as i64),
        Direction::Down => (w.left as i64, m.bottom as i64 - (w.bottom as i64 - w.top as i64)),
        Direction::Left => (m.left as i64, w.top as i64),
        Direction::Right => (m.right as i64 - (w.right as i64 - w.left as i64), w.top as i64),
    }
}

/// Whether a step (see [`spec_new_floating_position`]) computes within
/// machine integers: the condition [`new_floating_position`] needs.
pub fn floating_step_in_range(w: Rect, m: Rect, d: Direction, divisor: i32) -> (res: bool)
    requires
        divisor > 0,
    ensures
        res == floating_step_fits(w, m, d, divisor as int),
{
    let (ml, wl) = match d {
        Direction::Up | Direction::Down => (m.bottom as i64 - m.top as i64, w.bottom as i64 - w.top as i64),
        _ => (m.right as i64 - m.left as i64, w.right as i64 - w.left as i64),
    };
    if !(fits(ml) && fits(wl) && fits(ml - wl)) {
        return false;
    }
    let on_edge = match d {
        Direction::Up => w.top == m.top,
        Direction::Down => w.bottom == m.bottom,
        Direction::Left => w.left == m.left,
        Direction::Right => w.right == m.right,
    };
    if on_edge {
        return true;
    }
    let delta = ml - wl;
    let dist = delta / (divisor as i64);
    proof {
        assert(dist == move_distance(w, m, d, divisor as int));
    }
    let edge_ok = match d {
        Direction::Up => fits(w.top as i64 - dist) && fits(w.top as i64 - dist - 15),
        Direction::Down => fits(w.bottom as i64 + dist) && fits(w.bottom as i64 + dist + 15),
        Direction::Left => fits(w.left as i64 - dist) && fits(w.left as i64 - dist - 15),
        Direction::Right => fits(w.right as i64 + dist) && fits(w.right as i64 + dist + 15),
    };
    if !edge_ok {
        return false;
    }
    let near = match d {
        Direction::Up => w.top as i64 - dist - 15 < m.top as i64,
        Direction::Down => w.bottom as i64 + dist + 15 > m.bottom as i64,
        Direction::Left => w.left as i64 - dist - 15 < m.left as i64,
        Direction::Right => w.right as i64 + dist + 15 > m.right as i64,
    };
    if near {
        let (x, y) = snap_corner_exec(w, m, d);
        return corner_fits(w, x, y);
    }
    let back = match d {
        Direction::Up => w.bottom > m.bottom,
        Direction::Down => w.top < m.top,
        Direction::Left => w.right > m.right,
        Direction::Right => w.left < m.left,
    };
    if back {
        let (x, y) = snap_corner_exec(w, m, d.inverse());
        return corner_fits(w, x, y);
    }
    let (x, y) = match d {
        Direction::Up => (w.left as i64, w.top as i64 - dist),
        Direction::Down => (w.left as i64, w.top as i64 + dist),
        Direction::Left => (w.left as i64 - dist, w.top as i64),
        Direction::Right => (w.left as i64 + dist, w.top as i64),
    };
    corner_fits(w, x, y)
}

/// See [`spec_new_floating_position`].
pub fn new_floating_position(w: Rect, m: Rect, d: Direction, divisor: i32) -> (res: FloatingStep)
    requires
        divisor > 0,
        floating_step_fits(w, m, d, divisor as int),
    ensures
        res == spec_new_floating_position(w, m, d, divisor as int),
{
    let on_edge = match d {
        Direction::Up => w.top == m.top,
        Direction::Down => w.bottom == m.bottom,
        Direction::Left => w.left == m.left,
        Direction::Right => w.right == m.right,
    };
    if on_edge {
        return FloatingStep::CrossMonitor;
    }
    let (monitor_length, window_length) = match d {
        Direction::Up | Direction::Down => (m.bottom - m.top, w.bottom - w.top),
        _ => (m.right - m.left, w.right - w.left),
    };
    let length_delta = monitor_length - window_length;
    let dist = length_delta / divisor;
    proof {
        assert(dist == move_distance(w, m, d, divisor as int));
    }
    let snap = match d {
        Direction::Up => w.top - dist - SNAP_DISTANCE < m.top,
        Direction::Down => w.bottom + dist + SNAP_DISTANCE > m.bottom,
        Direction::Left => w.left - dist - SNAP_DISTANCE < m.left,
        Direction::Right => w.right + dist + SNAP_DISTANCE > m.right,
    };
    if snap {
        return FloatingStep::Within(snap_to_monitor_edge(w, m, d));
    }
    let back = match d {
        Direction::Up => w.bottom > m.bottom,
        Direction::Down => w.top < m.top,
        Direction::Left => w.right > m.right,
        Direction::Right => w.left < m.left,
    };
    if back {
        return FloatingStep::Within(snap_to_monitor_edge(w, m, d.inverse()));
    }
    let (x, y) = match d {
        Direction::Up => (w.left, w.top - dist),
        Direction::Down => (w.left, w.top + dist),
        Direction::Left => (w.left - dist, w.top),
        Direction::Right => (w.left + dist, w.top),
    };
    FloatingStep::Within(move_to(w, x, y))
}

/// Where a floating window crossing to the monitor with area `next` in
/// direction `d` lands: against the edge it enters by, moved into the
/// monitor area.
pub open spec fn spec_position_on_next_monitor(w: Rect, next: Rect, d: Direction) -> Rect {
    spec_clamp(spec_snap_to_monitor_edge(w, next, d.spec_inverse()), next)
}

/// See [`spec_position_on_next_monitor`].
pub fn position_on_next_monitor(w: Rect, next: Rect, d: Direction) -> (res: Rect)
    requires
        snap_fits(w, next, d.spec_inverse()),
        clamp_fits(spec_snap_to_monitor_edge(w, next, d.spec_inverse()), next),
    ensures
        res == spec_position_on_next_monitor(w, next, d),
{
    clamp(snap_to_monitor_edge(w, next, d.inverse()), next)
}



/// The top-left corner that centres `r` in `outer` (halves rounded
/// towards zero).
pub open spec fn center_corner(r: Rect, outer: Rect) -> (int, int) {
    (outer.left + trunc_div(width(outer), 2) - trunc_div(width(r), 2),
     outer.top + trunc_div(height(outer), 2) - trunc_div(height(r), 2))
}

pub open spec fn center_fits(r: Rect, outer: Rect) -> bool {
    &&& fits_i32(width(outer))
    &&& fits_i32(height(outer))
    &&& fits_i32(outer.left + trunc_div(width(outer), 2))
    &&& fits_i32(outer.top + trunc_div(height(outer), 2))
    &&& moved_to_fits(r, center_corner(r, outer).0, center_corner(r, outer).1)
}

/// `r` moved to the centre of `outer`, keeping its size.
pub fn translate_to_center(r: Rect, outer: Rect) -> (res: Rect)
    requires
        center_fits(r, outer),
    ensures
        res == moved_to(r, center_corner(r, outer).0, center_corner(r, outer).1),
{
    let ow = outer.right - outer.left;
    let oh = outer.bottom - outer.top;
    let rw = r.right - r.left;
    let rh = r.bottom - r.top;
    let x = outer.left + ow / 2 - rw / 2;
    let y = outer.top + oh / 2 - rh / 2;
    move_to(r, x, y)
}

/// Where `set_window_position` puts a floating window with placement
/// `placement` in a workspace with area `workspace`: centred, or at the
/// given coordinates (each missing one kept); the flag says whether the
/// placement is now a custom one (not centred). Windows in other states
/// are left alone.
pub open spec fn spec_window_position(state: WindowState, placement: Rect, target: WindowPositionTarget, workspace: Rect) -> Option<(Rect, bool)> {
    if !(state is Floating) {
        None
    } else {
        match target {
            WindowPositionTarget::Centered =>
                Some((moved_to(placement, center_corner(placement, workspace).0, center_corner(placement, workspace).1), false)),
            WindowPositionTarget::Coordinates(x, y) => {
                let nx: int = match x { Some(v) => v as int, None => placement.left as int };
                let ny: int = match y { Some(v) => v as int, None => placement.top as int };
                Some((moved_to(placement, nx, ny), true))
            },
        }
    }
}

pub open spec fn window_position_fits(state: WindowState, placement: Rect, target: WindowPositionTarget, workspace: Rect) -> bool {
    state is Floating ==> match target {
        WindowPositionTarget::Centered => center_fits(placement, workspace),
        WindowPositionTarget::Coordinates(x, y) => {
            let nx: int = match x { Some(v) => v as int, None => placement.left as int };
            let ny: int = match y { Some(v) => v as int, None => placement.top as int };
            moved_to_fits(placement, nx, ny)
        },
    }
}

/// See [`spec_window_position`].
pub fn set_window_position(state: WindowState, placement: Rect, target: WindowPositionTarget, workspace: Rect) -> (res: Option<(Rect, bool)>)
    requires
        window_position_fits(state, placement, target, workspace),
    ensures
        res == spec_window_position(state, placement, target, workspace),
{
    match state {
        WindowState::Floating { .. } => {},
        _ => { return None; },
    }
    match target {
        WindowPositionTarget::Centered => Some((translate_to_center(placement, workspace), false)),
        WindowPositionTarget::Coordinates(x, y) => {
            let nx = match x { Some(v) => v, None => placement.left };
            let ny = match y { Some(v) => v, None => placement.top };
            Some((move_to(placement, nx, ny), true))
        },
    }
}

/// A window snapped against an edge of its monitor lies on that edge and
/// keeps its size; so the next step that way crosses to the next monitor.
pub proof fn snapped_window_lies_on_the_edge(w: Rect, m: Rect, d: Direction, divisor: int)
    requires
        snap_fits(w, m, d),
    ensures
        on_monitor_edge(spec_snap_to_monitor_edge(w, m, d), m, d),
        width(spec_snap_to_monitor_edge(w, m, d)) == width(w),
        height(spec_snap_to_monitor_edge(w, m, d)) == height(w),
        spec_new_floating_position(spec_snap_to_monitor_edge(w, m, d), m, d, divisor) == FloatingStep::CrossMonitor,
{
}

} // verus!
