use wm::common::Direction;
use wm::floating_moves::{
    clamp, floating_step_in_range, new_floating_position, position_on_next_monitor, snap_to_monitor_edge, FloatingStep,
};
use wm::sync::Rect;

fn rect(left: i32, top: i32, right: i32, bottom: i32) -> Rect {
    Rect { left, top, right, bottom }
}

const MONITOR: Rect = Rect { left: 0, top: 0, right: 1000, bottom: 800 };

#[test]
fn snapping_puts_the_window_against_each_edge() {
    let w = rect(100, 100, 300, 200);
    assert_eq!(snap_to_monitor_edge(w, MONITOR, Direction::Up), rect(100, 0, 300, 100));
    assert_eq!(snap_to_monitor_edge(w, MONITOR, Direction::Down), rect(100, 700, 300, 800));
    assert_eq!(snap_to_monitor_edge(w, MONITOR, Direction::Left), rect(0, 100, 200, 200));
    assert_eq!(snap_to_monitor_edge(w, MONITOR, Direction::Right), rect(800, 100, 1000, 200));
}

#[test]
fn a_window_on_the_edge_crosses_to_the_next_monitor() {
    let w = rect(0, 100, 200, 200);
    assert_eq!(new_floating_position(w, MONITOR, Direction::Left, 4), FloatingStep::CrossMonitor);
    let w = rect(800, 600, 1000, 800);
    assert_eq!(new_floating_position(w, MONITOR, Direction::Down, 4), FloatingStep::CrossMonitor);
}

#[test]
fn a_step_moves_by_a_share_of_the_free_room() {
    // 800 pixels of room, divided by 4: a step of 200.
    let w = rect(100, 100, 300, 200);
    assert_eq!(new_floating_position(w, MONITOR, Direction::Right, 4), FloatingStep::Within(rect(300, 100, 500, 200)));
    // 700 pixels of room vertically, divided by 5: a step of 140.
    let w = rect(100, 500, 300, 600);
    assert_eq!(new_floating_position(w, MONITOR, Direction::Up, 5), FloatingStep::Within(rect(100, 360, 300, 460)));
}

#[test]
fn a_step_near_the_edge_snaps_to_it() {
    let w = rect(700, 100, 900, 200);
    assert_eq!(new_floating_position(w, MONITOR, Direction::Right, 4), FloatingStep::Within(rect(800, 100, 1000, 200)));
    let w = rect(100, 50, 300, 150);
    assert_eq!(new_floating_position(w, MONITOR, Direction::Up, 4), FloatingStep::Within(rect(100, 0, 300, 100)));
}

#[test]
fn a_window_past_the_opposite_edge_snaps_back() {
    let w = rect(-50, 100, 150, 200);
    assert_eq!(new_floating_position(w, MONITOR, Direction::Right, 4), FloatingStep::Within(rect(0, 100, 200, 200)));
    // Taller than the monitor: the room is negative and the window snaps
    // to the bottom edge.
    let w = rect(0, 10, 100, 1010);
    assert_eq!(new_floating_position(w, MONITOR, Direction::Up, 2), FloatingStep::Within(rect(0, -200, 100, 800)));
}

#[test]
fn crossing_enters_the_next_monitor_at_its_near_edge() {
    let next = rect(1000, 0, 2000, 800);
    let w = rect(800, 100, 1000, 200);
    assert_eq!(position_on_next_monitor(w, next, Direction::Right), rect(1000, 100, 1200, 200));
    // A window taller than the next monitor is cut down to it.
    let w = rect(800, -100, 1000, 900);
    assert_eq!(position_on_next_monitor(w, next, Direction::Right), rect(1000, 0, 1200, 800));
}

#[test]
fn clamping_keeps_the_window_inside() {
    assert_eq!(clamp(rect(-10, -10, 2000, 50), MONITOR), rect(0, 0, 1000, 60));
    assert_eq!(clamp(rect(10, 20, 110, 220), MONITOR), rect(10, 20, 110, 220));
}

#[test]
fn steps_that_would_overflow_are_detected() {
    assert!(floating_step_in_range(rect(100, 100, 300, 200), MONITOR, Direction::Right, 4));
    let far = rect(i32::MAX - 10, 0, i32::MAX, 10);
    assert!(!floating_step_in_range(far, MONITOR, Direction::Right, 5));
    // On the edge nothing but the lengths is computed.
    let edge = rect(0, i32::MIN, 100, i32::MIN + 10);
    assert!(floating_step_in_range(edge, MONITOR, Direction::Left, 5));
    assert!(!floating_step_in_range(rect(0, 0, 10, 10), rect(i32::MIN, 0, i32::MAX, 10), Direction::Right, 2));
}

#[test]
fn a_snapped_window_crosses_on_its_next_step() {
    let w = rect(100, 100, 300, 200);
    for d in [Direction::Up, Direction::Down, Direction::Left, Direction::Right] {
        let snapped = snap_to_monitor_edge(w, MONITOR, d);
        assert_eq!(snapped.right - snapped.left, 200);
        assert_eq!(snapped.bottom - snapped.top, 100);
        assert_eq!(new_floating_position(snapped, MONITOR, d, 3), FloatingStep::CrossMonitor);
    }
}
