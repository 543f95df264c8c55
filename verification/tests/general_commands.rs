use wm::app_command::{WindowPositionTarget, WindowState};
use wm::error::WmError;
use wm::floating_moves::{set_window_position, translate_to_center};
use wm::general::{enable_binding_mode, toggle_pause, toggle_transparency, PauseToggled, TransparencySwitches};
use wm::sync::Rect;

fn rect(left: i32, top: i32, right: i32, bottom: i32) -> Rect {
    Rect { left, top, right, bottom }
}

#[test]
fn binding_modes_are_found_by_name() {
    let modes = vec!["resize".to_string(), "pause".to_string(), "resize".to_string()];
    assert_eq!(enable_binding_mode(&modes, &"resize".to_string()), Ok(0));
    assert_eq!(enable_binding_mode(&modes, &"pause".to_string()), Ok(1));
    assert_eq!(enable_binding_mode(&modes, &"move".to_string()), Err(WmError::NoBindingMode));
    assert_eq!(enable_binding_mode(&vec![], &"resize".to_string()), Err(WmError::NoBindingMode));
}

#[test]
fn unpausing_redraws_everything() {
    assert_eq!(toggle_pause(false), PauseToggled { is_paused: true, redraw_all: false });
    assert_eq!(toggle_pause(true), PauseToggled { is_paused: false, redraw_all: true });
}

#[test]
fn transparency_toggles_the_effects() {
    let on = TransparencySwitches { enabled: true, other_windows: true, focused_window: true };
    let (off, opaque) = toggle_transparency(on);
    assert_eq!(off, TransparencySwitches { enabled: false, other_windows: false, focused_window: false });
    assert!(opaque);
    let (again, opaque) = toggle_transparency(off);
    assert_eq!(again, TransparencySwitches { enabled: true, other_windows: true, focused_window: false });
    assert!(!opaque);
}

#[test]
fn centring_rounds_halves_towards_zero() {
    let ws = rect(0, 0, 1001, 801);
    assert_eq!(translate_to_center(rect(10, 10, 111, 61), ws), rect(450, 375, 551, 426));
    let ws = rect(-1000, 0, 0, 800);
    assert_eq!(translate_to_center(rect(0, 0, 200, 100), ws), rect(-600, 350, -400, 450));
}

#[test]
fn floating_windows_take_the_requested_position() {
    let floating = WindowState::Floating { centered: false, shown_on_top: false };
    let placement = rect(10, 20, 110, 70);
    let ws = rect(0, 0, 1000, 800);
    assert_eq!(
        set_window_position(floating, placement, WindowPositionTarget::Centered, ws),
        Some((rect(450, 375, 550, 425), false))
    );
    assert_eq!(
        set_window_position(floating, placement, WindowPositionTarget::Coordinates(Some(300), None), ws),
        Some((rect(300, 20, 400, 70), true))
    );
    assert_eq!(
        set_window_position(floating, placement, WindowPositionTarget::Coordinates(None, Some(-5)), ws),
        Some((rect(10, -5, 110, 45), true))
    );
    assert_eq!(set_window_position(WindowState::Tiling, placement, WindowPositionTarget::Centered, ws), None);
}
