//! Window-manager-wide switches: binding modes, pausing, transparency.
use vstd::prelude::*;
use crate::error::WmError;

verus! {

/// Enabling binding mode `name`: the first configured binding mode with
/// that name (its index in `modes` is returned) becomes the only active
/// one; a name that no binding mode has is refused.
pub fn enable_binding_mode(modes: &Vec<String>, name: &String) -> (res: Result<usize, WmError>)
    ensures
        match res {
            Ok(i) => i < modes@.len() && modes@[i as int]@ == name@
                && forall|j: int| 0 <= j < i ==> (#[trigger] modes@[j])@ != name@,
            Err(e) => e == WmError::NoBindingMode && forall|j: int| 0 <= j < modes@.len() ==> (#[trigger] modes@[j])@ != name@,
        },
{
    let mut i: usize = 0;
    while i < modes.len()
        invariant
            i <= modes@.len(),
            forall|j: int| 0 <= j < i ==> (#[trigger] modes@[j])@ != name@,
        decreases modes.len() - i,
    {
        if modes[i] == *name {
            return Ok(i);
        }
        i = i + 1;
    }
    Err(WmError::NoBindingMode)
}

/// The outcome of pausing or unpausing.
#[derive(Clone, Copy, Debug, PartialEq, Eq, Structural)]
pub struct PauseToggled {
    /// Whether the window manager is now paused.
    pub is_paused: bool,
    /// The whole tree is redrawn (on unpausing).
    pub redraw_all: bool,
}

/// Pausing a running window manager, or unpausing a paused one, which then
/// redraws everything.
pub fn toggle_pause(is_paused: bool) -> (res: PauseToggled)
    ensures
        res.is_paused == !is_paused,
        res.redraw_all == is_paused,
{
    PauseToggled { is_paused: !is_paused, redraw_all: is_paused }
}

/// The transparency switches: the global one and those of the effects on
/// unfocused and on focused windows.
#[derive(Clone, Copy, Debug, PartialEq, Eq, Structural)]
pub struct TransparencySwitches {
    pub enabled: bool,
    pub other_windows: bool,
    pub focused_window: bool,
}

/// Flipping the global transparency switch: switched on, unfocused windows
/// get their transparency back; switched off, both effects are turned off
/// and every window is made fully opaque (the flag returned).
pub open spec fn spec_toggle_transparency(s: TransparencySwitches) -> (TransparencySwitches, bool) {
    if !s.enabled {
        (TransparencySwitches { enabled: true, other_windows: true, focused_window: s.focused_window }, false)
    } else {
        (TransparencySwitches { enabled: false, other_windows: false, focused_window: false }, true)
    }
}

/// See [`spec_toggle_transparency`].
pub fn toggle_transparency(s: TransparencySwitches) -> (res: (TransparencySwitches, bool))
    ensures
        res == spec_toggle_transparency(s),
{
    if !s.enabled {
        (TransparencySwitches { enabled: true, other_windows: true, focused_window: s.focused_window }, false)
    } else {
        (TransparencySwitches { enabled: false, other_windows: false, focused_window: false }, true)
    }
}

/// Toggling transparency twice restores the global switch, and exactly
/// one of the two toggles makes the windows opaque.
pub proof fn toggle_transparency_twice(s: TransparencySwitches)
    ensures
        spec_toggle_transparency(spec_toggle_transparency(s).0).0.enabled == s.enabled,
        spec_toggle_transparency(spec_toggle_transparency(s).0).1 != spec_toggle_transparency(s).1,
{
}

} // verus!
