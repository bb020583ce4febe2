//! What can happen to a widget.

use vstd::prelude::*;

verus! {

/// An event that a backend reports to a widget.
///
/// Pointer positions and scroll distances are fixed-point numbers: one unit
/// is 1/256 of a pixel.
#[derive(Clone, Copy, Debug, PartialEq, Eq, Structural)]
pub enum Event {
    /// The size that the widget now has.
    Configure { width: u32, height: u32 },
    /// The widget should draw itself again.
    Render,
    /// The widget now receives keyboard input.
    KeyboardEntered,
    /// The widget no longer receives keyboard input.
    KeyboardLeaved,
    KeyPressed { key: u32 },
    KeyReleased { key: u32 },
    /// The modifier keys that are now held or locked.
    KeyModifiersChanged {
        ctrl: bool,
        alt: bool,
        shift: bool,
        caps_lock: bool,
        logo: bool,
        num_lock: bool,
    },
    /// The pointer is now over the widget.
    PointerEntered,
    /// The pointer is no longer over the widget.
    PointerLeaved,
    PointerMoved { x: i32, y: i32 },
    PointerPressed { x: i32, y: i32, button: u32 },
    PointerReleased { x: i32, y: i32, button: u32 },
    PointerScrolled { x: i32, y: i32, delta_x: i32, delta_y: i32 },
}

} // verus!
