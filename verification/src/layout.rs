//! Where an element sits on the screen.

use vstd::prelude::*;

verus! {

/// The drawing context that a backend hands to a widget.
pub struct Renderer {}

/// The area that a widget draws on.
pub struct Canvas {}

/// The screen edge that an element is attached to.
#[derive(Clone, Copy, Debug, PartialEq, Eq, Structural)]
pub enum Placement {
    /// Attached to no edge.
    Floating,
    Top,
    Bottom,
    Left,
    Right,
    /// An ordinary window, placed by the window manager.
    Windowed,
}

/// When an element receives keyboard input.
#[derive(Clone, Copy, Debug, PartialEq, Eq, Structural)]
pub enum KeyboardSensitivity {
    /// Never.
    Never,
    OnClick,
    Exclusive,
}

/// Position, size and attachment of an element.
#[derive(Clone, Copy, Debug, PartialEq, Eq, Structural)]
pub struct Layout {
    pub x: u32,
    pub y: u32,
    pub width: u32,
    pub height: u32,
    pub placement: Placement,
    pub keyboard_sensitivity: KeyboardSensitivity,
}

impl Layout {
    /// The layout of an element that asks for nothing: no size, the origin,
    /// no edge, no keyboard.
    pub open spec fn zero() -> Layout {
        Layout {
            x: 0,
            y: 0,
            width: 0,
            height: 0,
            placement: Placement::Floating,
            keyboard_sensitivity: KeyboardSensitivity::Never,
        }
    }
}

impl Default for Placement {
    fn default() -> (r: Placement)
        ensures
            r == Placement::Floating,
    {
        Placement::Floating
    }
}

impl Default for KeyboardSensitivity {
    fn default() -> (r: KeyboardSensitivity)
        ensures
            r == KeyboardSensitivity::Never,
    {
        KeyboardSensitivity::Never
    }
}

impl Default for Layout {
    fn default() -> (r: Layout)
        ensures
            r == Layout::zero(),
    {
        Layout {
            x: 0,
            y: 0,
            width: 0,
            height: 0,
            placement: Placement::Floating,
            keyboard_sensitivity: KeyboardSensitivity::Never,
        }
    }
}

} // verus!
