//! Event and error values produced by the decoder.

use vstd::prelude::*;

verus! {

/// One semantic input event decoded from a raw report.
#[derive(Debug, Clone, Copy, PartialEq, Eq, Structural)]
pub enum InputEvent {
    /// A button changed state; `index` is the logical button index.
    Button { index: u8, action: ButtonAction },
    /// A dial was pressed, released, or turned; `index` is the dial index.
    Dial { index: u8, action: DialAction },
    /// The touchscreen was touched at `(x, y)`.
    Touch { x: u16, y: u16, action: TouchAction },
}

/// What a button did.
#[derive(Debug, Clone, Copy, PartialEq, Eq, Structural)]
pub enum ButtonAction {
    Pressed,
    Released,
}

/// What a dial did.
#[derive(Debug, Clone, Copy, PartialEq, Eq, Structural)]
pub enum DialAction {
    /// The dial was pressed down.
    Pressed,
    /// The dial was let go.
    Released,
    /// The dial was rotated; positive deltas are clockwise,
    /// negative deltas counter-clockwise.
    Turned(i8),
}

/// What the touchscreen registered.
#[derive(Debug, Clone, Copy, PartialEq, Eq, Structural)]
pub enum TouchAction {
    /// A short tap.
    Short,
    /// A long press.
    Long,
    /// A drag; `x` and `y` are the end coordinates of the drag.
    Drag { x: u16, y: u16 },
}

/// Why a report could not be decoded. Every error is returned to the
/// caller; the decoder performs no recovery or logging of its own.
#[derive(Debug, Clone, Copy, PartialEq, Eq, Structural)]
pub enum DecodeError {
    /// The classifier byte of a dial/touch-capable model was not one of
    /// the known category values.
    UnrecognizedCategory,
    /// A touch report arrived for a model whose descriptor has no touch
    /// layout.
    TouchscreenUnsupported,
    /// The touch event-type byte was not one of the known touch kinds.
    UnrecognizedTouchType,
}

} // verus!
