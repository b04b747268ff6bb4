//! Decoder for raw input reports from multi-surface control-panel devices
//! (buttons, rotary dials, and an optional touchscreen).
//!
//! The decoder classifies each fixed-length report, applies the per-model
//! byte layout described by a [`descriptor::DeviceDescriptor`], performs
//! stateful press/release edge detection, and decodes numeric fields
//! (signed turn deltas, multi-byte coordinates) into a sequence of
//! [`events::InputEvent`] values.

pub mod decoder;
pub mod descriptor;
pub mod events;
pub mod laws;
pub mod model;

pub use decoder::InputManager;
pub use descriptor::DeviceDescriptor;
pub use descriptor::KeyDirection;
pub use descriptor::TouchLayout;
pub use events::ButtonAction;
pub use events::DecodeError;
pub use events::DialAction;
pub use events::InputEvent;
pub use events::TouchAction;
