//! Per-model byte-layout metadata.
//!
//! A [`DeviceDescriptor`] is a read-only record, supplied by the caller
//! once per session, that tells the decoder where in a raw report each
//! field lives and how many keys and dials the model has. Layout is data,
//! not code: supporting another model is a new descriptor value, not a
//! new code path.

use vstd::prelude::*;

verus! {

/// Length in bytes of one raw input report.
pub const REPORT_LEN: usize = 36;

/// How physical key-bit positions map to logical key indices. Some
/// models wire their key matrix in reverse reading order relative to
/// the logical numbering exposed to applications.
#[derive(Debug, Clone, Copy, PartialEq, Eq, Structural)]
pub enum KeyDirection {
    /// Window position `j` is logical key `j + key_index_offset`.
    LeftToRight,
    /// Window position `j` is logical key `keys - j`.
    RightToLeft,
}

/// Byte offsets of the touchscreen fields inside a raw report, for
/// models that have a touchscreen.
#[derive(Debug, Clone, Copy, PartialEq, Eq, Structural)]
pub struct TouchLayout {
    /// Offset of the touch event-type byte.
    pub event_type: usize,
    /// Offset of the low byte of the touch x coordinate.
    pub x_low: usize,
    /// Offset of the high byte of the touch x coordinate.
    pub x_high: usize,
    /// Offset of the low (or only) byte of the touch y coordinate.
    pub y_low_or_single: usize,
    /// Offset of the high byte of the touch y coordinate, on models
    /// whose reports carry 16 bits of y; `None` caps y at 255.
    pub y_high_optional: Option<usize>,
    /// Offset of the low byte of the drag-end x coordinate.
    pub drag_x_low: usize,
    /// Offset of the high byte of the drag-end x coordinate.
    pub drag_x_high: usize,
    /// Offset of the single byte of the drag-end y coordinate.
    pub drag_y_low_or_single: usize,
}

/// Static per-model metadata describing byte layout and capabilities.
#[derive(Debug, Clone, Copy, PartialEq, Eq, Structural)]
pub struct DeviceDescriptor {
    /// Number of physical buttons.
    pub keys: u8,
    /// Number of rotary dials; zero for button-only models.
    pub dials: u8,
    /// Offset of the first byte of the key-state window.
    pub key_data_offset: usize,
    /// Bias added to window positions under `LeftToRight` numbering.
    pub key_index_offset: u8,
    /// How window positions map to logical key indices.
    pub key_direction: KeyDirection,
    /// Offset of the first byte of the dial-state window.
    pub dial_data_offset: usize,
    /// Offset of the flag byte that separates dial turn reports from
    /// dial press reports.
    pub dial_press_flag_index: usize,
    /// Touchscreen field layout; `None` for models without one.
    pub touch_layout: Option<TouchLayout>,
}

impl TouchLayout {
    /// Every touch field offset lies inside the report.
    pub open spec fn wf(self) -> bool {
        &&& self.event_type < REPORT_LEN
        &&& self.x_low < REPORT_LEN
        &&& self.x_high < REPORT_LEN
        &&& self.y_low_or_single < REPORT_LEN
        &&& match self.y_high_optional {
            Some(h) => h < REPORT_LEN,
            None => true,
        }
        &&& self.drag_x_low < REPORT_LEN
        &&& self.drag_x_high < REPORT_LEN
        &&& self.drag_y_low_or_single < REPORT_LEN
    }

    /// Runtime check for [`TouchLayout::wf`].
    pub fn is_wf(&self) -> (r: bool)
        ensures
            r == self.wf(),
    {
        self.event_type < REPORT_LEN && self.x_low < REPORT_LEN && self.x_high < REPORT_LEN
            && self.y_low_or_single < REPORT_LEN && (match self.y_high_optional {
            Some(h) => h < REPORT_LEN,
            None => true,
        }) && self.drag_x_low < REPORT_LEN && self.drag_x_high < REPORT_LEN
            && self.drag_y_low_or_single < REPORT_LEN
    }
}

impl DeviceDescriptor {
    /// The key and dial windows and the flag byte lie inside the report,
    /// every logical key index fits in a byte, and the touch layout, if
    /// any, is itself well formed.
    pub open spec fn wf(self) -> bool {
        &&& self.key_data_offset + self.keys <= REPORT_LEN
        &&& self.dial_data_offset + self.dials <= REPORT_LEN
        &&& self.dial_press_flag_index < REPORT_LEN
        &&& self.keys + self.key_index_offset <= 256
        &&& match self.touch_layout {
            Some(t) => t.wf(),
            None => true,
        }
    }

    /// Runtime check for [`DeviceDescriptor::wf`], so unverified callers
    /// can validate a descriptor before handing it to the decoder.
    pub fn is_wf(&self) -> (r: bool)
        ensures
            r == self.wf(),
    {
        (self.keys as usize) <= REPORT_LEN
            && self.key_data_offset <= REPORT_LEN - (self.keys as usize)
            && (self.dials as usize) <= REPORT_LEN
            && self.dial_data_offset <= REPORT_LEN - (self.dials as usize)
            && self.dial_press_flag_index < REPORT_LEN
            && (self.keys as usize) + (self.key_index_offset as usize) <= 256
            && (match self.touch_layout {
            Some(t) => t.is_wf(),
            None => true,
        })
    }

    /// Whether the model multiplexes dial and touch reports onto the
    /// classifier byte. Button-only models never consult it.
    pub open spec fn has_dial_or_touch(self) -> bool {
        self.dials > 0 || self.touch_layout is Some
    }

    /// Runtime check for [`DeviceDescriptor::has_dial_or_touch`].
    pub fn is_dial_or_touch_capable(&self) -> (r: bool)
        ensures
            r == self.has_dial_or_touch(),
    {
        self.dials > 0 || self.touch_layout.is_some()
    }
}

} // verus!
