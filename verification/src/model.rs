//! The mathematical model of one decode step.
//!
//! Everything the decoder promises is stated over these specification
//! functions: which logical indices a report asserts, which events one
//! decode call emits and in what order, and which indices stay held
//! afterwards. The executable decoder in [`crate::decoder`] is proved
//! against them.

use vstd::prelude::*;

use crate::descriptor::DeviceDescriptor;
use crate::descriptor::KeyDirection;
use crate::descriptor::TouchLayout;
use crate::events::ButtonAction;
use crate::events::DecodeError;
use crate::events::DialAction;
use crate::events::InputEvent;
use crate::events::TouchAction;

verus! {

/// A strictly increasing byte sequence: the decoder's canonical
/// representation of a set of held indices.
pub open spec fn sorted_unique(s: Seq<u8>) -> bool {
    forall|i: int, j: int| 0 <= i < j < s.len() ==> s[i] < s[j]
}

/// Which of the report categories a report falls in.
#[derive(Debug, Clone, Copy, PartialEq, Eq, Structural)]
pub enum ReportCategory {
    Button,
    Touch,
    Dial,
}

/// The classifier: a model without dials and touchscreen only ever
/// reports buttons; otherwise the classifier byte at index 1 selects
/// the category, and an unknown value is an error.
pub open spec fn category(cmd: Seq<u8>, d: DeviceDescriptor) -> Result<ReportCategory, DecodeError> {
    if !d.has_dial_or_touch() {
        Ok(ReportCategory::Button)
    } else if cmd[1] == 0 {
        Ok(ReportCategory::Button)
    } else if cmd[1] == 2 {
        Ok(ReportCategory::Touch)
    } else if cmd[1] == 3 {
        Ok(ReportCategory::Dial)
    } else {
        Err(DecodeError::UnrecognizedCategory)
    }
}

// ------------------------------------------------------------------
// Buttons
// ------------------------------------------------------------------

/// The logical key index of key-window position `j`.
pub open spec fn logical_key(d: DeviceDescriptor, j: int) -> u8
    recommends
        0 <= j < d.keys,
        d.wf(),
{
    match d.key_direction {
        KeyDirection::LeftToRight => (j + d.key_index_offset) as u8,
        KeyDirection::RightToLeft => (d.keys - j) as u8,
    }
}

/// Whether the report asserts the key bit at window position `j`.
pub open spec fn key_asserted(cmd: Seq<u8>, d: DeviceDescriptor, j: int) -> bool {
    cmd[d.key_data_offset + j] != 0
}

/// The logical indices asserted at window positions below `n`.
pub open spec fn fresh_keys_upto(cmd: Seq<u8>, d: DeviceDescriptor, n: int) -> Set<u8> {
    Set::new(
        |b: u8| exists|j: int| 0 <= j < n && key_asserted(cmd, d, j) && logical_key(d, j) == b,
    )
}

/// The logical indices the report asserts; these, exactly, are held
/// after the decode step.
pub open spec fn fresh_keys(cmd: Seq<u8>, d: DeviceDescriptor) -> Set<u8> {
    fresh_keys_upto(cmd, d, d.keys as int)
}

/// `Pressed` events for the first `n` window positions: one per
/// asserted position whose logical index was not already held, in
/// window order.
pub open spec fn key_pressed_events(
    cmd: Seq<u8>,
    d: DeviceDescriptor,
    held: Set<u8>,
    n: int,
) -> Seq<InputEvent>
    decreases n,
{
    if n <= 0 {
        Seq::empty()
    } else {
        let rest = key_pressed_events(cmd, d, held, n - 1);
        if key_asserted(cmd, d, n - 1) && !held.contains(logical_key(d, n - 1)) {
            rest.push(
                InputEvent::Button { index: logical_key(d, n - 1), action: ButtonAction::Pressed },
            )
        } else {
            rest
        }
    }
}

/// `Released` events for the first `n` previously held indices: one per
/// held index the report no longer asserts, in the held order.
pub open spec fn key_released_events(held: Seq<u8>, fresh: Set<u8>, n: int) -> Seq<InputEvent>
    decreases n,
{
    if n <= 0 {
        Seq::empty()
    } else {
        let rest = key_released_events(held, fresh, n - 1);
        if !fresh.contains(held[n - 1]) {
            rest.push(InputEvent::Button { index: held[n - 1], action: ButtonAction::Released })
        } else {
            rest
        }
    }
}

/// Everything one button-category decode emits, given the previously
/// held logical indices in ascending order: all `Pressed` events, then
/// all `Released` events.
pub open spec fn button_step_events(
    cmd: Seq<u8>,
    d: DeviceDescriptor,
    held: Seq<u8>,
) -> Seq<InputEvent> {
    key_pressed_events(cmd, d, held.to_set(), d.keys as int) + key_released_events(
        held,
        fresh_keys(cmd, d),
        held.len() as int,
    )
}

// ------------------------------------------------------------------
// Dials
// ------------------------------------------------------------------

/// The signed rotation delta encoded by one raw dial byte: values up
/// to 127 are clockwise as they stand, values from 128 up are the
/// two's-complement encoding of a counter-clockwise delta.
pub open spec fn turn_delta(raw: u8) -> i8 {
    if raw <= 127 {
        raw as i8
    } else {
        (raw - 256) as i8
    }
}

/// `Turned` events for the first `n` dial-window positions: one per
/// non-zero byte, in window order. Turn reports are stateless.
pub open spec fn dial_turn_events(cmd: Seq<u8>, d: DeviceDescriptor, n: int) -> Seq<InputEvent>
    decreases n,
{
    if n <= 0 {
        Seq::empty()
    } else {
        let rest = dial_turn_events(cmd, d, n - 1);
        let raw = cmd[d.dial_data_offset + n - 1];
        if raw != 0 {
            rest.push(
                InputEvent::Dial { index: (n - 1) as u8, action: DialAction::Turned(turn_delta(raw)) },
            )
        } else {
            rest
        }
    }
}

/// Whether a press-mode report asserts the dial at window position `j`.
pub open spec fn dial_asserted(cmd: Seq<u8>, d: DeviceDescriptor, j: int) -> bool {
    cmd[d.dial_data_offset + j] == 1
}

/// A held dial stays held while its window byte is non-zero; an index
/// with no window byte counts as released.
pub open spec fn dial_still_held(cmd: Seq<u8>, d: DeviceDescriptor, b: u8) -> bool {
    b < d.dials && cmd[d.dial_data_offset + b] != 0
}

/// `Pressed` events of one press-mode dial report, in window order.
pub open spec fn dial_pressed_events(
    cmd: Seq<u8>,
    d: DeviceDescriptor,
    held: Set<u8>,
    n: int,
) -> Seq<InputEvent>
    decreases n,
{
    if n <= 0 {
        Seq::empty()
    } else {
        let rest = dial_pressed_events(cmd, d, held, n - 1);
        if dial_asserted(cmd, d, n - 1) && !held.contains((n - 1) as u8) {
            rest.push(InputEvent::Dial { index: (n - 1) as u8, action: DialAction::Pressed })
        } else {
            rest
        }
    }
}

/// `Released` events for the first `n` previously held dials, in the
/// held order.
pub open spec fn dial_released_events(
    cmd: Seq<u8>,
    d: DeviceDescriptor,
    held: Seq<u8>,
    n: int,
) -> Seq<InputEvent>
    decreases n,
{
    if n <= 0 {
        Seq::empty()
    } else {
        let rest = dial_released_events(cmd, d, held, n - 1);
        if !dial_still_held(cmd, d, held[n - 1]) {
            rest.push(InputEvent::Dial { index: held[n - 1], action: DialAction::Released })
        } else {
            rest
        }
    }
}

/// The dial indices below `n` held after one press-mode report: those
/// the report asserts, and the previously held ones whose byte is
/// still non-zero.
pub open spec fn new_dial_set_upto(
    cmd: Seq<u8>,
    d: DeviceDescriptor,
    held: Set<u8>,
    n: int,
) -> Set<u8> {
    Set::new(
        |b: u8|
            b < n && (dial_asserted(cmd, d, b as int) || (held.contains(b) && dial_still_held(
                cmd,
                d,
                b,
            ))),
    )
}

/// The dial indices held after one press-mode report.
pub open spec fn new_dial_set(cmd: Seq<u8>, d: DeviceDescriptor, held: Set<u8>) -> Set<u8> {
    new_dial_set_upto(cmd, d, held, d.dials as int)
}

/// Everything one press-mode dial report emits, given the previously
/// held dial indices in ascending order.
pub open spec fn dial_step_events(
    cmd: Seq<u8>,
    d: DeviceDescriptor,
    held: Seq<u8>,
) -> Seq<InputEvent> {
    dial_pressed_events(cmd, d, held.to_set(), d.dials as int) + dial_released_events(
        cmd,
        d,
        held,
        held.len() as int,
    )
}

// ------------------------------------------------------------------
// Touch
// ------------------------------------------------------------------

/// Big-endian assembly of a 16-bit coordinate from two report bytes.
pub open spec fn word_at(cmd: Seq<u8>, high: int, low: int) -> u16 {
    (cmd[high] * 256 + cmd[low]) as u16
}

/// The primary touch x coordinate of a report.
pub open spec fn touch_x(cmd: Seq<u8>, t: TouchLayout) -> u16 {
    word_at(cmd, t.x_high as int, t.x_low as int)
}

/// The primary touch y coordinate: 16 bits where the layout supplies a
/// high byte, a single byte (capping y at 255) where it does not.
pub open spec fn touch_y(cmd: Seq<u8>, t: TouchLayout) -> u16 {
    match t.y_high_optional {
        Some(h) => word_at(cmd, h as int, t.y_low_or_single as int),
        None => cmd[t.y_low_or_single as int] as u16,
    }
}

/// The drag-end x coordinate (16 bits).
pub open spec fn drag_x(cmd: Seq<u8>, t: TouchLayout) -> u16 {
    word_at(cmd, t.drag_x_high as int, t.drag_x_low as int)
}

/// The drag-end y coordinate (a single byte in every known layout).
pub open spec fn drag_y(cmd: Seq<u8>, t: TouchLayout) -> u16 {
    cmd[t.drag_y_low_or_single as int] as u16
}

/// What one touch report decodes to: exactly one `Touch` event on
/// success, selected by the event-type byte, or an error for an
/// unknown event type.
pub open spec fn touch_result(cmd: Seq<u8>, t: TouchLayout) -> Result<Seq<InputEvent>, DecodeError> {
    let ty = cmd[t.event_type as int];
    if ty == 1 {
        Ok(
            seq![
                InputEvent::Touch { x: touch_x(cmd, t), y: touch_y(cmd, t), action: TouchAction::Short },
            ],
        )
    } else if ty == 2 {
        Ok(
            seq![
                InputEvent::Touch { x: touch_x(cmd, t), y: touch_y(cmd, t), action: TouchAction::Long },
            ],
        )
    } else if ty == 3 {
        Ok(
            seq![
                InputEvent::Touch {
                    x: touch_x(cmd, t),
                    y: touch_y(cmd, t),
                    action: TouchAction::Drag { x: drag_x(cmd, t), y: drag_y(cmd, t) },
                },
            ],
        )
    } else {
        Err(DecodeError::UnrecognizedTouchType)
    }
}

} // verus!
