//! The stateful input decoder.
//!
//! An [`InputManager`] owns the session-scoped edge-detection state: the
//! logical indices of the keys and dials currently held, each kept as a
//! strictly increasing byte vector. One decode call reads one raw
//! report, emits the events the model in [`crate::model`] prescribes,
//! and updates that state.

use vstd::prelude::*;

use crate::descriptor::DeviceDescriptor;
use crate::descriptor::KeyDirection;
use crate::descriptor::REPORT_LEN;
use crate::events::ButtonAction;
use crate::events::DecodeError;
use crate::events::DialAction;
use crate::events::InputEvent;
use crate::events::TouchAction;
use crate::model::ReportCategory;
use crate::model::button_step_events;
use crate::model::category;
use crate::model::dial_pressed_events;
use crate::model::dial_released_events;
use crate::model::dial_step_events;
use crate::model::dial_still_held;
use crate::model::dial_turn_events;
use crate::model::fresh_keys;
use crate::model::fresh_keys_upto;
use crate::model::key_asserted;
use crate::model::key_pressed_events;
use crate::model::key_released_events;
use crate::model::logical_key;
use crate::model::new_dial_set;
use crate::model::new_dial_set_upto;
use crate::model::sorted_unique;
use crate::model::touch_result;
use crate::model::turn_delta;

verus! {

/// Session-scoped edge-detection state. One instance serves one device
/// connection; it starts with nothing held, so an index physically held
/// as the session begins is reported as freshly pressed by the first
/// report that asserts it.
pub struct InputManager {
    /// Logical key indices currently held, strictly increasing.
    pub pressed_keys: Vec<u8>,
    /// Dial indices currently held, strictly increasing.
    pub pressed_dials: Vec<u8>,
}

impl InputManager {
    /// Both held-index vectors are strictly increasing, so each
    /// represents a set; every constructor establishes this and every
    /// decode call preserves it.
    pub open spec fn wf(self) -> bool {
        sorted_unique(self.pressed_keys@) && sorted_unique(self.pressed_dials@)
    }

    /// A fresh decoder with nothing held.
    pub fn new() -> (m: InputManager)
        ensures
            m.wf(),
            m.pressed_keys@ == Seq::<u8>::empty(),
            m.pressed_dials@ == Seq::<u8>::empty(),
    {
        InputManager { pressed_keys: Vec::new(), pressed_dials: Vec::new() }
    }

    /// The button edge-detector: scans the key window, emits `Pressed`
    /// for every asserted index not yet held and then `Released` for
    /// every held index no longer asserted, and afterwards holds the
    /// asserted indices, exactly.
    pub fn handle_button_event(&mut self, cmd: &[u8; REPORT_LEN], d: &DeviceDescriptor) -> (events:
        Vec<InputEvent>)
        requires
            d.wf(),
            old(self).wf(),
        ensures
            final(self).wf(),
            final(self).pressed_keys@.to_set() == fresh_keys(cmd@, *d),
            final(self).pressed_dials == old(self).pressed_dials,
            events@ == button_step_events(cmd@, *d, old(self).pressed_keys@),
    {
        let keys: usize = d.keys as usize;
        let offset: usize = d.key_data_offset;
        let mut events: Vec<InputEvent> = Vec::new();
        let mut fresh: Vec<u8> = Vec::new();
        let mut j: usize = 0;
        while j < keys
            invariant
                j <= keys,
                keys == d.keys as int,
                offset == d.key_data_offset,
                d.wf(),
                *self == *old(self),
                old(self).wf(),
                sorted_unique(fresh@),
                fresh@.to_set() == fresh_keys_upto(cmd@, *d, j as int),
                events@ == key_pressed_events(
                    cmd@,
                    *d,
                    old(self).pressed_keys@.to_set(),
                    j as int,
                ),
            decreases keys - j,
        {
            let raw = cmd[offset + j];
            if raw != 0 {
                let b: u8 = match d.key_direction {
                    KeyDirection::RightToLeft => d.keys - (j as u8),
                    KeyDirection::LeftToRight => (j as u8) + d.key_index_offset,
                };
                proof {
                    assert(b == logical_key(*d, j as int));
                }
                if !vec_contains(&self.pressed_keys, b) {
                    events.push(InputEvent::Button { index: b, action: ButtonAction::Pressed });
                }
                insert_sorted(&mut fresh, b);
                proof {
                    lemma_fresh_keys_step(cmd@, *d, j as int);
                    assert(fresh@.to_set() =~= fresh_keys_upto(cmd@, *d, j + 1));
                }
            } else {
                proof {
                    lemma_fresh_keys_step(cmd@, *d, j as int);
                    assert(fresh@.to_set() =~= fresh_keys_upto(cmd@, *d, j + 1));
                }
            }
            j += 1;
        }
        let n: usize = self.pressed_keys.len();
        let mut i: usize = 0;
        while i < n
            invariant
                i <= n,
                n == self.pressed_keys@.len(),
                d.wf(),
                *self == *old(self),
                old(self).wf(),
                sorted_unique(fresh@),
                fresh@.to_set() == fresh_keys(cmd@, *d),
                events@ == key_pressed_events(
                    cmd@,
                    *d,
                    old(self).pressed_keys@.to_set(),
                    d.keys as int,
                ) + key_released_events(
                    old(self).pressed_keys@,
                    fresh_keys(cmd@, *d),
                    i as int,
                ),
            decreases n - i,
        {
            let b = self.pressed_keys[i];
            if !vec_contains(&fresh, b) {
                events.push(InputEvent::Button { index: b, action: ButtonAction::Released });
            }
            i += 1;
        }
        self.pressed_keys = fresh;
        events
    }

    /// The dial edge-detector and turn decoder. A zero flag byte means
    /// turn mode: one stateless `Turned` event per non-zero window byte,
    /// with the byte read as a signed two's-complement delta. A non-zero
    /// flag byte means press mode: `Pressed`/`Released` edge detection
    /// over the dial window, mirroring the button algorithm.
    pub fn handle_dial_event(&mut self, cmd: &[u8; REPORT_LEN], d: &DeviceDescriptor) -> (events:
        Vec<InputEvent>)
        requires
            d.wf(),
            old(self).wf(),
        ensures
            final(self).wf(),
            final(self).pressed_keys == old(self).pressed_keys,
            cmd@[d.dial_press_flag_index as int] == 0 ==> final(self).pressed_dials == old(
                self,
            ).pressed_dials && events@ == dial_turn_events(cmd@, *d, d.dials as int),
            cmd@[d.dial_press_flag_index as int] != 0 ==> final(self).pressed_dials@.to_set()
                == new_dial_set(cmd@, *d, old(self).pressed_dials@.to_set()) && events@
                == dial_step_events(cmd@, *d, old(self).pressed_dials@),
    {
        let dials: usize = d.dials as usize;
        let offset: usize = d.dial_data_offset;
        let mut events: Vec<InputEvent> = Vec::new();
        if cmd[d.dial_press_flag_index] == 0 {
            let mut j: usize = 0;
            while j < dials
                invariant
                    j <= dials,
                    dials == d.dials as int,
                    offset == d.dial_data_offset,
                    d.wf(),
                    events@ == dial_turn_events(cmd@, *d, j as int),
                decreases dials - j,
            {
                let raw = cmd[offset + j];
                if raw != 0 {
                    let delta: i8 = if raw > 127 {
                        -((255 - raw) as i8) - 1
                    } else {
                        raw as i8
                    };
                    proof {
                        assert(delta == turn_delta(raw));
                    }
                    events.push(
                        InputEvent::Dial { index: j as u8, action: DialAction::Turned(delta) },
                    );
                }
                j += 1;
            }
            return events;
        }
        let ghost held = old(self).pressed_dials@.to_set();
        let mut kept: Vec<u8> = Vec::new();
        let mut j: usize = 0;
        while j < dials
            invariant
                j <= dials,
                dials == d.dials as int,
                offset == d.dial_data_offset,
                d.wf(),
                *self == *old(self),
                old(self).wf(),
                held == old(self).pressed_dials@.to_set(),
                sorted_unique(kept@),
                kept@.to_set() == new_dial_set_upto(cmd@, *d, held, j as int),
                events@ == dial_pressed_events(cmd@, *d, held, j as int),
            decreases dials - j,
        {
            let raw = cmd[offset + j];
            let was_held = vec_contains(&self.pressed_dials, j as u8);
            if raw == 1 && !was_held {
                events.push(InputEvent::Dial { index: j as u8, action: DialAction::Pressed });
            }
            if raw == 1 || (raw != 0 && was_held) {
                insert_sorted(&mut kept, j as u8);
                proof {
                    assert(kept@.to_set() =~= new_dial_set_upto(cmd@, *d, held, j + 1));
                }
            } else {
                proof {
                    assert(kept@.to_set() =~= new_dial_set_upto(cmd@, *d, held, j + 1));
                }
            }
            j += 1;
        }
        let n: usize = self.pressed_dials.len();
        let mut i: usize = 0;
        while i < n
            invariant
                i <= n,
                n == self.pressed_dials@.len(),
                dials == d.dials as int,
                offset == d.dial_data_offset,
                d.wf(),
                *self == *old(self),
                old(self).wf(),
                held == old(self).pressed_dials@.to_set(),
                sorted_unique(kept@),
                kept@.to_set() == new_dial_set(cmd@, *d, held),
                events@ == dial_pressed_events(cmd@, *d, held, d.dials as int)
                    + dial_released_events(cmd@, *d, old(self).pressed_dials@, i as int),
            decreases n - i,
        {
            let b = self.pressed_dials[i];
            let still = (b as usize) < dials && cmd[offset + (b as usize)] != 0;
            proof {
                assert(still == dial_still_held(cmd@, *d, b));
            }
            if !still {
                events.push(InputEvent::Dial { index: b, action: DialAction::Released });
            }
            i += 1;
        }
        self.pressed_dials = kept;
        events
    }

    /// Whether the decoder currently holds the logical key `index` as
    /// pressed.
    pub fn is_key_pressed(&self, index: u8) -> (r: bool)
        ensures
            r == self.pressed_keys@.contains(index),
    {
        vec_contains(&self.pressed_keys, index)
    }

    /// Whether the decoder currently holds the dial `index` as pressed.
    pub fn is_dial_pressed(&self, index: u8) -> (r: bool)
        ensures
            r == self.pressed_dials@.contains(index),
    {
        vec_contains(&self.pressed_dials, index)
    }

    /// The touch decoder: reads the event-type byte and assembles the
    /// touch (and, for a drag, the drag-end) coordinates per the
    /// descriptor's touch layout. Touch decoding is stateless and
    /// returns exactly one event on success.
    pub fn handle_touchscreen_event(&self, cmd: &[u8; REPORT_LEN], d: &DeviceDescriptor) -> (r:
        Result<Vec<InputEvent>, DecodeError>)
        requires
            d.wf(),
        ensures
            ({
                match d.touch_layout {
                    None => r matches Err(e) && e == DecodeError::TouchscreenUnsupported,
                    Some(t) => match touch_result(cmd@, t) {
                        Ok(s) => r matches Ok(v) && v@ == s,
                        Err(e) => r matches Err(e2) && e2 == e,
                    },
                }
            }),
    {
        let t = match d.touch_layout {
            Some(t) => t,
            None => {
                return Err(DecodeError::TouchscreenUnsupported);
            },
        };
        let ty = cmd[t.event_type];
        let action = if ty == 1 {
            TouchAction::Short
        } else if ty == 2 {
            TouchAction::Long
        } else if ty == 3 {
            let dx: u16 = (cmd[t.drag_x_high] as u16) * 256 + (cmd[t.drag_x_low] as u16);
            let dy: u16 = cmd[t.drag_y_low_or_single] as u16;
            TouchAction::Drag { x: dx, y: dy }
        } else {
            return Err(DecodeError::UnrecognizedTouchType);
        };
        let x: u16 = (cmd[t.x_high] as u16) * 256 + (cmd[t.x_low] as u16);
        let y: u16 = match t.y_high_optional {
            Some(h) => (cmd[h] as u16) * 256 + (cmd[t.y_low_or_single] as u16),
            None => cmd[t.y_low_or_single] as u16,
        };
        let mut events: Vec<InputEvent> = Vec::new();
        events.push(InputEvent::Touch { x, y, action });
        Ok(events)
    }

    /// The decoder entry point: classifies one raw report, dispatches to
    /// exactly one of the button, dial, or touch decoders, and returns
    /// its events or its error. Never panics: every byte value in the
    /// report is a valid input to every decoding step.
    pub fn handle_input(&mut self, cmd: &[u8; REPORT_LEN], d: &DeviceDescriptor) -> (r: Result<
        Vec<InputEvent>,
        DecodeError,
    >)
        requires
            d.wf(),
            old(self).wf(),
        ensures
            final(self).wf(),
            ({
                match category(cmd@, *d) {
                    Ok(ReportCategory::Button) => {
                        &&& r matches Ok(v) && v@ == button_step_events(
                            cmd@,
                            *d,
                            old(self).pressed_keys@,
                        )
                        &&& final(self).pressed_keys@.to_set() == fresh_keys(cmd@, *d)
                        &&& final(self).pressed_dials == old(self).pressed_dials
                    },
                    Ok(ReportCategory::Touch) => {
                        &&& *final(self) == *old(self)
                        &&& match d.touch_layout {
                            None => r matches Err(e) && e == DecodeError::TouchscreenUnsupported,
                            Some(t) => match touch_result(cmd@, t) {
                                Ok(s) => r matches Ok(v) && v@ == s,
                                Err(e) => r matches Err(e2) && e2 == e,
                            },
                        }
                    },
                    Ok(ReportCategory::Dial) => {
                        let turn_mode = cmd@[d.dial_press_flag_index as int] == 0;
                        &&& final(self).pressed_keys == old(self).pressed_keys
                        &&& turn_mode ==> final(self).pressed_dials == old(self).pressed_dials
                            && (r matches Ok(v) && v@ == dial_turn_events(cmd@, *d, d.dials as int))
                        &&& !turn_mode ==> final(self).pressed_dials@.to_set() == new_dial_set(
                            cmd@,
                            *d,
                            old(self).pressed_dials@.to_set(),
                        ) && (r matches Ok(v) && v@ == dial_step_events(
                            cmd@,
                            *d,
                            old(self).pressed_dials@,
                        ))
                    },
                    Err(e) => *final(self) == *old(self) && (r matches Err(e2) && e2 == e),
                }
            }),
    {
        if !d.is_dial_or_touch_capable() {
            return Ok(self.handle_button_event(cmd, d));
        }
        if cmd[1] == 0 {
            Ok(self.handle_button_event(cmd, d))
        } else if cmd[1] == 2 {
            self.handle_touchscreen_event(cmd, d)
        } else if cmd[1] == 3 {
            Ok(self.handle_dial_event(cmd, d))
        } else {
            Err(DecodeError::UnrecognizedCategory)
        }
    }
}

/// The report classifier on its own: which category one raw report
/// falls in for a given model, or an unrecognized-category error.
pub fn classify(cmd: &[u8; REPORT_LEN], d: &DeviceDescriptor) -> (r: Result<
    ReportCategory,
    DecodeError,
>)
    ensures
        r == category(cmd@, *d),
{
    if !d.is_dial_or_touch_capable() {
        return Ok(ReportCategory::Button);
    }
    if cmd[1] == 0 {
        Ok(ReportCategory::Button)
    } else if cmd[1] == 2 {
        Ok(ReportCategory::Touch)
    } else if cmd[1] == 3 {
        Ok(ReportCategory::Dial)
    } else {
        Err(DecodeError::UnrecognizedCategory)
    }
}

/// Scanning one more window position extends the asserted-index set by
/// that position's logical key, or leaves it unchanged.
proof fn lemma_fresh_keys_step(cmd: Seq<u8>, d: DeviceDescriptor, j: int)
    requires
        0 <= j,
    ensures
        key_asserted(cmd, d, j) ==> fresh_keys_upto(cmd, d, j + 1) == fresh_keys_upto(
            cmd,
            d,
            j,
        ).insert(logical_key(d, j)),
        !key_asserted(cmd, d, j) ==> fresh_keys_upto(cmd, d, j + 1) == fresh_keys_upto(cmd, d, j),
{
    if key_asserted(cmd, d, j) {
        let b = logical_key(d, j);
        assert forall|c: u8| fresh_keys_upto(cmd, d, j + 1).contains(c) implies fresh_keys_upto(
            cmd,
            d,
            j,
        ).insert(b).contains(c) by {
            let jj = choose|jj: int|
                0 <= jj < j + 1 && key_asserted(cmd, d, jj) && logical_key(d, jj) == c;
            if jj < j {
                assert(fresh_keys_upto(cmd, d, j).contains(c));
            }
        }
        assert forall|c: u8| fresh_keys_upto(cmd, d, j).insert(b).contains(
            c,
        ) implies fresh_keys_upto(cmd, d, j + 1).contains(c) by {
            if c == b {
                assert(key_asserted(cmd, d, j) && logical_key(d, j) == c);
            } else {
                let jj = choose|jj: int|
                    0 <= jj < j && key_asserted(cmd, d, jj) && logical_key(d, jj) == c;
                assert(0 <= jj < j + 1 && key_asserted(cmd, d, jj) && logical_key(d, jj) == c);
            }
        }
        assert(fresh_keys_upto(cmd, d, j + 1) =~= fresh_keys_upto(cmd, d, j).insert(b));
    } else {
        assert forall|c: u8| fresh_keys_upto(cmd, d, j + 1).contains(c) implies fresh_keys_upto(
            cmd,
            d,
            j,
        ).contains(c) by {
            let jj = choose|jj: int|
                0 <= jj < j + 1 && key_asserted(cmd, d, jj) && logical_key(d, jj) == c;
            assert(jj < j);
        }
        assert(fresh_keys_upto(cmd, d, j + 1) =~= fresh_keys_upto(cmd, d, j));
    }
}

/// Whether `v` holds `x`.
fn vec_contains(v: &Vec<u8>, x: u8) -> (r: bool)
    ensures
        r == v@.contains(x),
{
    let mut i: usize = 0;
    while i < v.len()
        invariant
            i <= v.len(),
            forall|k: int| 0 <= k < i ==> v@[k] != x,
        decreases v.len() - i,
    {
        if v[i] == x {
            return true;
        }
        i += 1;
    }
    false
}

/// Inserts `x` into the strictly increasing vector `v`, keeping it
/// strictly increasing; inserting an element already present changes
/// nothing.
fn insert_sorted(v: &mut Vec<u8>, x: u8)
    requires
        sorted_unique(old(v)@),
    ensures
        sorted_unique(final(v)@),
        final(v)@.to_set() == old(v)@.to_set().insert(x),
{
    let mut i: usize = 0;
    while i < v.len() && v[i] < x
        invariant
            i <= v.len(),
            v == old(v),
            forall|k: int| 0 <= k < i ==> v@[k] < x,
        decreases v.len() - i,
    {
        i += 1;
    }
    if i < v.len() && v[i] == x {
        proof {
            assert(v@.contains(x));
            assert(v@.to_set() =~= v@.to_set().insert(x));
        }
        return ;
    }
    let ghost before = v@;
    v.insert(i, x);
    proof {
        assert forall|k: int| 0 <= k < v@.len() implies v@[k] == (if k < i {
            before[k]
        } else if k == i {
            x
        } else {
            before[k - 1]
        }) by {
            assert(v@ == before.insert(i as int, x));
        }
        assert(sorted_unique(v@));
        assert forall|b: u8| v@.to_set().contains(b) implies before.to_set().insert(x).contains(
            b,
        ) by {
            let k = choose|k: int| 0 <= k < v@.len() && v@[k] == b;
            if k < i {
                assert(before[k] == b);
            } else if k > i {
                assert(before[k - 1] == b);
            }
        }
        assert forall|b: u8| before.to_set().insert(x).contains(b) implies v@.to_set().contains(
            b,
        ) by {
            if b == x {
                assert(v@[i as int] == b);
            } else {
                let k = choose|k: int| 0 <= k < before.len() && before[k] == b;
                if k < i {
                    assert(v@[k] == b);
                } else {
                    assert(v@[k + 1] == b);
                }
            }
        }
        assert(v@.to_set() =~= before.to_set().insert(x));
    }
}

} // verus!
