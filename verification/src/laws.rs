//! Laws of the decoder: properties that relate several decode calls or
//! quantify over all reports, proved once and for all against the model
//! in [`crate::model`].

use vstd::prelude::*;

use crate::descriptor::DeviceDescriptor;
use crate::events::ButtonAction;
use crate::events::InputEvent;
use crate::model::button_step_events;
use crate::model::fresh_keys;
use crate::model::key_asserted;
use crate::model::key_pressed_events;
use crate::model::key_released_events;
use crate::model::logical_key;
use crate::model::sorted_unique;
use crate::model::turn_delta;

verus! {

/// Whether an event is a button press.
pub open spec fn is_pressed_event(e: InputEvent) -> bool {
    e matches InputEvent::Button { index: _, action: ButtonAction::Pressed }
}

/// Whether an event is a button release.
pub open spec fn is_released_event(e: InputEvent) -> bool {
    e matches InputEvent::Button { index: _, action: ButtonAction::Released }
}

/// No position up to `n` presses an index the decoder already holds, so
/// no press events come out.
proof fn lemma_pressed_events_empty(cmd: Seq<u8>, d: DeviceDescriptor, held: Set<u8>, n: int)
    requires
        forall|k: int| 0 <= k < n && key_asserted(cmd, d, k) ==> held.contains(logical_key(d, k)),
    ensures
        key_pressed_events(cmd, d, held, n) == Seq::<InputEvent>::empty(),
    decreases n,
{
    if n > 0 {
        lemma_pressed_events_empty(cmd, d, held, n - 1);
    }
}

/// Every held index up to `n` is still asserted, so no release events
/// come out.
proof fn lemma_released_events_empty(held: Seq<u8>, fresh: Set<u8>, n: int)
    requires
        forall|k: int| 0 <= k < n ==> fresh.contains(held[k]),
    ensures
        key_released_events(held, fresh, n) == Seq::<InputEvent>::empty(),
    decreases n,
{
    if n > 0 {
        lemma_released_events_empty(held, fresh, n - 1);
    }
}

/// Idempotent hold: a button report whose asserted indices are exactly
/// the indices the decoder already holds yields no events at all. In
/// particular, decoding the same key-bit pattern twice in a row emits
/// nothing on the second call: no duplicate `Pressed`, no spurious
/// `Released`.
pub proof fn lemma_idempotent_hold(cmd: Seq<u8>, d: DeviceDescriptor, held: Seq<u8>)
    requires
        sorted_unique(held),
        held.to_set() == fresh_keys(cmd, d),
    ensures
        button_step_events(cmd, d, held) == Seq::<InputEvent>::empty(),
{
    assert forall|k: int|
        0 <= k < d.keys && key_asserted(cmd, d, k) implies held.to_set().contains(
        logical_key(d, k),
    ) by {
        assert(fresh_keys(cmd, d).contains(logical_key(d, k)));
    }
    lemma_pressed_events_empty(cmd, d, held.to_set(), d.keys as int);
    assert forall|k: int| 0 <= k < held.len() implies fresh_keys(cmd, d).contains(held[k]) by {
        assert(held.to_set().contains(held[k]));
    }
    lemma_released_events_empty(held, fresh_keys(cmd, d), held.len() as int);
    assert(button_step_events(cmd, d, held) =~= Seq::<InputEvent>::empty());
}

/// A strictly increasing sequence whose element set is `{b}` is the
/// one-element sequence `[b]`. Connects the decoder's stored state,
/// which its contracts pin down only as a set, to an exact sequence.
pub proof fn lemma_sorted_unique_singleton(s: Seq<u8>, b: u8)
    requires
        sorted_unique(s),
        s.to_set() == Set::<u8>::empty().insert(b),
    ensures
        s == seq![b],
{
    assert(s.to_set().contains(b));
    let k = choose|k: int| 0 <= k < s.len() && s[k] == b;
    if s.len() >= 2 {
        assert(s.to_set().contains(s[0]));
        assert(s.to_set().contains(s[1]));
        assert(s[0] == b && s[1] == b);
        assert(false);
    }
    assert(s =~= seq![b]);
}

/// Press/release pairing: from a decoder holding nothing, a report that
/// asserts exactly the key-window position `j` yields exactly one
/// `Pressed` for its logical index `b` and leaves `{b}` held; a
/// following report asserting nothing yields exactly one `Released` for
/// `b` and leaves nothing held.
pub proof fn lemma_press_release_pairing(cmd1: Seq<u8>, cmd2: Seq<u8>, d: DeviceDescriptor, j: int)
    requires
        d.wf(),
        0 <= j < d.keys,
        forall|k: int| 0 <= k < d.keys ==> (key_asserted(cmd1, d, k) <==> k == j),
        forall|k: int| 0 <= k < d.keys ==> !key_asserted(cmd2, d, k),
    ensures
        ({
            let b = logical_key(d, j);
            &&& button_step_events(cmd1, d, Seq::empty()) == seq![
                (InputEvent::Button { index: b, action: ButtonAction::Pressed }),
            ]
            &&& fresh_keys(cmd1, d) == Set::<u8>::empty().insert(b)
            &&& button_step_events(cmd2, d, seq![b]) == seq![
                (InputEvent::Button { index: b, action: ButtonAction::Released }),
            ]
            &&& fresh_keys(cmd2, d) == Set::<u8>::empty()
        }),
{
    let b = logical_key(d, j);
    lemma_single_press(cmd1, d, j, d.keys as int);
    assert(Seq::<u8>::empty().to_set() =~= Set::<u8>::empty());
    assert(key_released_events(Seq::empty(), fresh_keys(cmd1, d), 0)
        == Seq::<InputEvent>::empty());
    assert(button_step_events(cmd1, d, Seq::empty()) =~= seq![
        (InputEvent::Button { index: b, action: ButtonAction::Pressed }),
    ]);
    assert forall|c: u8| fresh_keys(cmd1, d).contains(c) implies Set::<u8>::empty().insert(
        b,
    ).contains(c) by {
        let k = choose|k: int|
            0 <= k < d.keys && key_asserted(cmd1, d, k) && logical_key(d, k) == c;
        assert(k == j);
    }
    assert(fresh_keys(cmd1, d).contains(b)) by {
        assert(key_asserted(cmd1, d, j) && logical_key(d, j) == b);
    }
    assert(fresh_keys(cmd1, d) =~= Set::<u8>::empty().insert(b));

    assert forall|c: u8| !fresh_keys(cmd2, d).contains(c) by {
        if fresh_keys(cmd2, d).contains(c) {
            let k = choose|k: int|
                0 <= k < d.keys && key_asserted(cmd2, d, k) && logical_key(d, k) == c;
            assert(false);
        }
    }
    assert(fresh_keys(cmd2, d) =~= Set::<u8>::empty());
    let s = seq![b];
    assert(s.len() == 1 && s[0] == b);
    assert(!fresh_keys(cmd2, d).contains(s[0]));
    assert(key_released_events(s, fresh_keys(cmd2, d), 1) == key_released_events(
        s,
        fresh_keys(cmd2, d),
        0,
    ).push(InputEvent::Button { index: b, action: ButtonAction::Released }));
    assert(key_released_events(s, fresh_keys(cmd2, d), 1) =~= seq![
        (InputEvent::Button { index: b, action: ButtonAction::Released }),
    ]);
    assert(s.to_set().contains(b));
    lemma_pressed_events_empty(cmd2, d, s.to_set(), d.keys as int);
    assert(button_step_events(cmd2, d, s) =~= seq![
        (InputEvent::Button { index: b, action: ButtonAction::Released }),
    ]);
}

/// With exactly one asserted window position `j` and nothing held, the
/// press events over the first `n` positions are one `Pressed` once `n`
/// passes `j`, and nothing before.
proof fn lemma_single_press(cmd: Seq<u8>, d: DeviceDescriptor, j: int, n: int)
    requires
        0 <= j < d.keys,
        n <= d.keys,
        forall|k: int| 0 <= k < d.keys ==> (key_asserted(cmd, d, k) <==> k == j),
    ensures
        n <= j ==> key_pressed_events(cmd, d, Set::empty(), n) == Seq::<InputEvent>::empty(),
        n > j ==> key_pressed_events(cmd, d, Set::empty(), n) == seq![
            (InputEvent::Button { index: logical_key(d, j), action: ButtonAction::Pressed }),
        ],
    decreases n,
{
    if n > 0 {
        lemma_single_press(cmd, d, j, n - 1);
        if n - 1 == j {
            assert(key_pressed_events(cmd, d, Set::empty(), n) =~= seq![
                (InputEvent::Button { index: logical_key(d, j), action: ButtonAction::Pressed }),
            ]);
        }
    }
}

/// Every event the press scan emits is a button press.
proof fn lemma_pressed_events_pressed(cmd: Seq<u8>, d: DeviceDescriptor, held: Set<u8>, n: int)
    ensures
        forall|i: int|
            0 <= i < key_pressed_events(cmd, d, held, n).len() ==> is_pressed_event(
                #[trigger] key_pressed_events(cmd, d, held, n)[i],
            ),
    decreases n,
{
    if n > 0 {
        lemma_pressed_events_pressed(cmd, d, held, n - 1);
        let rest = key_pressed_events(cmd, d, held, n - 1);
        let cur = key_pressed_events(cmd, d, held, n);
        assert forall|i: int| 0 <= i < cur.len() implies is_pressed_event(cur[i]) by {
            if i < rest.len() {
                assert(cur[i] == rest[i]);
            }
        }
    }
}

/// Every event the release scan emits is a button release.
proof fn lemma_released_events_released(held: Seq<u8>, fresh: Set<u8>, n: int)
    ensures
        forall|i: int|
            0 <= i < key_released_events(held, fresh, n).len() ==> is_released_event(
                #[trigger] key_released_events(held, fresh, n)[i],
            ),
    decreases n,
{
    if n > 0 {
        lemma_released_events_released(held, fresh, n - 1);
        let rest = key_released_events(held, fresh, n - 1);
        let cur = key_released_events(held, fresh, n);
        assert forall|i: int| 0 <= i < cur.len() implies is_released_event(cur[i]) by {
            if i < rest.len() {
                assert(cur[i] == rest[i]);
            }
        }
    }
}

/// Event ordering: within one button decode, every `Pressed` event
/// precedes every `Released` event, whatever the raw byte order; and
/// nothing but button events is emitted.
pub proof fn lemma_event_ordering(cmd: Seq<u8>, d: DeviceDescriptor, held: Seq<u8>)
    ensures
        ({
            let evs = button_step_events(cmd, d, held);
            &&& forall|i: int|
                0 <= i < evs.len() ==> is_pressed_event(#[trigger] evs[i]) || is_released_event(
                    evs[i],
                )
            &&& forall|a: int, b: int|
                0 <= a < b < evs.len() && is_pressed_event(#[trigger] evs[b]) ==> is_pressed_event(
                    #[trigger] evs[a],
                )
        }),
{
    let pressed = key_pressed_events(cmd, d, held.to_set(), d.keys as int);
    let released = key_released_events(held, fresh_keys(cmd, d), held.len() as int);
    lemma_pressed_events_pressed(cmd, d, held.to_set(), d.keys as int);
    lemma_released_events_released(held, fresh_keys(cmd, d), held.len() as int);
    let evs = button_step_events(cmd, d, held);
    assert forall|a: int, b: int|
        0 <= a < b < evs.len() && is_pressed_event(#[trigger] evs[b]) implies is_pressed_event(
        #[trigger] evs[a],
    ) by {
        if b >= pressed.len() {
            assert(evs[b] == released[b - pressed.len()]);
            assert(is_released_event(evs[b]));
            assert(false);
        }
        assert(evs[a] == pressed[a]);
    }
}

/// A held index never produces a press event.
proof fn lemma_held_never_pressed(cmd: Seq<u8>, d: DeviceDescriptor, held: Set<u8>, n: int, b: u8)
    requires
        held.contains(b),
    ensures
        forall|i: int|
            0 <= i < key_pressed_events(cmd, d, held, n).len()
                ==> #[trigger] key_pressed_events(cmd, d, held, n)[i] != (InputEvent::Button {
                index: b,
                action: ButtonAction::Pressed,
            }),
    decreases n,
{
    if n > 0 {
        lemma_held_never_pressed(cmd, d, held, n - 1, b);
        let rest = key_pressed_events(cmd, d, held, n - 1);
        let cur = key_pressed_events(cmd, d, held, n);
        assert forall|i: int|
            0 <= i < cur.len() implies cur[i] != (InputEvent::Button {
            index: b,
            action: ButtonAction::Pressed,
        }) by {
            if i < rest.len() {
                assert(cur[i] == rest[i]);
            }
        }
    }
}

/// An index the decoder does not hold never produces a release event.
proof fn lemma_unheld_never_released(held: Seq<u8>, fresh: Set<u8>, n: int, b: u8)
    requires
        n <= held.len(),
        !held.to_set().contains(b),
    ensures
        forall|i: int|
            0 <= i < key_released_events(held, fresh, n).len()
                ==> #[trigger] key_released_events(held, fresh, n)[i] != (InputEvent::Button {
                index: b,
                action: ButtonAction::Released,
            }),
    decreases n,
{
    if n > 0 {
        lemma_unheld_never_released(held, fresh, n - 1, b);
        let rest = key_released_events(held, fresh, n - 1);
        let cur = key_released_events(held, fresh, n);
        assert(held.to_set().contains(held[n - 1]));
        assert forall|i: int|
            0 <= i < cur.len() implies cur[i] != (InputEvent::Button {
            index: b,
            action: ButtonAction::Released,
        }) by {
            if i < rest.len() {
                assert(cur[i] == rest[i]);
            }
        }
    }
}

/// Press/release alternation: one button decode never presses an index
/// it already holds and never releases one it does not hold. Since a
/// decode leaves exactly the asserted indices held, two `Pressed` for
/// the same index can never follow each other without a `Released` in
/// between, and conversely.
pub proof fn lemma_pressed_released_alternate(
    cmd: Seq<u8>,
    d: DeviceDescriptor,
    held: Seq<u8>,
    b: u8,
)
    ensures
        ({
            let evs = button_step_events(cmd, d, held);
            &&& held.to_set().contains(b) ==> forall|i: int|
                0 <= i < evs.len() ==> #[trigger] evs[i] != (InputEvent::Button {
                    index: b,
                    action: ButtonAction::Pressed,
                })
            &&& !held.to_set().contains(b) ==> forall|i: int|
                0 <= i < evs.len() ==> #[trigger] evs[i] != (InputEvent::Button {
                    index: b,
                    action: ButtonAction::Released,
                })
        }),
{
    let pressed = key_pressed_events(cmd, d, held.to_set(), d.keys as int);
    let released = key_released_events(held, fresh_keys(cmd, d), held.len() as int);
    let evs = button_step_events(cmd, d, held);
    lemma_pressed_events_pressed(cmd, d, held.to_set(), d.keys as int);
    lemma_released_events_released(held, fresh_keys(cmd, d), held.len() as int);
    if held.to_set().contains(b) {
        lemma_held_never_pressed(cmd, d, held.to_set(), d.keys as int, b);
        assert forall|i: int|
            0 <= i < evs.len() implies #[trigger] evs[i] != (InputEvent::Button {
            index: b,
            action: ButtonAction::Pressed,
        }) by {
            if i < pressed.len() {
                assert(evs[i] == pressed[i]);
            } else {
                assert(evs[i] == released[i - pressed.len()]);
                assert(is_released_event(evs[i]));
            }
        }
    } else {
        lemma_unheld_never_released(held, fresh_keys(cmd, d), held.len() as int, b);
        assert forall|i: int|
            0 <= i < evs.len() implies #[trigger] evs[i] != (InputEvent::Button {
            index: b,
            action: ButtonAction::Released,
        }) by {
            if i < pressed.len() {
                assert(evs[i] == pressed[i]);
                assert(is_pressed_event(evs[i]));
            } else {
                assert(evs[i] == released[i - pressed.len()]);
            }
        }
    }
}

/// Two's-complement round trip: a raw dial byte up to 127 is its own
/// clockwise delta; a byte from 128 up decodes to the negative delta
/// `raw - 256`; and adding 256 back modulo 256 recovers the raw byte.
pub proof fn lemma_turn_delta_round_trip(raw: u8)
    ensures
        raw <= 127 ==> turn_delta(raw) as int == raw as int,
        raw >= 128 ==> turn_delta(raw) as int == raw as int - 256,
        -128 <= turn_delta(raw) as int <= 127,
        (turn_delta(raw) as int + 256) % 256 == raw as int % 256,
{
}

} // verus!
