use deck_input::decoder::classify;
use deck_input::decoder::InputManager;
use deck_input::descriptor::DeviceDescriptor;
use deck_input::descriptor::KeyDirection;
use deck_input::descriptor::TouchLayout;
use deck_input::events::ButtonAction;
use deck_input::events::DecodeError;
use deck_input::events::DialAction;
use deck_input::events::InputEvent;
use deck_input::events::TouchAction;
use deck_input::model::ReportCategory;

/// A button-only model: eight keys, window at offset 4, logical index
/// equal to the window position.
fn buttons_only() -> DeviceDescriptor {
    DeviceDescriptor {
        keys: 8,
        dials: 0,
        key_data_offset: 4,
        key_index_offset: 0,
        key_direction: KeyDirection::LeftToRight,
        dial_data_offset: 0,
        dial_press_flag_index: 0,
        touch_layout: None,
    }
}

/// A button-only model whose key matrix is wired in reverse reading
/// order.
fn buttons_reversed() -> DeviceDescriptor {
    DeviceDescriptor {
        key_direction: KeyDirection::RightToLeft,
        ..buttons_only()
    }
}

/// A model with dials and a touchscreen alongside the buttons.
fn full_model() -> DeviceDescriptor {
    DeviceDescriptor {
        keys: 8,
        dials: 4,
        key_data_offset: 4,
        key_index_offset: 0,
        key_direction: KeyDirection::LeftToRight,
        dial_data_offset: 5,
        dial_press_flag_index: 4,
        touch_layout: Some(TouchLayout {
            event_type: 4,
            x_low: 6,
            x_high: 7,
            y_low_or_single: 8,
            y_high_optional: Some(9),
            drag_x_low: 10,
            drag_x_high: 11,
            drag_y_low_or_single: 12,
        }),
    }
}

fn button(index: u8, action: ButtonAction) -> InputEvent {
    InputEvent::Button { index, action }
}

fn dial(index: u8, action: DialAction) -> InputEvent {
    InputEvent::Dial { index, action }
}

#[test]
fn fresh_decoder_holds_nothing() {
    let m = InputManager::new();
    assert!(!m.is_key_pressed(0));
    assert!(!m.is_dial_pressed(0));
}

#[test]
fn descriptors_are_well_formed() {
    assert!(buttons_only().is_wf());
    assert!(buttons_reversed().is_wf());
    assert!(full_model().is_wf());
}

#[test]
fn idempotent_hold_emits_nothing_on_second_call() {
    let d = buttons_only();
    let mut m = InputManager::new();
    let mut cmd = [0u8; 36];
    cmd[4] = 1;
    cmd[6] = 1;
    let first = m.handle_input(&cmd, &d).unwrap();
    assert_eq!(
        first,
        vec![
            button(0, ButtonAction::Pressed),
            button(2, ButtonAction::Pressed)
        ]
    );
    let second = m.handle_input(&cmd, &d).unwrap();
    assert_eq!(second, vec![]);
    assert!(m.is_key_pressed(0));
    assert!(m.is_key_pressed(2));
}

#[test]
fn press_then_release_pairs_and_clears_state() {
    let d = buttons_only();
    let mut m = InputManager::new();
    let mut cmd = [0u8; 36];
    cmd[5] = 1;
    let first = m.handle_input(&cmd, &d).unwrap();
    assert_eq!(first, vec![button(1, ButtonAction::Pressed)]);
    assert!(m.is_key_pressed(1));
    cmd[5] = 0;
    let second = m.handle_input(&cmd, &d).unwrap();
    assert_eq!(second, vec![button(1, ButtonAction::Released)]);
    assert!(!m.is_key_pressed(1));
}

#[test]
fn pressed_events_precede_released_events() {
    let d = buttons_only();
    let mut m = InputManager::new();
    let mut cmd = [0u8; 36];
    cmd[5] = 1;
    cmd[7] = 1;
    m.handle_input(&cmd, &d).unwrap();
    let mut next = [0u8; 36];
    next[4] = 1;
    next[6] = 1;
    let events = m.handle_input(&next, &d).unwrap();
    assert_eq!(
        events,
        vec![
            button(0, ButtonAction::Pressed),
            button(2, ButtonAction::Pressed),
            button(1, ButtonAction::Released),
            button(3, ButtonAction::Released),
        ]
    );
}

#[test]
fn right_to_left_maps_window_position_zero_to_key_count() {
    let d = buttons_reversed();
    let mut m = InputManager::new();
    let mut cmd = [0u8; 36];
    cmd[4] = 1;
    let events = m.handle_input(&cmd, &d).unwrap();
    assert_eq!(events, vec![button(8, ButtonAction::Pressed)]);
}

#[test]
fn left_to_right_maps_window_position_zero_to_zero() {
    let d = buttons_only();
    let mut m = InputManager::new();
    let mut cmd = [0u8; 36];
    cmd[4] = 1;
    let events = m.handle_input(&cmd, &d).unwrap();
    assert_eq!(events, vec![button(0, ButtonAction::Pressed)]);
}

#[test]
fn left_to_right_applies_key_index_offset() {
    let d = DeviceDescriptor {
        key_index_offset: 1,
        ..buttons_only()
    };
    let mut m = InputManager::new();
    let mut cmd = [0u8; 36];
    cmd[4] = 1;
    let events = m.handle_input(&cmd, &d).unwrap();
    assert_eq!(events, vec![button(1, ButtonAction::Pressed)]);
}

#[test]
fn button_only_model_never_consults_classifier_byte() {
    let d = buttons_only();
    let mut m = InputManager::new();
    let mut cmd = [0u8; 36];
    cmd[1] = 3;
    cmd[4] = 1;
    let events = m.handle_input(&cmd, &d).unwrap();
    assert_eq!(events, vec![button(0, ButtonAction::Pressed)]);
}

#[test]
fn unknown_classifier_byte_is_an_error() {
    let d = full_model();
    let mut m = InputManager::new();
    let mut cmd = [0u8; 36];
    cmd[1] = 7;
    assert_eq!(
        m.handle_input(&cmd, &d),
        Err(DecodeError::UnrecognizedCategory)
    );
}

#[test]
fn classifier_recognizes_each_category() {
    let d = full_model();
    let mut cmd = [0u8; 36];
    assert_eq!(classify(&cmd, &d), Ok(ReportCategory::Button));
    cmd[1] = 2;
    assert_eq!(classify(&cmd, &d), Ok(ReportCategory::Touch));
    cmd[1] = 3;
    assert_eq!(classify(&cmd, &d), Ok(ReportCategory::Dial));
    cmd[1] = 1;
    assert_eq!(classify(&cmd, &d), Err(DecodeError::UnrecognizedCategory));
    assert_eq!(classify(&cmd, &buttons_only()), Ok(ReportCategory::Button));
}

#[test]
fn turn_mode_decodes_twos_complement_deltas() {
    let d = full_model();
    let mut m = InputManager::new();
    let mut cmd = [0u8; 36];
    cmd[1] = 3;
    cmd[4] = 0;
    cmd[5] = 1;
    cmd[6] = 255;
    cmd[7] = 128;
    cmd[8] = 127;
    let events = m.handle_input(&cmd, &d).unwrap();
    assert_eq!(
        events,
        vec![
            dial(0, DialAction::Turned(1)),
            dial(1, DialAction::Turned(-1)),
            dial(2, DialAction::Turned(-128)),
            dial(3, DialAction::Turned(127)),
        ]
    );
    assert!(!m.is_dial_pressed(0));
}

#[test]
fn turn_mode_skips_zero_bytes() {
    let d = full_model();
    let mut m = InputManager::new();
    let mut cmd = [0u8; 36];
    cmd[1] = 3;
    cmd[6] = 2;
    let events = m.handle_input(&cmd, &d).unwrap();
    assert_eq!(events, vec![dial(1, DialAction::Turned(2))]);
}

#[test]
fn dial_press_then_release() {
    let d = full_model();
    let mut m = InputManager::new();
    let mut cmd = [0u8; 36];
    cmd[1] = 3;
    cmd[4] = 1;
    cmd[6] = 1;
    let first = m.handle_input(&cmd, &d).unwrap();
    assert_eq!(first, vec![dial(1, DialAction::Pressed)]);
    assert!(m.is_dial_pressed(1));
    cmd[6] = 0;
    let second = m.handle_input(&cmd, &d).unwrap();
    assert_eq!(second, vec![dial(1, DialAction::Released)]);
    assert!(!m.is_dial_pressed(1));
}

#[test]
fn dial_held_across_reports_emits_once() {
    let d = full_model();
    let mut m = InputManager::new();
    let mut cmd = [0u8; 36];
    cmd[1] = 3;
    cmd[4] = 1;
    cmd[5] = 1;
    let first = m.handle_input(&cmd, &d).unwrap();
    assert_eq!(first, vec![dial(0, DialAction::Pressed)]);
    let second = m.handle_input(&cmd, &d).unwrap();
    assert_eq!(second, vec![]);
    assert!(m.is_dial_pressed(0));
}

#[test]
fn touch_short_assembles_coordinates() {
    let d = full_model();
    let mut m = InputManager::new();
    let mut cmd = [0u8; 36];
    cmd[1] = 2;
    cmd[4] = 1;
    cmd[6] = 0x2C;
    cmd[7] = 0x01;
    cmd[8] = 0x10;
    cmd[9] = 0x02;
    let events = m.handle_input(&cmd, &d).unwrap();
    assert_eq!(
        events,
        vec![InputEvent::Touch {
            x: 300,
            y: 0x0210,
            action: TouchAction::Short,
        }]
    );
}

#[test]
fn touch_long_press() {
    let d = full_model();
    let mut m = InputManager::new();
    let mut cmd = [0u8; 36];
    cmd[1] = 2;
    cmd[4] = 2;
    cmd[6] = 5;
    let events = m.handle_input(&cmd, &d).unwrap();
    assert_eq!(
        events,
        vec![InputEvent::Touch {
            x: 5,
            y: 0,
            action: TouchAction::Long,
        }]
    );
}

#[test]
fn single_byte_y_layout_caps_y() {
    let mut d = full_model();
    let mut layout = d.touch_layout.unwrap();
    layout.y_high_optional = None;
    d.touch_layout = Some(layout);
    let mut m = InputManager::new();
    let mut cmd = [0u8; 36];
    cmd[1] = 2;
    cmd[4] = 1;
    cmd[8] = 0xAB;
    cmd[9] = 0xFF;
    let events = m.handle_input(&cmd, &d).unwrap();
    assert_eq!(
        events,
        vec![InputEvent::Touch {
            x: 0,
            y: 0xAB,
            action: TouchAction::Short,
        }]
    );
}

#[test]
fn drag_assembles_end_coordinates() {
    let d = full_model();
    let mut m = InputManager::new();
    let mut cmd = [0u8; 36];
    cmd[1] = 2;
    cmd[4] = 3;
    cmd[10] = 0x2C;
    cmd[11] = 0x01;
    cmd[12] = 42;
    let events = m.handle_input(&cmd, &d).unwrap();
    assert_eq!(
        events,
        vec![InputEvent::Touch {
            x: 0,
            y: 0,
            action: TouchAction::Drag { x: 300, y: 42 },
        }]
    );
}

#[test]
fn unknown_touch_type_is_an_error() {
    let d = full_model();
    let mut m = InputManager::new();
    let mut cmd = [0u8; 36];
    cmd[1] = 2;
    cmd[4] = 9;
    assert_eq!(
        m.handle_input(&cmd, &d),
        Err(DecodeError::UnrecognizedTouchType)
    );
}

#[test]
fn touch_report_without_layout_is_an_error() {
    let d = DeviceDescriptor {
        touch_layout: None,
        ..full_model()
    };
    let mut m = InputManager::new();
    let mut cmd = [0u8; 36];
    cmd[1] = 2;
    assert_eq!(
        m.handle_input(&cmd, &d),
        Err(DecodeError::TouchscreenUnsupported)
    );
    let m2 = InputManager::new();
    assert_eq!(
        m2.handle_touchscreen_event(&cmd, &d),
        Err(DecodeError::TouchscreenUnsupported)
    );
}

#[test]
fn button_handler_called_directly() {
    let d = buttons_only();
    let mut m = InputManager::new();
    let mut cmd = [0u8; 36];
    cmd[4] = 0xFF;
    let events = m.handle_button_event(&cmd, &d);
    assert_eq!(events, vec![button(0, ButtonAction::Pressed)]);
    let events = m.handle_button_event(&[0u8; 36], &d);
    assert_eq!(events, vec![button(0, ButtonAction::Released)]);
}

#[test]
fn dial_handler_called_directly() {
    let d = full_model();
    let mut m = InputManager::new();
    let mut cmd = [0u8; 36];
    cmd[4] = 1;
    cmd[5] = 1;
    let events = m.handle_dial_event(&cmd, &d);
    assert_eq!(events, vec![dial(0, DialAction::Pressed)]);
    cmd[5] = 0;
    let events = m.handle_dial_event(&cmd, &d);
    assert_eq!(events, vec![dial(0, DialAction::Released)]);
}

#[test]
fn error_leaves_state_unchanged() {
    let d = full_model();
    let mut m = InputManager::new();
    let mut cmd = [0u8; 36];
    cmd[4] = 1;
    m.handle_input(&cmd, &d).unwrap();
    assert!(m.is_key_pressed(0));
    let mut bad = [0u8; 36];
    bad[1] = 9;
    assert!(m.handle_input(&bad, &d).is_err());
    assert!(m.is_key_pressed(0));
}
