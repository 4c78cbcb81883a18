use svdag::viewer::{
    clamp_pitch, event_action, CameraMovement, CursorMode, EventAction, HeldKeys, InputState, Key,
    KeyAction, Surface, WindowEvent,
};

fn keys(tab: bool) -> HeldKeys {
    HeldKeys { tab, w: false, s: false, a: false, d: false }
}

#[test]
fn held_key_toggles_once() {
    for frames in 1..40 {
        let mut state = InputState::new();
        let mut toggles = 0;
        for _ in 0..frames {
            if state.step(keys(true)).cursor_mode.is_some() {
                toggles += 1;
            }
        }
        assert_eq!(toggles, 1);
        assert!(!state.cursor_disabled);
        assert!(state.tab_pressed_last_frame);
    }
}

#[test]
fn each_press_toggles_again() {
    let mut state = InputState::new();
    assert!(state.cursor_disabled);
    assert_eq!(state.step(keys(false)).cursor_mode, None);
    assert_eq!(state.step(keys(true)).cursor_mode, Some(CursorMode::Normal));
    assert_eq!(state.step(keys(true)).cursor_mode, None);
    assert_eq!(state.step(keys(false)).cursor_mode, None);
    assert!(!state.cursor_disabled);
    assert_eq!(state.step(keys(true)).cursor_mode, Some(CursorMode::Disabled));
    assert!(state.cursor_disabled);
    assert_eq!(state.step(keys(false)).cursor_mode, None);
    assert!(state.cursor_disabled);
}

#[test]
fn first_pointer_sample_is_ignored() {
    let mut state = InputState::new();
    assert!(state.first_mouse);
    assert!(!state.step(keys(false)).apply_pointer);
    assert!(!state.first_mouse);
    assert!(state.step(keys(false)).apply_pointer);
    assert!(!state.step(keys(true)).apply_pointer);
    assert!(state.step(keys(true)).apply_pointer);
    assert!(state.step(keys(false)).apply_pointer);
}

#[test]
fn held_keys_request_movements_in_order() {
    let mut state = InputState::new();
    let all = HeldKeys { tab: false, w: true, s: true, a: true, d: true };
    assert_eq!(
        state.step(all).moves,
        vec![
            CameraMovement::Forward,
            CameraMovement::Backward,
            CameraMovement::Left,
            CameraMovement::Right
        ]
    );
    let some = HeldKeys { tab: false, w: false, s: true, a: false, d: true };
    assert_eq!(state.step(some).moves, vec![CameraMovement::Backward, CameraMovement::Right]);
    assert!(state.step(keys(true)).moves.is_empty());
}

#[test]
fn events_resize_and_close() {
    assert_eq!(event_action(WindowEvent::FramebufferSize(640, 480)), EventAction::SetViewport(640, 480));
    assert_eq!(event_action(WindowEvent::Key(Key::Escape, KeyAction::Press)), EventAction::RequestClose);
    assert_eq!(event_action(WindowEvent::Key(Key::Escape, KeyAction::Release)), EventAction::Ignore);
    assert_eq!(event_action(WindowEvent::Key(Key::Escape, KeyAction::Repeat)), EventAction::Ignore);
    assert_eq!(event_action(WindowEvent::Key(Key::Tab, KeyAction::Press)), EventAction::Ignore);
    assert_eq!(event_action(WindowEvent::Other), EventAction::Ignore);

    let mut surface = Surface::new(800, 600);
    let actions = surface.process_events(&vec![
        WindowEvent::Other,
        WindowEvent::FramebufferSize(1024, 768),
        WindowEvent::Key(Key::W, KeyAction::Press),
        WindowEvent::FramebufferSize(1280, 720),
    ]);
    assert_eq!(
        actions,
        vec![
            EventAction::Ignore,
            EventAction::SetViewport(1024, 768),
            EventAction::Ignore,
            EventAction::SetViewport(1280, 720)
        ]
    );
    assert_eq!(surface, Surface { width: 1280, height: 720, should_close: false });
    let actions = surface.process_events(&vec![WindowEvent::Key(Key::Escape, KeyAction::Press)]);
    assert_eq!(actions, vec![EventAction::RequestClose]);
    assert_eq!(surface, Surface { width: 1280, height: 720, should_close: true });
    assert!(surface.process_events(&vec![]).is_empty());
    assert!(surface.should_close);
}

#[test]
fn pitch_is_clamped() {
    let clamp = |p: f32| f32::from_bits(clamp_pitch(p.to_bits(), true));
    assert_eq!(clamp(0.0), 0.0);
    assert_eq!(clamp(45.5), 45.5);
    assert_eq!(clamp(89.0), 89.0);
    assert_eq!(clamp(89.00001), 89.0);
    assert_eq!(clamp(1.0e9), 89.0);
    assert_eq!(clamp(f32::INFINITY), 89.0);
    assert_eq!(clamp(-89.0), -89.0);
    assert_eq!(clamp(-90.0), -89.0);
    assert_eq!(clamp(f32::NEG_INFINITY), -89.0);
    assert_eq!(clamp(-0.0).to_bits(), (-0.0f32).to_bits());
    assert!(clamp(f32::NAN).is_nan());
    assert_eq!(f32::from_bits(clamp_pitch(120.0f32.to_bits(), false)), 120.0);
    assert_eq!(f32::from_bits(clamp_pitch((-500.0f32).to_bits(), false)), -500.0);
}

#[test]
fn repeated_upward_motion_stops_at_the_limit() {
    let mut pitch = 0.0f32;
    let yaw = -90.0f32;
    for _ in 0..1000 {
        pitch += 25.0 * 0.1;
        pitch = f32::from_bits(clamp_pitch(pitch.to_bits(), true));
        assert!(pitch <= 89.0);
        let front = [
            yaw.to_radians().cos() * pitch.to_radians().cos(),
            pitch.to_radians().sin(),
            yaw.to_radians().sin() * pitch.to_radians().cos(),
        ];
        let length = (front[0] * front[0] + front[1] * front[1] + front[2] * front[2]).sqrt();
        assert!(length > 0.0);
        for c in front {
            assert!(!(c / length).is_nan());
        }
    }
    assert_eq!(pitch, 89.0);
}
