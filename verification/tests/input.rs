use seedroad::input::{DriveIntent, ElementState, InputState, Key, KeyEvent, Look, NamedKey, Steer, Throttle};

fn ch(s: &str, state: ElementState) -> KeyEvent {
    KeyEvent { logical_key: Key::Character(s.to_string()), state }
}

fn named(k: NamedKey, state: ElementState) -> KeyEvent {
    KeyEvent { logical_key: Key::Named(k), state }
}

#[test]
fn default_holds_nothing() {
    let s = InputState::default();
    assert!(!(s.forward || s.backward || s.left || s.right || s.brake || s.upright || s.look_left || s.look_right));
}

#[test]
fn letters_in_either_case() {
    let mut s = InputState::default();
    s.handle_key_event(&ch("w", ElementState::Pressed));
    assert!(s.forward);
    s.handle_key_event(&ch("W", ElementState::Released));
    assert!(!s.forward);
    for (k, get) in [
        ("S", (|s: &InputState| s.backward) as fn(&InputState) -> bool),
        ("a", |s| s.left),
        ("D", |s| s.right),
        ("r", |s| s.upright),
        ("Q", |s| s.look_left),
        ("e", |s| s.look_right),
    ] {
        let mut s = InputState::default();
        s.handle_key_event(&ch(k, ElementState::Pressed));
        assert!(get(&s));
        s.handle_key_event(&ch(k, ElementState::Released));
        assert_eq!(s, InputState::default());
    }
}

#[test]
fn named_keys() {
    let mut s = InputState::default();
    s.handle_key_event(&named(NamedKey::ArrowUp, ElementState::Pressed));
    s.handle_key_event(&named(NamedKey::ArrowLeft, ElementState::Pressed));
    s.handle_key_event(&named(NamedKey::Space, ElementState::Pressed));
    assert!(s.forward && s.left && s.brake);
    s.handle_key_event(&named(NamedKey::ArrowDown, ElementState::Pressed));
    s.handle_key_event(&named(NamedKey::ArrowRight, ElementState::Pressed));
    assert!(s.backward && s.right);
}

#[test]
fn other_keys_change_nothing() {
    let mut s = InputState::default();
    s.handle_key_event(&ch("w", ElementState::Pressed));
    let before = s;
    s.handle_key_event(&ch("x", ElementState::Pressed));
    s.handle_key_event(&ch("ww", ElementState::Pressed));
    s.handle_key_event(&ch("", ElementState::Pressed));
    s.handle_key_event(&named(NamedKey::Other, ElementState::Pressed));
    s.handle_key_event(&KeyEvent { logical_key: Key::Unidentified, state: ElementState::Released });
    assert_eq!(s, before);
}

#[test]
fn drive_intent_priorities() {
    let mut s = InputState::default();
    assert_eq!(
        s.drive_intent(),
        DriveIntent { throttle: Throttle::Idle, steer: Steer::Straight, brake: false, look: Look::Behind }
    );
    s.forward = true;
    s.backward = true;
    s.left = true;
    s.right = true;
    s.look_left = true;
    s.look_right = true;
    s.brake = true;
    assert_eq!(
        s.drive_intent(),
        DriveIntent { throttle: Throttle::Forward, steer: Steer::Left, brake: true, look: Look::Left }
    );
    s.forward = false;
    s.left = false;
    s.look_left = false;
    assert_eq!(
        s.drive_intent(),
        DriveIntent { throttle: Throttle::Reverse, steer: Steer::Right, brake: true, look: Look::Right }
    );
}
