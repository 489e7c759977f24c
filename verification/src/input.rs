//! Which controls are held, from key presses and releases, and what the
//! vehicle is asked to do with them.
use vstd::prelude::*;
use vstd::string::*;

verus! {

/// The non-character keys the game listens to.
#[derive(Clone, Copy, Debug, PartialEq, Eq)]
pub enum NamedKey {
    ArrowUp,
    ArrowDown,
    ArrowLeft,
    ArrowRight,
    Space,
    /// Any other named key.
    Other,
}

/// A key by its logical meaning under the current layout.
#[derive(Clone, Debug)]
pub enum Key {
    /// A key that types text; the text it types.
    Character(String),
    /// A key with a name.
    Named(NamedKey),
    /// A key with no known meaning.
    Unidentified,
}

/// Whether a key went down or up.
#[derive(Clone, Copy, Debug, PartialEq, Eq)]
pub enum ElementState {
    Pressed,
    Released,
}

/// One keyboard event.
#[derive(Clone, Debug)]
pub struct KeyEvent {
    pub logical_key: Key,
    pub state: ElementState,
}

/// The held/released state of every control.
#[derive(Clone, Copy, Debug, PartialEq, Eq)]
pub struct InputState {
    /// W / ArrowUp
    pub forward: bool,
    /// S / ArrowDown
    pub backward: bool,
    /// A / ArrowLeft
    pub left: bool,
    /// D / ArrowRight
    pub right: bool,
    /// Space
    pub brake: bool,
    /// R: put the car back on its wheels where it stands
    pub upright: bool,
    /// Q: swing the camera to the car's left
    pub look_left: bool,
    /// E: swing the camera to the car's right
    pub look_right: bool,
}

/// One of the controls a key can drive.
#[derive(Clone, Copy, Debug, PartialEq, Eq)]
pub enum Control {
    Forward,
    Backward,
    Left,
    Right,
    Brake,
    Upright,
    LookLeft,
    LookRight,
}

/// `s` is the one-letter text `lower` or `upper`.
pub open spec fn is_letter(s: Seq<char>, lower: char, upper: char) -> bool {
    s == seq![lower] || s == seq![upper]
}

/// The control a key drives, if any: W A S D R Q E in either case, the arrow
/// keys and Space.
pub open spec fn control_for_key(k: Key) -> Option<Control> {
    match k {
        Key::Character(s) => {
            if is_letter(s@, 'w', 'W') {
                Some(Control::Forward)
            } else if is_letter(s@, 's', 'S') {
                Some(Control::Backward)
            } else if is_letter(s@, 'a', 'A') {
                Some(Control::Left)
            } else if is_letter(s@, 'd', 'D') {
                Some(Control::Right)
            } else if is_letter(s@, 'r', 'R') {
                Some(Control::Upright)
            } else if is_letter(s@, 'q', 'Q') {
                Some(Control::LookLeft)
            } else if is_letter(s@, 'e', 'E') {
                Some(Control::LookRight)
            } else {
                None
            }
        },
        Key::Named(NamedKey::ArrowUp) => Some(Control::Forward),
        Key::Named(NamedKey::ArrowDown) => Some(Control::Backward),
        Key::Named(NamedKey::ArrowLeft) => Some(Control::Left),
        Key::Named(NamedKey::ArrowRight) => Some(Control::Right),
        Key::Named(NamedKey::Space) => Some(Control::Brake),
        _ => None,
    }
}

/// `st` with control `c` set to `held` and every other control unchanged.
pub open spec fn with_control(st: InputState, c: Control, held: bool) -> InputState {
    match c {
        Control::Forward => InputState { forward: held, ..st },
        Control::Backward => InputState { backward: held, ..st },
        Control::Left => InputState { left: held, ..st },
        Control::Right => InputState { right: held, ..st },
        Control::Brake => InputState { brake: held, ..st },
        Control::Upright => InputState { upright: held, ..st },
        Control::LookLeft => InputState { look_left: held, ..st },
        Control::LookRight => InputState { look_right: held, ..st },
    }
}

/// The state after `event`: a press holds the key's control, a release lets
/// it go; keys that drive no control change nothing.
pub open spec fn after_event(st: InputState, event: KeyEvent) -> InputState {
    match control_for_key(event.logical_key) {
        Some(c) => with_control(st, c, event.state == ElementState::Pressed),
        None => st,
    }
}

/// The control typed by a one-letter key text, if any.
fn control_for_text(s: &String) -> (r: Option<Control>)
    ensures
        r == control_for_key(Key::Character(*s)),
{
    let t = s.as_str();
    if t.unicode_len() != 1 {
        proof {
            assert(!is_letter(s@, 'w', 'W') && !is_letter(s@, 's', 'S') && !is_letter(s@, 'a', 'A')
                && !is_letter(s@, 'd', 'D') && !is_letter(s@, 'r', 'R') && !is_letter(s@, 'q', 'Q')
                && !is_letter(s@, 'e', 'E')) by {
                assert(seq!['w'].len() == 1);
            }
        }
        return None;
    }
    let ch = t.get_char(0);
    proof {
        assert forall|a: char| s@ == seq![a] <==> ch == a by {
            if ch == a {
                assert(s@ =~= seq![a]);
            }
        }
    }
    if ch == 'w' || ch == 'W' {
        Some(Control::Forward)
    } else if ch == 's' || ch == 'S' {
        Some(Control::Backward)
    } else if ch == 'a' || ch == 'A' {
        Some(Control::Left)
    } else if ch == 'd' || ch == 'D' {
        Some(Control::Right)
    } else if ch == 'r' || ch == 'R' {
        Some(Control::Upright)
    } else if ch == 'q' || ch == 'Q' {
        Some(Control::LookLeft)
    } else if ch == 'e' || ch == 'E' {
        Some(Control::LookRight)
    } else {
        None
    }
}

/// Whether control `c` is held in `st`.
pub open spec fn held(st: InputState, c: Control) -> bool {
    match c {
        Control::Forward => st.forward,
        Control::Backward => st.backward,
        Control::Left => st.left,
        Control::Right => st.right,
        Control::Brake => st.brake,
        Control::Upright => st.upright,
        Control::LookLeft => st.look_left,
        Control::LookRight => st.look_right,
    }
}

/// Pressing a key and releasing it again leaves every control as it was,
/// except the key's own control, which ends up released; an event only ever
/// touches its own key's control.
pub proof fn lemma_press_release(st: InputState, k: Key)
    ensures
        ({
            let down = after_event(st, KeyEvent { logical_key: k, state: ElementState::Pressed });
            let up = after_event(down, KeyEvent { logical_key: k, state: ElementState::Released });
            match control_for_key(k) {
                Some(c) => {
                    &&& held(down, c)
                    &&& !held(up, c)
                    &&& forall|o: Control| o != c ==> held(up, o) == held(st, o) && held(down, o) == held(st, o)
                    &&& !held(st, c) ==> up == st
                },
                None => down == st && up == st,
            }
        }),
{
}

/// The letter keys, in either case, each drive exactly one control: W
/// forward, S backward, A left, D right, R upright, Q look-left, E
/// look-right. A press holds that control and a release lets it go; any other
/// key text changes nothing.
pub proof fn lemma_letter_bindings(st: InputState, s: String, state: ElementState)
    ensures
        ({
            let r = after_event(st, KeyEvent { logical_key: Key::Character(s), state });
            let p = state == ElementState::Pressed;
            &&& (s@ == seq!['w'] || s@ == seq!['W']) ==> r == (InputState { forward: p, ..st })
            &&& (s@ == seq!['s'] || s@ == seq!['S']) ==> r == (InputState { backward: p, ..st })
            &&& (s@ == seq!['a'] || s@ == seq!['A']) ==> r == (InputState { left: p, ..st })
            &&& (s@ == seq!['d'] || s@ == seq!['D']) ==> r == (InputState { right: p, ..st })
            &&& (s@ == seq!['r'] || s@ == seq!['R']) ==> r == (InputState { upright: p, ..st })
            &&& (s@ == seq!['q'] || s@ == seq!['Q']) ==> r == (InputState { look_left: p, ..st })
            &&& (s@ == seq!['e'] || s@ == seq!['E']) ==> r == (InputState { look_right: p, ..st })
            &&& (forall|c: char| s@ == seq![c] ==> c != 'w' && c != 'W' && c != 's' && c != 'S' && c != 'a'
                && c != 'A' && c != 'd' && c != 'D' && c != 'r' && c != 'R' && c != 'q' && c != 'Q'
                && c != 'e' && c != 'E') ==> r == st
        }),
{
    if s@.len() == 1 {
        let c0 = s@[0];
        assert forall|x: char| (s@ == #[trigger] seq![x]) <==> c0 == x by {
            if s@ == seq![x] {
                assert(seq![x][0] == x);
            }
            if c0 == x {
                assert(s@ =~= seq![x]);
            }
        }
    } else {
        assert forall|x: char| s@ != #[trigger] seq![x] by {
            assert(seq![x].len() == 1);
        }
    }
}

/// The arrow keys drive forward, backward, left and right, Space the brake;
/// a press holds the control and a release lets it go. Other named keys, and
/// keys with no known meaning, change nothing.
pub proof fn lemma_named_bindings(st: InputState, k: NamedKey, state: ElementState)
    ensures
        ({
            let r = after_event(st, KeyEvent { logical_key: Key::Named(k), state });
            let p = state == ElementState::Pressed;
            &&& k == NamedKey::ArrowUp ==> r == (InputState { forward: p, ..st })
            &&& k == NamedKey::ArrowDown ==> r == (InputState { backward: p, ..st })
            &&& k == NamedKey::ArrowLeft ==> r == (InputState { left: p, ..st })
            &&& k == NamedKey::ArrowRight ==> r == (InputState { right: p, ..st })
            &&& k == NamedKey::Space ==> r == (InputState { brake: p, ..st })
            &&& k == NamedKey::Other ==> r == st
        }),
        after_event(st, KeyEvent { logical_key: Key::Unidentified, state }) == st,
{
}

/// Requested drive direction.
#[derive(Clone, Copy, Debug, PartialEq, Eq)]
pub enum Throttle {
    Forward,
    Reverse,
    Idle,
}

/// Requested steering.
#[derive(Clone, Copy, Debug, PartialEq, Eq)]
pub enum Steer {
    Left,
    Right,
    Straight,
}

/// Requested camera swing around the car.
#[derive(Clone, Copy, Debug, PartialEq, Eq)]
pub enum Look {
    Left,
    Right,
    Behind,
}

/// What the held controls ask of the car and the camera this frame.
#[derive(Clone, Copy, Debug, PartialEq, Eq)]
pub struct DriveIntent {
    pub throttle: Throttle,
    pub steer: Steer,
    pub brake: bool,
    pub look: Look,
}

/// Forward wins over reverse, left over right, look-left over look-right.
pub open spec fn drive_intent_spec(st: InputState) -> DriveIntent {
    DriveIntent {
        throttle: if st.forward {
            Throttle::Forward
        } else if st.backward {
            Throttle::Reverse
        } else {
            Throttle::Idle
        },
        steer: if st.left {
            Steer::Left
        } else if st.right {
            Steer::Right
        } else {
            Steer::Straight
        },
        brake: st.brake,
        look: if st.look_left {
            Look::Left
        } else if st.look_right {
            Look::Right
        } else {
            Look::Behind
        },
    }
}

/// Each request follows its own controls only: the brake is asked for exactly
/// when Space is held; the car drives forward when W is held, reverses when S
/// is held without W, and idles otherwise; it steers left when A is held,
/// right when D is held without A, and straight otherwise; the camera swings
/// left on Q, right on E without Q, and stays behind otherwise.
pub proof fn lemma_drive_intent(st: InputState)
    ensures
        ({
            let r = drive_intent_spec(st);
            &&& r.brake == st.brake
            &&& (r.throttle == Throttle::Forward) == st.forward
            &&& (r.throttle == Throttle::Reverse) == (!st.forward && st.backward)
            &&& (r.throttle == Throttle::Idle) == (!st.forward && !st.backward)
            &&& (r.steer == Steer::Left) == st.left
            &&& (r.steer == Steer::Right) == (!st.left && st.right)
            &&& (r.steer == Steer::Straight) == (!st.left && !st.right)
            &&& (r.look == Look::Left) == st.look_left
            &&& (r.look == Look::Right) == (!st.look_left && st.look_right)
            &&& (r.look == Look::Behind) == (!st.look_left && !st.look_right)
        }),
{
}

impl Default for InputState {
    /// Nothing held.
    fn default() -> (r: Self)
        ensures
            r == (InputState {
                forward: false,
                backward: false,
                left: false,
                right: false,
                brake: false,
                upright: false,
                look_left: false,
                look_right: false,
            }),
    {
        InputState {
            forward: false,
            backward: false,
            left: false,
            right: false,
            brake: false,
            upright: false,
            look_left: false,
            look_right: false,
        }
    }
}

impl InputState {
    /// The requests the held controls make this frame.
    pub fn drive_intent(&self) -> (r: DriveIntent)
        ensures
            r == drive_intent_spec(*self),
            r.brake == self.brake,
            (r.throttle == Throttle::Reverse) == (!self.forward && self.backward),
            (r.steer == Steer::Right) == (!self.left && self.right),
            (r.look == Look::Right) == (!self.look_left && self.look_right),
    {
        DriveIntent {
            throttle: if self.forward {
                Throttle::Forward
            } else if self.backward {
                Throttle::Reverse
            } else {
                Throttle::Idle
            },
            steer: if self.left {
                Steer::Left
            } else if self.right {
                Steer::Right
            } else {
                Steer::Straight
            },
            brake: self.brake,
            look: if self.look_left {
                Look::Left
            } else if self.look_right {
                Look::Right
            } else {
                Look::Behind
            },
        }
    }

    /// Updates the held controls from one keyboard event.
    pub fn handle_key_event(&mut self, event: &KeyEvent)
        ensures
            *final(self) == after_event(*old(self), *event),
    {
        let pressed = match event.state {
            ElementState::Pressed => true,
            ElementState::Released => false,
        };
        let control = match &event.logical_key {
            Key::Character(s) => control_for_text(s),
            Key::Named(NamedKey::ArrowUp) => Some(Control::Forward),
            Key::Named(NamedKey::ArrowDown) => Some(Control::Backward),
            Key::Named(NamedKey::ArrowLeft) => Some(Control::Left),
            Key::Named(NamedKey::ArrowRight) => Some(Control::Right),
            Key::Named(NamedKey::Space) => Some(Control::Brake),
            _ => None,
        };
        match control {
            Some(Control::Forward) => self.forward = pressed,
            Some(Control::Backward) => self.backward = pressed,
            Some(Control::Left) => self.left = pressed,
            Some(Control::Right) => self.right = pressed,
            Some(Control::Brake) => self.brake = pressed,
            Some(Control::Upright) => self.upright = pressed,
            Some(Control::LookLeft) => self.look_left = pressed,
            Some(Control::LookRight) => self.look_right = pressed,
            None => {},
        }
    }
}

} // verus!
