//! Camera movement input state.

use vstd::prelude::*;
use crate::controller::Button;

verus! {

/// Which movement keys are held.
#[derive(Debug, Default, Clone, Copy, PartialEq, Eq, Structural)]
pub struct MovementState {
    pub forward: bool,
    pub backward: bool,
    pub left: bool,
    pub right: bool,
    pub up: bool,
    pub down: bool,
    pub rotate_left: bool,
    pub rotate_right: bool,
}

/// Direction along one axis: `1` for the positive key alone, `-1` for the negative key
/// alone, `0` otherwise.
pub open spec fn axis_direction(positive: bool, negative: bool) -> int {
    if positive && !negative {
        1
    } else if negative && !positive {
        -1
    } else {
        0
    }
}

impl MovementState {
    /// No key held.
    pub fn new() -> (m: Self)
        ensures
            m == (MovementState {
                forward: false,
                backward: false,
                left: false,
                right: false,
                up: false,
                down: false,
                rotate_left: false,
                rotate_right: false,
            }),
    {
        MovementState {
            forward: false,
            backward: false,
            left: false,
            right: false,
            up: false,
            down: false,
            rotate_left: false,
            rotate_right: false,
        }
    }

    /// Direction along one axis from its two keys.
    pub fn to_direction(&self, positive: bool, negative: bool) -> (d: i32)
        ensures
            d == axis_direction(positive, negative),
    {
        match (positive, negative) {
            (true, false) => 1,
            (false, true) => -1,
            _ => 0,
        }
    }

    /// Movement direction `(forward, right, up)`, each -1, 0 or 1.
    pub fn velocity(&self) -> (v: (i32, i32, i32))
        ensures
            v.0 == axis_direction(self.forward, self.backward),
            v.1 == axis_direction(self.right, self.left),
            v.2 == axis_direction(self.up, self.down),
    {
        (
            self.to_direction(self.forward, self.backward),
            self.to_direction(self.right, self.left),
            self.to_direction(self.up, self.down),
        )
    }

    /// Turning direction: 1 to the right, -1 to the left.
    pub fn rotation_velocity(&self) -> (r: i32)
        ensures
            r == axis_direction(self.rotate_right, self.rotate_left),
    {
        self.to_direction(self.rotate_right, self.rotate_left)
    }

    /// Record that a movement key went down or up.  W/S move forward/backward, A/D left/right,
    /// Space/Shift up/down, Q/E rotate left/right; other buttons are ignored.
    pub fn set_key(&mut self, button: Button, pressed: bool)
        ensures
            *final(self) == match button {
                Button::KeyW => MovementState { forward: pressed, ..*old(self) },
                Button::KeyS => MovementState { backward: pressed, ..*old(self) },
                Button::KeyA => MovementState { left: pressed, ..*old(self) },
                Button::KeyD => MovementState { right: pressed, ..*old(self) },
                Button::Space => MovementState { up: pressed, ..*old(self) },
                Button::Shift => MovementState { down: pressed, ..*old(self) },
                Button::KeyQ => MovementState { rotate_left: pressed, ..*old(self) },
                Button::KeyE => MovementState { rotate_right: pressed, ..*old(self) },
                _ => *old(self),
            },
    {
        match button {
            Button::KeyW => self.forward = pressed,
            Button::KeyS => self.backward = pressed,
            Button::KeyA => self.left = pressed,
            Button::KeyD => self.right = pressed,
            Button::Space => self.up = pressed,
            Button::Shift => self.down = pressed,
            Button::KeyQ => self.rotate_left = pressed,
            Button::KeyE => self.rotate_right = pressed,
            _ => {},
        }
    }

    /// The movement state of a controller holding exactly `keys`.
    pub fn from_keys(keys: &[Button]) -> (m: Self)
        ensures
            m.forward == keys@.contains(Button::KeyW),
            m.backward == keys@.contains(Button::KeyS),
            m.left == keys@.contains(Button::KeyA),
            m.right == keys@.contains(Button::KeyD),
            m.up == keys@.contains(Button::Space),
            m.down == keys@.contains(Button::Shift),
            m.rotate_left == keys@.contains(Button::KeyQ),
            m.rotate_right == keys@.contains(Button::KeyE),
    {
        let mut m = MovementState::new();
        let mut i: usize = 0;
        while i < keys.len()
            invariant
                i <= keys@.len(),
                m.forward == keys@.take(i as int).contains(Button::KeyW),
                m.backward == keys@.take(i as int).contains(Button::KeyS),
                m.left == keys@.take(i as int).contains(Button::KeyA),
                m.right == keys@.take(i as int).contains(Button::KeyD),
                m.up == keys@.take(i as int).contains(Button::Space),
                m.down == keys@.take(i as int).contains(Button::Shift),
                m.rotate_left == keys@.take(i as int).contains(Button::KeyQ),
                m.rotate_right == keys@.take(i as int).contains(Button::KeyE),
            decreases keys@.len() - i,
        {
            let b = keys[i];
            let ghost before = keys@.take(i as int);
            let ghost after = keys@.take(i + 1);
            proof {
                assert(after =~= before.push(b));
                assert forall|x: Button| after.contains(x) == (before.contains(x) || x == b) by {
                    if after.contains(x) && x != b {
                        let j = choose|j: int| 0 <= j < after.len() && after[j] == x;
                        assert(before[j] == x);
                    }
                    if x == b {
                        assert(after[i as int] == b);
                    }
                    if before.contains(x) {
                        let j = choose|j: int| 0 <= j < before.len() && before[j] == x;
                        assert(after[j] == x);
                    }
                }
            }
            m.set_key(b, true);
            i = i + 1;
        }
        assert(keys@.take(keys@.len() as int) =~= keys@);
        m
    }
}

} // verus!
