//! Which way the keys say to move.

use vstd::prelude::*;

verus! {

/// A key of the keyboard, as far as moving goes.
#[derive(Debug, Clone, Copy, PartialEq, Eq, Hash, Structural)]
pub enum Key {
    W,
    S,
    A,
    D,
    Q,
    E,
    L,
    Space,
    LShift,
    /// Any other key.
    Other,
}

/// Which keys are held down, and whether the mouse steers.
#[derive(Debug, Clone, Copy, PartialEq, Eq, Structural)]
pub struct MoveKeys {
    pub grab_mouse: bool,
    pub forward: bool,
    pub backward: bool,
    pub left: bool,
    pub right: bool,
    pub up: bool,
    pub down: bool,
}

impl MoveKeys {
    /// The keys after `key` went down or up: W and S move forward and
    /// backward, A and D left and right, Q and Space up, E and the left
    /// shift key down; pressing L turns the mouse on or off.
    pub open spec fn pressed(self, key: Key, is_pressed: bool) -> MoveKeys {
        match key {
            Key::W => MoveKeys { forward: is_pressed, ..self },
            Key::S => MoveKeys { backward: is_pressed, ..self },
            Key::A => MoveKeys { left: is_pressed, ..self },
            Key::D => MoveKeys { right: is_pressed, ..self },
            Key::Q | Key::Space => MoveKeys { up: is_pressed, ..self },
            Key::E | Key::LShift => MoveKeys { down: is_pressed, ..self },
            Key::L => MoveKeys { grab_mouse: self.grab_mouse != is_pressed, ..self },
            Key::Other => self,
        }
    }

    /// No key held down, the mouse off.
    pub fn new() -> (keys: Self)
        ensures
            keys == (MoveKeys {
                grab_mouse: false,
                forward: false,
                backward: false,
                left: false,
                right: false,
                up: false,
                down: false,
            }),
    {
        Self {
            grab_mouse: false,
            forward: false,
            backward: false,
            left: false,
            right: false,
            up: false,
            down: false,
        }
    }

    /// Takes note of `key` going down or up. Returns whether the key means
    /// anything for moving.
    pub fn process_key(&mut self, key: Key, is_pressed: bool) -> (used: bool)
        ensures
            *final(self) == old(self).pressed(key, is_pressed),
            used == (key != Key::Other),
    {
        match key {
            Key::W => self.forward = is_pressed,
            Key::S => self.backward = is_pressed,
            Key::A => self.left = is_pressed,
            Key::D => self.right = is_pressed,
            Key::Q => self.up = is_pressed,
            Key::E => self.down = is_pressed,
            Key::L => {
                if is_pressed {
                    self.grab_mouse = !self.grab_mouse;
                }
            },
            Key::Space => self.up = is_pressed,
            Key::LShift => self.down = is_pressed,
            Key::Other => {
                return false;
            },
        }
        true
    }
}

} // verus!
