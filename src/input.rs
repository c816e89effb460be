//! Held-key state, with left/right and up/down each mutually exclusive.
use vstd::prelude::*;

verus! {

#[derive(Clone, Copy, PartialEq, Eq, Debug, Structural)]
pub enum Key {
    Left,
    Right,
    Up,
    Down,
    Forward,
    Fire,
}

#[derive(Clone, Copy, PartialEq, Eq, Debug, Structural)]
pub struct Input {
    pub left: bool,
    pub right: bool,
    pub up: bool,
    pub down: bool,
    pub forward: bool,
    pub fire: bool,
}

impl Input {
    pub open spec fn wf(self) -> bool {
        !(self.left && self.right) && !(self.up && self.down)
    }

    pub fn new() -> (r: Input)
        ensures
            r.wf(),
            !r.left && !r.right && !r.up && !r.down && !r.forward && !r.fire,
    {
        Input { left: false, right: false, up: false, down: false, forward: false, fire: false }
    }

    /// A key goes down: its flag is set, and the opposite direction's
    /// flag is cleared.
    pub fn press(&mut self, key: Key)
        requires
            old(self).wf(),
        ensures
            final(self).wf(),
            *final(self) == (match key {
                Key::Left => Input { left: true, right: false, ..*old(self) },
                Key::Right => Input { right: true, left: false, ..*old(self) },
                Key::Up => Input { up: true, down: false, ..*old(self) },
                Key::Down => Input { down: true, up: false, ..*old(self) },
                Key::Forward => Input { forward: true, ..*old(self) },
                Key::Fire => Input { fire: true, ..*old(self) },
            }),
    {
        match key {
            Key::Left => {
                self.left = true;
                self.right = false;
            },
            Key::Right => {
                self.right = true;
                self.left = false;
            },
            Key::Up => {
                self.up = true;
                self.down = false;
            },
            Key::Down => {
                self.down = true;
                self.up = false;
            },
            Key::Forward => {
                self.forward = true;
            },
            Key::Fire => {
                self.fire = true;
            },
        }
    }

    /// A key goes up: its flag alone is cleared.
    pub fn release(&mut self, key: Key)
        requires
            old(self).wf(),
        ensures
            final(self).wf(),
            *final(self) == (match key {
                Key::Left => Input { left: false, ..*old(self) },
                Key::Right => Input { right: false, ..*old(self) },
                Key::Up => Input { up: false, ..*old(self) },
                Key::Down => Input { down: false, ..*old(self) },
                Key::Forward => Input { forward: false, ..*old(self) },
                Key::Fire => Input { fire: false, ..*old(self) },
            }),
    {
        match key {
            Key::Left => self.left = false,
            Key::Right => self.right = false,
            Key::Up => self.up = false,
            Key::Down => self.down = false,
            Key::Forward => self.forward = false,
            Key::Fire => self.fire = false,
        }
    }
}

} // verus!
