use vstd::prelude::*;
use crate::vector::Vector2u32;

verus! {

/// A key or button in this frame (`is_down`) and in the frame before (`was_down`).
#[derive(Clone, Copy, Debug, Default, PartialEq, Eq, Structural)]
pub struct ButtonState {
    pub is_down: bool,
    pub was_down: bool,
}

impl ButtonState {
    /// Went down in this frame.
    pub fn pressed(&self) -> (r: bool)
        ensures
            r == (self.is_down && !self.was_down),
    {
        self.is_down && !self.was_down
    }

    /// Came up in this frame.
    pub fn released(&self) -> (r: bool)
        ensures
            r == (!self.is_down && self.was_down),
    {
        !self.is_down && self.was_down
    }
}

/// The pointer: its position in window pixels in this frame and the frame
/// before, its three buttons, and the wheel's last movement.
#[derive(Clone, Copy, Debug, Default, PartialEq, Eq, Structural)]
pub struct MouseState {
    pub pos: Vector2u32,
    pub prev_pos: Vector2u32,
    pub left: ButtonState,
    pub right: ButtonState,
    pub middle: ButtonState,
    pub wheel_delta: i16,
}

/// The input snapshot of one frame.
#[derive(Clone, Copy, Debug, Default, PartialEq, Eq, Structural)]
pub struct InputController {
    pub mouse_state: MouseState,
    pub w: ButtonState,
    pub a: ButtonState,
    pub s: ButtonState,
    pub d: ButtonState,
    pub up: ButtonState,
    pub left: ButtonState,
    pub down: ButtonState,
    pub right: ButtonState,
    pub esc: ButtonState,
}

/// `b` moved on a frame: what was down is now `was_down`, and `is_down` is
/// taken from `new`.
pub open spec fn advanced(b: ButtonState, new: ButtonState) -> ButtonState {
    ButtonState { is_down: new.is_down, was_down: b.is_down }
}

impl InputController {
    /// Moves the snapshot on by one frame: each button's `is_down` becomes its
    /// `was_down` and takes the value in `new_input`; the pointer position
    /// becomes the previous one and takes the new one. The wheel is kept.
    pub fn update(&mut self, new_input: InputController)
        ensures
            final(self).mouse_state.left == advanced(old(self).mouse_state.left, new_input.mouse_state.left),
            final(self).mouse_state.right == advanced(old(self).mouse_state.right, new_input.mouse_state.right),
            final(self).mouse_state.middle == advanced(old(self).mouse_state.middle, new_input.mouse_state.middle),
            final(self).mouse_state.prev_pos == old(self).mouse_state.pos,
            final(self).mouse_state.pos == new_input.mouse_state.pos,
            final(self).mouse_state.wheel_delta == old(self).mouse_state.wheel_delta,
            final(self).w == advanced(old(self).w, new_input.w),
            final(self).a == advanced(old(self).a, new_input.a),
            final(self).s == advanced(old(self).s, new_input.s),
            final(self).d == advanced(old(self).d, new_input.d),
            final(self).up == advanced(old(self).up, new_input.up),
            final(self).left == advanced(old(self).left, new_input.left),
            final(self).down == advanced(old(self).down, new_input.down),
            final(self).right == advanced(old(self).right, new_input.right),
            final(self).esc == advanced(old(self).esc, new_input.esc),
    {
        self.mouse_state.left.was_down = self.mouse_state.left.is_down;
        self.mouse_state.right.was_down = self.mouse_state.right.is_down;
        self.mouse_state.middle.was_down = self.mouse_state.middle.is_down;
        self.mouse_state.prev_pos = self.mouse_state.pos;
        self.w.was_down = self.w.is_down;
        self.a.was_down = self.a.is_down;
        self.s.was_down = self.s.is_down;
        self.d.was_down = self.d.is_down;
        self.up.was_down = self.up.is_down;
        self.left.was_down = self.left.is_down;
        self.down.was_down = self.down.is_down;
        self.right.was_down = self.right.is_down;
        self.esc.was_down = self.esc.is_down;

        self.mouse_state.left.is_down = new_input.mouse_state.left.is_down;
        self.mouse_state.right.is_down = new_input.mouse_state.right.is_down;
        self.mouse_state.middle.is_down = new_input.mouse_state.middle.is_down;
        self.mouse_state.pos = new_input.mouse_state.pos;
        self.w.is_down = new_input.w.is_down;
        self.a.is_down = new_input.a.is_down;
        self.s.is_down = new_input.s.is_down;
        self.d.is_down = new_input.d.is_down;
        self.up.is_down = new_input.up.is_down;
        self.left.is_down = new_input.left.is_down;
        self.down.is_down = new_input.down.is_down;
        self.right.is_down = new_input.right.is_down;
        self.esc.is_down = new_input.esc.is_down;
    }
}

} // verus!
