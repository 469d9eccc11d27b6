use vstd::prelude::*;

verus! {

/// A point or offset in screen space, in whole pixels.
#[derive(Clone, Copy, Debug, Default, PartialEq, Eq, Structural)]
pub struct Vector2u32 {
    pub x: u32,
    pub y: u32,
}

/// A point or offset in screen space that may lie left of or above the buffer.
#[derive(Clone, Copy, Debug, Default, PartialEq, Eq, Structural)]
pub struct Vector2i32 {
    pub x: i32,
    pub y: i32,
}

impl Vector2u32 {
    /// A vector whose two components are both `value`.
    pub fn new(value: u32) -> (r: Vector2u32)
        ensures
            r.x == value,
            r.y == value,
    {
        Vector2u32 { x: value, y: value }
    }
}

/// `a - b` clamped at zero.
pub open spec fn saturating_diff(a: u32, b: u32) -> u32 {
    if a >= b {
        (a - b) as u32
    } else {
        0
    }
}

impl std::ops::Add<Vector2u32> for Vector2u32 {
    type Output = Vector2u32;

    fn add(self, other: Vector2u32) -> (r: Vector2u32) {
        Vector2u32 { x: self.x + other.x, y: self.y + other.y }
    }
}

/// Componentwise sum; defined where neither component passes `u32::MAX`.
impl vstd::std_specs::ops::AddSpecImpl<Vector2u32> for Vector2u32 {
    open spec fn obeys_add_spec() -> bool {
        true
    }

    open spec fn add_req(self, other: Vector2u32) -> bool {
        self.x + other.x <= u32::MAX && self.y + other.y <= u32::MAX
    }

    open spec fn add_spec(self, other: Vector2u32) -> Vector2u32 {
        Vector2u32 { x: (self.x + other.x) as u32, y: (self.y + other.y) as u32 }
    }
}

impl std::ops::Sub<Vector2u32> for Vector2u32 {
    type Output = Vector2u32;

    fn sub(self, other: Vector2u32) -> (r: Vector2u32) {
        Vector2u32 {
            x: if self.x >= other.x { self.x - other.x } else { 0 },
            y: if self.y >= other.y { self.y - other.y } else { 0 },
        }
    }
}

/// Componentwise difference, each component clamped at zero.
impl vstd::std_specs::ops::SubSpecImpl<Vector2u32> for Vector2u32 {
    open spec fn obeys_sub_spec() -> bool {
        true
    }

    open spec fn sub_req(self, other: Vector2u32) -> bool {
        true
    }

    open spec fn sub_spec(self, other: Vector2u32) -> Vector2u32 {
        Vector2u32 { x: saturating_diff(self.x, other.x), y: saturating_diff(self.y, other.y) }
    }
}

} // verus!
