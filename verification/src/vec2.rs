use vstd::prelude::*;
use crate::num::BOUND;

verus! {

/// A two-component vector in thousandths of a world unit.
#[derive(Clone, Copy, PartialEq, Eq, Structural, Debug)]
pub struct Vec2 {
    pub x: i64,
    pub y: i64,
}

/// The mathematical value of a [`Vec2`]: the same two components as
/// unbounded integers.
#[verifier::ext_equal]
pub struct Vec2Model {
    pub x: int,
    pub y: int,
}

impl Vec2Model {
    /// Both components lie in the stored range.
    pub open spec fn in_range(self) -> bool {
        &&& -(BOUND as int) <= self.x <= BOUND as int
        &&& -(BOUND as int) <= self.y <= BOUND as int
    }
}

impl View for Vec2 {
    type V = Vec2Model;

    open spec fn view(&self) -> Vec2Model {
        Vec2Model { x: self.x as int, y: self.y as int }
    }
}

impl Vec2 {
    pub fn new(x: i64, y: i64) -> (v: Vec2)
        ensures
            v@ == (Vec2Model { x: x as int, y: y as int }),
    {
        Vec2 { x, y }
    }
}

} // verus!
