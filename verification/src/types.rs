use vstd::prelude::*;

verus! {

/// The integer position of a block: the bottom left front corner of its cube.
#[derive(Clone, Copy, Debug, PartialEq, Eq, Structural)]
pub struct Position {
    pub x: i32,
    pub y: i16,
    pub z: i32,
}

impl Position {
    pub fn new(x: i32, y: i16, z: i32) -> (p: Position)
        ensures
            p == (Position { x, y, z }),
    {
        Position { x, y, z }
    }
}

} // verus!
