use vstd::prelude::*;
use crate::block_type::BlockType;
use crate::types::Position;

verus! {

/// Everything known about one block cell. The transform that places the
/// block in the world is the translation by its position.
#[derive(Clone, Copy, Debug, PartialEq, Eq, Structural)]
pub struct Block {
    /// What kind of block it is.
    pub block_type: BlockType,
    /// Its bottom left front corner.
    pub position: Position,
    /// Whether one of its faces touches air, so that it has to be drawn.
    pub touching_air: bool,
}

impl Block {
    pub fn new(block_type: BlockType, pos_x: i32, pos_y: i16, pos_z: i32) -> (b: Block)
        ensures
            b == (Block {
                block_type,
                position: Position { x: pos_x, y: pos_y, z: pos_z },
                touching_air: false,
            }),
    {
        Block {
            block_type,
            position: Position { x: pos_x, y: pos_y, z: pos_z },
            touching_air: false,
        }
    }
}

} // verus!
