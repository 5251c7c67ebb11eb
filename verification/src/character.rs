//! The part of the player that the world's logic reads: the chunk the
//! player stands in.
use vstd::prelude::*;

verus! {

/// The chunk the player stands in, and whether it changed since the chunks
/// around the player were last brought up to date. The player's position
/// and view direction are kept by the renderer, which works out the chunk
/// from the position.
pub struct Character {
    /// The id of the chunk the player stands in.
    pub chunk_position: (i32, i32),
    /// The player entered another chunk.
    pub chunk_changed: bool,
}

impl Character {
    /// A player in chunk (0, 0); the chunk counts as changed so that the
    /// chunks around the player are loaded at the start.
    pub fn new() -> (c: Character)
        ensures
            c.chunk_position == (0i32, 0i32),
            c.chunk_changed,
    {
        Character { chunk_position: (0, 0), chunk_changed: true }
    }

    /// Records the chunk the player now stands in; when it differs from
    /// the one recorded, the chunk counts as changed.
    pub fn update_chunk_position(&mut self, new_chunk_x: i32, new_chunk_z: i32)
        ensures
            (new_chunk_x, new_chunk_z) != old(self).chunk_position ==> final(self).chunk_position == (
            new_chunk_x,
            new_chunk_z,
            ) && final(self).chunk_changed,
            (new_chunk_x, new_chunk_z) == old(self).chunk_position ==> *final(self) == *old(self),
    {
        if new_chunk_x != self.chunk_position.0 || new_chunk_z != self.chunk_position.1 {
            self.chunk_position = (new_chunk_x, new_chunk_z);
            self.chunk_changed = true;
        }
    }

    /// The id of the chunk the player stands in.
    pub fn get_current_chunk(&self) -> (id: (i32, i32))
        ensures
            id == self.chunk_position,
    {
        self.chunk_position
    }
}

} // verus!
