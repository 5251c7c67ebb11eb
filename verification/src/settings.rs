//! Fixed settings of the game world.
use vstd::prelude::*;

verus! {

/// Chunk width along x used by the fixed-size coordinate functions.
pub const CHUNK_SIZE_X: usize = 32;

/// Chunk height along y used by the fixed-size coordinate functions.
pub const CHUNK_SIZE_Y: usize = 256;

/// Chunk depth along z used by the fixed-size coordinate functions.
pub const CHUNK_SIZE_Z: usize = 32;

/// Radius, in chunks, of the diamond of chunks kept around the player.
pub const RENDER_DISTANCE: usize = 1;

/// Seed of the world that is loaded.
pub const WORLD_SEED: u64 = 1;

/// Window width in pixels.
pub const SCREEN_WIDTH: usize = 1920;

/// Window height in pixels.
pub const SCREEN_HEIGHT: usize = 1080;

} // verus!
