//! Alternative implementations of two hot functions, kept side by side to
//! compare their speed; each has the same contract as the function it
//! stands beside.
pub mod opt_fill_chunk_hashmap;
pub mod world_get_chunks_around_character;
