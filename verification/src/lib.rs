//! Block, chunk and world logic of a voxel engine: block kinds and their
//! numeric ids, chunk coordinates, chunk terrain generation, the maps of
//! blocks a chunk keeps, the chunk buffer state machine, the set of chunks
//! around the player, and the text formats that chunks are saved in.
#![allow(non_snake_case)]

pub mod settings;
pub mod types;
pub mod block_type;
pub mod block;
pub mod keys;
pub mod chunk;
pub mod character;
pub mod world;
pub mod optimisations;
pub mod text;
pub mod chunk_file;
pub mod file_system;
pub mod chunk_generation_thread;
pub mod main_game_loop;
