use std::collections::HashSet;
use rust_craft::{
    block::Block,
    block_type::BlockType,
    chunk::{Chunk, ChunkBufferAction},
    chunk::chunk_gpu_functions::InstanceUpload,
    chunk::chunk_functions::LoadChunkError,
    chunk_generation_thread::{start_chunk_generation, continue_generating_chunk},
    file_system::FileSystem,
    keys::{chunk_key_of, position_key_of},
};

fn chunk_with_drawn_blocks(n: usize) -> Chunk {
    let mut chunk = Chunk::new(0, 0, -1);
    for i in 0..n {
        let b = Block::new(BlockType::Stone, i as i32, 0, 0);
        chunk.instances_to_render.insert(position_key_of(&b.position), b);
    }
    chunk.instance_size = n as u32;
    chunk
}

#[test]
fn new_chunk_counts() {
    let c = Chunk::new(3, -4, 17);
    assert_eq!(c.alive_blocks, 0);
    assert!(c.chunk_blocks.is_empty() && c.instances_to_render.is_empty());
    assert_eq!(c.get_instance_capacity(), 100);
    assert_eq!(c.get_instance_size(), 0);
    assert_eq!((c.chunk_id_x, c.chunk_id_z), (3, -4));
    let c = Chunk::new(0, 0, -1);
    assert_eq!(c.alive_blocks, 0);
    assert!(!c.instances_modified && !c.creating_new_instance_buffers);
}

#[test]
fn capacity_grows_by_whole_steps() {
    // (drawn blocks, capacity after growing)
    for (n, expected) in [(100usize, 200u32), (101, 200), (200, 200), (201, 300), (350, 400), (1000, 1000)] {
        let mut chunk = chunk_with_drawn_blocks(n);
        let upload = chunk.update_instance_buffers_capacity();
        assert_eq!(upload.len(), n);
        assert!(chunk.creating_new_instance_buffers);
        assert_eq!(chunk.new_instance_capacity, expected);
        assert_eq!(chunk.instance_capacity, 100);
        chunk.overwrite_old_instance_buffers();
        assert_eq!(chunk.instance_capacity, expected);
        assert!(!chunk.creating_new_instance_buffers);
    }
}

#[test]
fn staging_buffer_then_copy() {
    let mut chunk = chunk_with_drawn_blocks(3);
    // while new buffers are written nothing is staged
    assert!(chunk.update_instance_staging_buffer(true).is_none());
    assert!(!chunk.instances_modified);
    let staged = chunk.update_instance_staging_buffer(false).unwrap();
    assert_eq!(staged.len(), 3);
    assert!(chunk.instances_modified);
    // the copy waits for the staging write
    assert_eq!(chunk.update(false, true), ChunkBufferAction::Nothing);
    assert!(chunk.instances_modified);
    assert_eq!(chunk.update(false, false), ChunkBufferAction::CopyStagingBuffer);
    assert!(!chunk.instances_modified);
    assert_eq!(chunk.update(false, false), ChunkBufferAction::Nothing);
    assert!(!chunk.update_instance_buffer(false));
}

#[test]
fn new_buffers_replace_old_once_written() {
    let mut chunk = chunk_with_drawn_blocks(150);
    match chunk.upload_instances(false) {
        InstanceUpload::NewBuffers(list) => assert_eq!(list.len(), 150),
        InstanceUpload::Staging(_) => panic!("expected new buffers"),
    }
    assert_eq!(chunk.update(true, false), ChunkBufferAction::Nothing);
    assert!(chunk.creating_new_instance_buffers);
    assert_eq!(chunk.update(false, false), ChunkBufferAction::ReplaceBuffers);
    assert_eq!(chunk.instance_capacity, 200);
    assert!(!chunk.creating_new_instance_buffers);

    let mut small = chunk_with_drawn_blocks(10);
    match small.upload_instances(false) {
        InstanceUpload::Staging(Some(list)) => assert_eq!(list.len(), 10),
        _ => panic!("expected staging"),
    }
}

#[test]
fn load_new_chunk_generates_terrain() {
    let chunk_sizes = (8usize, 16usize, 8usize);
    let file_system = FileSystem::new();
    let mut created: HashSet<u64> = HashSet::new();
    let mut chunk = Chunk::new(1, -1, -1);
    assert_eq!(chunk.load_chunk(&file_system, chunk_sizes, &mut created, None), Ok(()));
    assert!(created.contains(&chunk_key_of((1, -1))));
    // bedrock, 4 stone, 2 dirt, 1 grass layers: 8 layers of 64 cells
    assert_eq!(chunk.chunk_blocks.len(), 8 * 64);
    assert_eq!(chunk.alive_blocks, 512);
    // the top (grass) layer touches the air above; the walls of the chunk do not count
    assert_eq!(chunk.instances_to_render.len(), 64);
    assert_eq!(chunk.instance_size, 64);
    for b in chunk.instances_to_render.values() {
        assert_eq!(b.block_type, BlockType::Grass);
        assert_eq!(b.position.y, -1);
        assert!(b.touching_air);
    }
    let b = chunk.chunk_blocks.get(&position_key_of(&rust_craft::types::Position::new(8, -8, -8))).unwrap();
    assert_eq!(b.block_type, BlockType::Bedrock);
}

#[test]
fn load_saved_chunk() {
    let chunk_sizes = (2usize, 2usize, 2usize);
    let file_system = FileSystem::new();
    let mut created: HashSet<u64> = HashSet::new();
    created.insert(chunk_key_of((0, 0)));
    let mut chunk = Chunk::new(0, 0, -1);
    // created before, but no saved text
    assert_eq!(chunk.load_chunk(&file_system, chunk_sizes, &mut created, None), Err(LoadChunkError::MissingFile));
    let bad = b"1 1 1\n".to_vec();
    assert_eq!(chunk.load_chunk(&file_system, chunk_sizes, &mut created, Some(&bad)), Err(LoadChunkError::Malformed));
    assert!(chunk.chunk_blocks.is_empty());
    let saved = b"400 400 \n400 400 \n\n0 0 \n0 401 \n\n".to_vec();
    assert_eq!(chunk.load_chunk(&file_system, chunk_sizes, &mut created, Some(&saved)), Ok(()));
    assert_eq!(chunk.chunk_blocks.len(), 5);
    // the stone blocks below the air touch it; the cobblestone too
    assert_eq!(chunk.instances_to_render.len(), 4);
    assert_eq!(created.len(), 1);
}

#[test]
fn chunk_generation_steps() {
    let chunk_sizes = (8usize, 16usize, 8usize);
    let file_system = FileSystem::new();
    let mut created: HashSet<u64> = HashSet::new();
    let (mut data, upload) = start_chunk_generation((2, 2), Some((5, 5)), &file_system, &mut created, chunk_sizes, None).unwrap();
    assert_eq!(data.unload_chunk_ids, Some((5, 5)));
    assert!(data.temp_chunk_vector_finished);
    match upload {
        InstanceUpload::Staging(Some(list)) => {
            assert_eq!(list.len(), 64);
            for b in list.iter() {
                assert_eq!(data.chunk.instances_to_render.get(&position_key_of(&b.position)), Some(b));
            }
        },
        _ => panic!("expected staging"),
    }
    // a new chunk: the ground below half the height; its top layer is drawn
    assert_eq!(data.chunk.chunk_blocks.len(), 8 * 8 * 8);
    assert_eq!(data.chunk.alive_blocks, 8 * 8 * 8);
    assert_eq!(data.chunk.instance_capacity, 100);
    assert!(data.chunk.chunk_blocks.values().all(|b| b.position.x >= 16 && b.position.x < 24 && b.position.z >= 16 && b.position.z < 24));
    assert_eq!(continue_generating_chunk(&mut data, false, true), (ChunkBufferAction::Nothing, false));
    assert_eq!(continue_generating_chunk(&mut data, false, false), (ChunkBufferAction::CopyStagingBuffer, true));

    let mut created2: HashSet<u64> = HashSet::new();
    created2.insert(chunk_key_of((2, 2)));
    assert!(start_chunk_generation((2, 2), None, &file_system, &mut created2, chunk_sizes, None).is_err());
}
