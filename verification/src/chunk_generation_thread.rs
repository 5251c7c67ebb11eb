//! The work of the thread that creates chunks: a chunk taken from the
//! loading queue is loaded and its drawn blocks uploaded; each frame its
//! buffers are brought up to date until the drawn blocks are in place;
//! then it replaces the chunk it was paired with.
use vstd::prelude::*;
use std::collections::HashSet;
use crate::block::Block;
use crate::chunk::{
    Chunk, ChunkBufferAction, INITIAL_INSTANCE_CAPACITY, capacity_grown, can_grow,
    capacity_growth, lists_values, staging_buffer_updated, chunk_updated, chunk_update_action,
};
use crate::chunk::chunk_gpu_functions::{InstanceUpload, cell_count, capacity_growth_bound, in_chunk};
use crate::chunk::chunk_functions::{
    loadable_sizes, LoadChunkError, grid_has_sizes, cell, loaded_cell, saved_cells, add_blocks,
    grid_blocks,
};
use crate::file_system::FileSystem;
use crate::world::id_key;

verus! {

/// A chunk being generated.
pub struct ChunkGenerationData {
    /// The chunk itself.
    pub chunk: Chunk,
    /// The chunk it replaces once it is finished, if any.
    pub unload_chunk_ids: Option<(i32, i32)>,
    /// Its blocks are in its maps.
    pub temp_chunk_vector_finished: bool,
}

/// A chunk being generated is finished when its drawn blocks are in its
/// instance buffer: no copy from the staging buffer is pending and no new
/// buffers are being created.
pub open spec fn generation_finished(c: Chunk) -> bool {
    !c.instances_modified && !c.creating_new_instance_buffers
}

/// Starts generating the chunk `load_chunk_ids`, taken from the loading
/// queue with `unload_chunk_ids`, the chunk it replaces: a new chunk is
/// loaded (from `saved_text` when it was created before) and its drawn
/// blocks are handed out for upload.
pub fn start_chunk_generation(
    load_chunk_ids: (i32, i32),
    unload_chunk_ids: Option<(i32, i32)>,
    file_system: &FileSystem,
    created_chunks: &mut HashSet<u64>,
    chunk_sizes: (usize, usize, usize),
    saved_text: Option<&Vec<u8>>,
) -> (r: Result<(ChunkGenerationData, InstanceUpload), LoadChunkError>)
    requires
        loadable_sizes(load_chunk_ids, chunk_sizes),
        cell_count(chunk_sizes) + 2 * INITIAL_INSTANCE_CAPACITY <= u32::MAX,
        !old(created_chunks)@.contains(id_key(load_chunk_ids)) ==> chunk_sizes.1 / 2 >= 3,
    ensures
        r is Err <==> old(created_chunks)@.contains(id_key(load_chunk_ids)) && (saved_text is None
            || crate::chunk_file::chunk_read(saved_text->Some_0@, chunk_sizes).failed),
        r is Err ==> final(created_chunks)@ == old(created_chunks)@,
        r is Ok ==> final(created_chunks)@ == old(created_chunks)@.insert(id_key(load_chunk_ids)),
        r matches Ok((data, upload)) ==> {
            &&& data.chunk.chunk_id_x == load_chunk_ids.0
            &&& data.chunk.chunk_id_z == load_chunk_ids.1
            &&& data.unload_chunk_ids == unload_chunk_ids
            &&& data.temp_chunk_vector_finished
            &&& data.chunk.instance_size == data.chunk.instances_to_render@.len()
            &&& data.chunk.alive_blocks == data.chunk.chunk_blocks@.len()
            &&& (upload is NewBuffers <==> data.chunk.instance_size > INITIAL_INSTANCE_CAPACITY)
            &&& (upload is NewBuffers ==> data.chunk.creating_new_instance_buffers
                && !data.chunk.instances_modified)
            &&& (upload is Staging ==> data.chunk.instances_modified
                && !data.chunk.creating_new_instance_buffers)
            &&& data.chunk.instance_capacity == INITIAL_INSTANCE_CAPACITY
            &&& (upload is NewBuffers ==> data.chunk.new_instance_capacity == INITIAL_INSTANCE_CAPACITY
                + capacity_growth(data.chunk.instance_size - INITIAL_INSTANCE_CAPACITY))
            &&& (upload is Staging ==> data.chunk.new_instance_capacity == INITIAL_INSTANCE_CAPACITY)
            &&& exists|g: Seq<Vec<Vec<Block>>>|
                {
                    &&& grid_has_sizes(g, chunk_sizes)
                    &&& forall|x: int, y: int, z: int|
                        in_chunk(chunk_sizes, x, y, z) ==> #[trigger] cell(g, x, y, z) == loaded_cell(
                            load_chunk_ids,
                            old(created_chunks)@.contains(id_key(load_chunk_ids)),
                            saved_cells(saved_text, chunk_sizes),
                            chunk_sizes,
                            x,
                            y,
                            z,
                        )
                    &&& data.chunk.chunk_blocks@ == add_blocks(Map::empty(), grid_blocks(g), false)
                    &&& data.chunk.instances_to_render@ == add_blocks(Map::empty(), grid_blocks(g), true)
                }
            &&& (upload matches InstanceUpload::NewBuffers(list) ==> lists_values(
                data.chunk.instances_to_render@,
                list@,
            ))
            &&& (upload matches InstanceUpload::Staging(o) ==> o is Some)
            &&& (upload matches InstanceUpload::Staging(Some(list)) ==> lists_values(
                data.chunk.instances_to_render@,
                list@,
            ))
        },
{
    let mut new_chunk: Chunk = Chunk::new(load_chunk_ids.0, load_chunk_ids.1, -1);
    match new_chunk.load_chunk(file_system, chunk_sizes, created_chunks, saved_text) {
        Ok(()) => {},
        Err(e) => {
            return Err(e);
        },
    }
    proof {
        assert(new_chunk.instances_to_render@.len() <= cell_count(chunk_sizes));
        assert(new_chunk.instance_size == new_chunk.instances_to_render@.len());
        assert(new_chunk.chunk_blocks@.len() <= cell_count(chunk_sizes));
        if new_chunk.instance_size > new_chunk.instance_capacity {
            capacity_growth_bound(new_chunk.instance_size - new_chunk.instance_capacity);
        }
    }
    let upload: InstanceUpload = new_chunk.upload_instances(false);
    let data = ChunkGenerationData { chunk: new_chunk, unload_chunk_ids, temp_chunk_vector_finished: true };
    Ok((data, upload))
}

/// Whether a chunk with these ids and dimensions can be generated as
/// `start_chunk_generation` requires: its cells' positions and count fit
/// the integer types, and, for a chunk never created, the terrain's layers
/// fit below half its height.
pub fn can_start_generation(
    load_chunk_ids: (i32, i32),
    created_before: bool,
    chunk_sizes: (usize, usize, usize),
) -> (ok: bool)
    ensures
        ok == (loadable_sizes(load_chunk_ids, chunk_sizes) && cell_count(chunk_sizes) + 2
            * INITIAL_INSTANCE_CAPACITY <= u32::MAX && (!created_before ==> chunk_sizes.1 / 2 >= 3)),
{
    let sx = chunk_sizes.0;
    let sy = chunk_sizes.1;
    let sz = chunk_sizes.2;
    if sx > 0x7fff_ffff || sy > 0x7fff || sz > 0x7fff_ffff {
        return false;
    }
    proof {
        assert(-0x8000_0000 * 0x7fff_ffff <= load_chunk_ids.0 * sx <= 0x7fff_ffff * 0x7fff_ffff) by (nonlinear_arith)
            requires
                -0x8000_0000 <= load_chunk_ids.0 <= 0x7fff_ffff,
                0 <= sx <= 0x7fff_ffff,
        ;
        assert(-0x8000_0000 * 0x7fff_ffff <= load_chunk_ids.1 * sz <= 0x7fff_ffff * 0x7fff_ffff) by (nonlinear_arith)
            requires
                -0x8000_0000 <= load_chunk_ids.1 <= 0x7fff_ffff,
                0 <= sz <= 0x7fff_ffff,
        ;
        assert(sx * sy <= 0x7fff_ffff * 0x7fff) by (nonlinear_arith)
            requires
                sx <= 0x7fff_ffff,
                sy <= 0x7fff,
        ;
    }
    let min_x: i64 = load_chunk_ids.0 as i64 * sx as i64;
    let min_z: i64 = load_chunk_ids.1 as i64 * sz as i64;
    if min_x < -0x8000_0000 || min_x + sx as i64 > 0x8000_0000 || min_z < -0x8000_0000 || min_z + sz as i64
        > 0x8000_0000 {
        return false;
    }
    let sxy: u64 = sx as u64 * sy as u64;
    if sxy > usize::MAX as u64 {
        return false;
    }
    let count: u64 = if sz == 0 {
        0
    } else if sxy > 0xffff_ffff {
        proof {
            assert(sx * sy * sz > u32::MAX) by (nonlinear_arith)
                requires
                    sx * sy > 0xffff_ffff,
                    sz >= 1,
            ;
        }
        return false;
    } else {
        proof {
            assert(sxy * sz <= 0xffff_ffff * 0x7fff_ffff) by (nonlinear_arith)
                requires
                    sxy <= 0xffff_ffff,
                    sz <= 0x7fff_ffff,
            ;
        }
        sxy * sz as u64
    };
    proof {
        assert(cell_count(chunk_sizes) == count) by (nonlinear_arith)
            requires
                sz == 0 ==> count == 0,
                sz != 0 ==> count == sxy * sz,
                sxy == sx * sy,
                cell_count(chunk_sizes) == sx * sy * sz,
        ;
    }
    if count + 200 > 0xffff_ffff {
        return false;
    }
    if !created_before && sy / 2 < 3 {
        return false;
    }
    true
}

/// One frame of work on a chunk being generated: its buffers are brought
/// up to date; says what the renderer has to do, and whether the chunk is
/// now finished.
pub fn continue_generating_chunk(
    data: &mut ChunkGenerationData,
    new_instance_buffers_writing: bool,
    staging_buffer_writing: bool,
) -> (r: (ChunkBufferAction, bool))
    ensures
        final(data).chunk == chunk_updated(old(data).chunk, new_instance_buffers_writing, staging_buffer_writing),
        r.0 == chunk_update_action(old(data).chunk, new_instance_buffers_writing, staging_buffer_writing),
        r.1 == generation_finished(final(data).chunk),
        r.1 == (!final(data).chunk.instances_modified && !final(data).chunk.creating_new_instance_buffers),
        old(data).chunk.creating_new_instance_buffers && new_instance_buffers_writing ==> {
            &&& final(data).chunk == old(data).chunk
            &&& r.0 == ChunkBufferAction::Nothing
            &&& !r.1
        },
        old(data).chunk.creating_new_instance_buffers && !new_instance_buffers_writing ==> {
            &&& final(data).chunk == (Chunk {
                creating_new_instance_buffers: false,
                instance_capacity: old(data).chunk.new_instance_capacity,
                ..old(data).chunk
            })
            &&& r.0 == ChunkBufferAction::ReplaceBuffers
        },
        !old(data).chunk.creating_new_instance_buffers && old(data).chunk.instances_modified
            && !staging_buffer_writing ==> {
            &&& final(data).chunk == (Chunk { instances_modified: false, ..old(data).chunk })
            &&& r.0 == ChunkBufferAction::CopyStagingBuffer
            &&& r.1
        },
        !old(data).chunk.creating_new_instance_buffers && !(old(data).chunk.instances_modified
            && !staging_buffer_writing) ==> {
            &&& final(data).chunk == old(data).chunk
            &&& r.0 == ChunkBufferAction::Nothing
        },
        final(data).unload_chunk_ids == old(data).unload_chunk_ids,
        final(data).temp_chunk_vector_finished == old(data).temp_chunk_vector_finished,
{
    let action = data.chunk.update(new_instance_buffers_writing, staging_buffer_writing);
    let finished: bool = !data.chunk.instances_modified && !data.chunk.creating_new_instance_buffers;
    (action, finished)
}

/// A chunk being generated whose new instance buffers are still being
/// written waits for them: a frame leaves it as it is, asks nothing of the
/// renderer, and it is not finished, whatever the staging buffer does.
pub proof fn generation_waits_for_new_buffers(c: Chunk, staging_buffer_writing: bool)
    requires
        c.creating_new_instance_buffers,
    ensures
        chunk_updated(c, true, staging_buffer_writing) == c,
        chunk_update_action(c, true, staging_buffer_writing) == ChunkBufferAction::Nothing,
        !generation_finished(chunk_updated(c, true, staging_buffer_writing)),
{
}

/// A chunk being generated is finished exactly when no copy from the
/// staging buffer is pending and no new instance buffers are being created.
pub proof fn finished_means_buffers_in_place(c: Chunk)
    ensures
        generation_finished(c) <==> !c.instances_modified && !c.creating_new_instance_buffers,
{
}

/// A chunk whose drawn blocks were just handed out is finished after the
/// first frame in which the graphics queue is not writing its buffers,
/// whichever way the blocks were uploaded.
pub proof fn generation_finishes(c: Chunk)
    requires
        !c.instances_modified,
        !c.creating_new_instance_buffers,
        c.instance_size > c.instance_capacity ==> can_grow(c),
    ensures
        c.instance_size > c.instance_capacity ==> generation_finished(chunk_updated(capacity_grown(c), false, false)),
        c.instance_size <= c.instance_capacity ==> generation_finished(
            chunk_updated(staging_buffer_updated(c, false), false, false),
        ),
{
}

} // verus!
