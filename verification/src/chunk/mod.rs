//! A chunk: the blocks of one column of the world, the subset of them that
//! is drawn, and the bookkeeping of the buffers its drawn blocks live in.
pub mod chunk_functions;
pub mod chunk_gpu_functions;
pub mod create_chunks;

use vstd::prelude::*;
use crate::block::Block;
use std::collections::HashMap;
use vstd::std_specs::iter::IteratorSpec;

verus! {

/// `list` holds the values of `m`, one for each key, in some order.
pub open spec fn lists_values(m: Map<u128, Block>, list: Seq<Block>) -> bool {
    exists|ks: Seq<u128>|
        {
            &&& ks.no_duplicates()
            &&& ks.to_set() == m.dom()
            &&& ks.len() == list.len()
            &&& forall|i: int| 0 <= i < ks.len() ==> #[trigger] list[i] == m[ks[i]]
        }
}

/// The values of a map of blocks, one for each key, in the map's own order.
pub fn map_values(m: &HashMap<u128, Block>) -> (list: Vec<Block>)
    ensures
        lists_values(m@, list@),
{
    broadcast use vstd::std_specs::hash::group_hash_axioms;

    let mut list: Vec<Block> = Vec::new();
    let ghost mut ks: Seq<u128> = Seq::empty();
    let ghost mut finished: bool = false;
    for k in it: m.keys()
        invariant
            it.seq().unref().to_set() == m@.dom(),
            it.seq().no_duplicates(),
            ks.len() == it.index(),
            forall|i: int| 0 <= i < ks.len() ==> #[trigger] ks[i] == *it.seq()[i],
            list@.len() == ks.len(),
            forall|i: int| 0 <= i < ks.len() ==> #[trigger] list@[i] == m@[ks[i]],
            finished ==> ks.len() == it.seq().len(),
    {
        proof {
            assert(it.seq().unref()[it.index()] == *k);
            assert(it.seq().unref().to_set().contains(*k));
            ks = ks.push(*k);
        }
        let b: Block = *m.get(k).unwrap();
        list.push(b);
    }
    list
}

/// Capacity, in blocks, of the instance buffers of a new chunk.
pub const INITIAL_INSTANCE_CAPACITY: u32 = 100;

/// The instance buffers grow by whole multiples of this many blocks.
pub const INSTANCE_CAPACITY_STEP: u32 = 100;

/// The blocks of one chunk and the bookkeeping of the buffers its drawn
/// blocks are uploaded to. Both maps are keyed by the key of the block's
/// position (see `keys`). The buffers themselves, and the flags that the
/// graphics queue raises while it writes them, belong to the renderer; the
/// methods here take the value of such a flag as an argument.
pub struct Chunk {
    /// Every block of the chunk that is not air.
    pub chunk_blocks: HashMap<u128, Block>,
    /// The blocks that touch air: those that are drawn.
    pub instances_to_render: HashMap<u128, Block>,
    /// Chunk id along x.
    pub chunk_id_x: i32,
    /// Chunk id along z.
    pub chunk_id_z: i32,
    /// Number of blocks that are not air.
    pub alive_blocks: u32,
    /// Capacity, in blocks, of the instance buffers in use.
    pub instance_capacity: u32,
    /// Capacity of the instance buffers being created.
    pub new_instance_capacity: u32,
    /// Number of blocks in the instance buffer (once updated, the size of
    /// `instances_to_render`).
    pub instance_size: u32,
    /// The staging buffer holds data not yet copied to the instance buffer.
    pub instances_modified: bool,
    /// Larger instance buffers are being created and filled.
    pub creating_new_instance_buffers: bool,
}

/// What the renderer has to do with a chunk's buffers this frame.
#[derive(Clone, Copy, Debug, PartialEq, Eq, Structural)]
pub enum ChunkBufferAction {
    /// Nothing.
    Nothing,
    /// Copy `instance_size` blocks from the staging buffer to the instance buffer.
    CopyStagingBuffer,
    /// Destroy the old buffers and put the newly created ones in their place.
    ReplaceBuffers,
}

/// The chunk after the instance buffer update of one frame: when the
/// staging buffer holds new data and is no longer being written, the data is
/// copied and the chunk no longer counts as modified.
pub open spec fn instance_buffer_updated(c: Chunk, staging_buffer_writing: bool) -> Chunk {
    if c.instances_modified && !staging_buffer_writing {
        Chunk { instances_modified: false, ..c }
    } else {
        c
    }
}

/// The chunk after its drawn blocks are written to the staging buffer; this
/// does not happen while new instance buffers are being written.
pub open spec fn staging_buffer_updated(c: Chunk, new_instance_buffers_writing: bool) -> Chunk {
    if new_instance_buffers_writing {
        c
    } else {
        Chunk { instances_modified: true, ..c }
    }
}

/// How much the instance buffers grow when `needed` more blocks than they
/// hold have to fit: the smallest whole number of steps, at least one, that
/// covers `needed`.
pub open spec fn capacity_growth(needed: int) -> int {
    if needed <= INSTANCE_CAPACITY_STEP {
        INSTANCE_CAPACITY_STEP as int
    } else {
        ((needed + INSTANCE_CAPACITY_STEP - 1) / INSTANCE_CAPACITY_STEP as int)
            * INSTANCE_CAPACITY_STEP
    }
}

/// The instance buffers can grow to hold all the chunk's drawn blocks
/// without the capacity overflowing `u32`.
pub open spec fn can_grow(c: Chunk) -> bool {
    &&& c.instance_capacity <= c.instance_size
    &&& c.instance_capacity + capacity_growth(c.instance_size - c.instance_capacity) <= u32::MAX
}

/// The chunk once the creation of larger instance buffers has started.
pub open spec fn capacity_grown(c: Chunk) -> Chunk {
    Chunk {
        creating_new_instance_buffers: true,
        new_instance_capacity: (c.instance_capacity + capacity_growth(
            c.instance_size - c.instance_capacity,
        )) as u32,
        ..c
    }
}

/// The chunk once the new instance buffers have replaced the old ones.
pub open spec fn buffers_replaced(c: Chunk) -> Chunk {
    Chunk {
        creating_new_instance_buffers: false,
        instance_capacity: c.new_instance_capacity,
        ..c
    }
}

/// The chunk after its update of one frame.
pub open spec fn chunk_updated(
    c: Chunk,
    new_instance_buffers_writing: bool,
    staging_buffer_writing: bool,
) -> Chunk {
    if c.creating_new_instance_buffers {
        if new_instance_buffers_writing {
            c
        } else {
            buffers_replaced(c)
        }
    } else {
        instance_buffer_updated(c, staging_buffer_writing)
    }
}

/// The action that goes with `chunk_updated`.
pub open spec fn chunk_update_action(
    c: Chunk,
    new_instance_buffers_writing: bool,
    staging_buffer_writing: bool,
) -> ChunkBufferAction {
    if c.creating_new_instance_buffers {
        if new_instance_buffers_writing {
            ChunkBufferAction::Nothing
        } else {
            ChunkBufferAction::ReplaceBuffers
        }
    } else if c.instances_modified && !staging_buffer_writing {
        ChunkBufferAction::CopyStagingBuffer
    } else {
        ChunkBufferAction::Nothing
    }
}

impl Chunk {
    /// A chunk with no blocks yet, so no block of it is alive. `num_blocks`
    /// is the number of blocks it is expected to hold (room is made for them
    /// in advance), or -1 when that is not known.
    pub fn new(idx: i32, idz: i32, num_blocks: i32) -> (c: Chunk)
        requires
            num_blocks >= -1,
        ensures
            c.chunk_blocks@ == Map::<u128, Block>::empty(),
            c.instances_to_render@ == Map::<u128, Block>::empty(),
            c.chunk_id_x == idx,
            c.chunk_id_z == idz,
            c.alive_blocks == c.chunk_blocks@.len(),
            c.alive_blocks == 0,
            c.instance_size == 0,
            c.instance_capacity == INITIAL_INSTANCE_CAPACITY,
            c.new_instance_capacity == INITIAL_INSTANCE_CAPACITY,
            !c.instances_modified,
            !c.creating_new_instance_buffers,
    {
        let chunk_blocks: HashMap<u128, Block>;
        if num_blocks != -1 {
            chunk_blocks = HashMap::with_capacity(num_blocks as usize);
        } else {
            chunk_blocks = HashMap::new();
        }
        Chunk {
            chunk_blocks,
            instances_to_render: HashMap::new(),
            chunk_id_x: idx,
            chunk_id_z: idz,
            alive_blocks: 0,
            instance_capacity: INITIAL_INSTANCE_CAPACITY,
            new_instance_capacity: INITIAL_INSTANCE_CAPACITY,
            instance_size: 0,
            instances_modified: false,
            creating_new_instance_buffers: false,
        }
    }

    pub fn get_instance_capacity(&self) -> (r: u32)
        ensures
            r == self.instance_capacity,
    {
        self.instance_capacity
    }

    pub fn get_instance_size(&self) -> (r: u32)
        ensures
            r == self.instance_size,
    {
        self.instance_size
    }
}

} // verus!
