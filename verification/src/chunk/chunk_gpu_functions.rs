//! The buffer bookkeeping of a chunk: when its drawn blocks are uploaded,
//! when the staging buffer is copied, and how the instance buffers grow.
use vstd::prelude::*;
use crate::block::Block;
use crate::block_type::{BlockType, block_id};
use crate::chunk::chunk_functions::{grid_has_sizes, cell};
use crate::keys::lemma_digits_unique;
use crate::chunk::{
    Chunk, ChunkBufferAction, map_values, lists_values, instance_buffer_updated,
    staging_buffer_updated, capacity_growth, can_grow, capacity_grown, buffers_replaced,
    chunk_updated, chunk_update_action, INSTANCE_CAPACITY_STEP,
};

verus! {

/// How the drawn blocks of a freshly filled chunk are handed to the
/// renderer.
pub enum InstanceUpload {
    /// The instance buffers are too small: create larger ones, holding
    /// these blocks.
    NewBuffers(Vec<Block>),
    /// Write these blocks to the staging buffer; `None` while new instance
    /// buffers are being written.
    Staging(Option<Vec<Block>>),
}

impl Chunk {
    /// Once a chunk's maps are filled: grows its instance buffers when its
    /// drawn blocks no longer fit them, and otherwise writes the drawn
    /// blocks to the staging buffer.
    pub fn upload_instances(&mut self, new_instance_buffers_writing: bool) -> (upload: InstanceUpload)
        requires
            old(self).instance_size > old(self).instance_capacity ==> can_grow(*old(self)),
        ensures
            old(self).instance_size > old(self).instance_capacity ==> {
                &&& *final(self) == capacity_grown(*old(self))
                &&& upload matches InstanceUpload::NewBuffers(list) && lists_values(
                    old(self).instances_to_render@,
                    list@,
                )
            },
            old(self).instance_size <= old(self).instance_capacity ==> {
                &&& *final(self) == staging_buffer_updated(*old(self), new_instance_buffers_writing)
                &&& upload matches InstanceUpload::Staging(o) && (o is None <==> new_instance_buffers_writing)
                    && (o matches Some(list) ==> lists_values(old(self).instances_to_render@, list@))
            },
    {
        if self.instance_size > self.instance_capacity {
            InstanceUpload::NewBuffers(self.update_instance_buffers_capacity())
        } else {
            InstanceUpload::Staging(self.update_instance_staging_buffer(new_instance_buffers_writing))
        }
    }

    /// Called once a frame: when the staging buffer holds new data and is
    /// no longer being written, says to copy it to the instance buffer
    /// (`true`) and marks the chunk as no longer modified.
    pub fn update_instance_buffer(&mut self, staging_buffer_writing: bool) -> (copy: bool)
        ensures
            copy == (old(self).instances_modified && !staging_buffer_writing),
            *final(self) == instance_buffer_updated(*old(self), staging_buffer_writing),
    {
        if self.instances_modified && !staging_buffer_writing {
            self.instances_modified = false;
            true
        } else {
            false
        }
    }

    /// Unless new instance buffers are being written, hands out the drawn
    /// blocks to write to the staging buffer and marks the chunk as
    /// modified; the renderer raises the staging flag until the write is done.
    pub fn update_instance_staging_buffer(&mut self, new_instance_buffers_writing: bool) -> (upload:
        Option<Vec<Block>>)
        ensures
            *final(self) == staging_buffer_updated(*old(self), new_instance_buffers_writing),
            new_instance_buffers_writing ==> upload is None,
            !new_instance_buffers_writing ==> upload is Some && lists_values(
                old(self).instances_to_render@,
                upload->Some_0@,
            ),
    {
        if new_instance_buffers_writing {
            None
        } else {
            let instances: Vec<Block> = map_values(&self.instances_to_render);
            self.instances_modified = true;
            Some(instances)
        }
    }

    /// Called when the drawn blocks no longer fit the instance buffers:
    /// starts the creation of larger ones, grown by the smallest whole
    /// number of steps that makes them fit, and hands out the drawn blocks
    /// to write into the new instance buffer.
    pub fn update_instance_buffers_capacity(&mut self) -> (upload: Vec<Block>)
        requires
            can_grow(*old(self)),
        ensures
            *final(self) == capacity_grown(*old(self)),
            lists_values(old(self).instances_to_render@, upload@),
    {
        let amount_needed: u32 = self.instance_size - self.instance_capacity;
        let mut capacity_increase_amount: u32 = INSTANCE_CAPACITY_STEP;
        let ghost mut k: int = 1;
        proof {
            lemma_growth_bounds(amount_needed as int);
        }
        while amount_needed > capacity_increase_amount
            invariant
                k >= 1,
                capacity_increase_amount == 100 * k,
                k == 1 || 100 * (k - 1) < amount_needed,
                capacity_increase_amount <= capacity_growth(amount_needed as int),
                capacity_growth(amount_needed as int) <= u32::MAX,
            decreases capacity_growth(amount_needed as int) - capacity_increase_amount,
        {
            proof {
                lemma_growth_step(amount_needed as int, k);
            }
            capacity_increase_amount = capacity_increase_amount + INSTANCE_CAPACITY_STEP;
            proof {
                k = k + 1;
            }
        }
        proof {
            lemma_growth_exact(amount_needed as int, k);
        }
        self.creating_new_instance_buffers = true;
        self.new_instance_capacity = self.instance_capacity + capacity_increase_amount;
        map_values(&self.instances_to_render)
    }

    /// Once the new instance buffers have been written, they replace the
    /// old ones and their capacity becomes the chunk's capacity.
    pub fn overwrite_old_instance_buffers(&mut self)
        ensures
            *final(self) == buffers_replaced(*old(self)),
    {
        self.creating_new_instance_buffers = false;
        self.instance_capacity = self.new_instance_capacity;
    }

    /// The update of one frame: while new buffers are being created, they
    /// replace the old ones as soon as they are written; otherwise the
    /// staging buffer is copied when it holds new data.
    pub fn update(&mut self, new_instance_buffers_writing: bool, staging_buffer_writing: bool) -> (action:
        ChunkBufferAction)
        ensures
            *final(self) == chunk_updated(
                *old(self),
                new_instance_buffers_writing,
                staging_buffer_writing,
            ),
            action == chunk_update_action(
                *old(self),
                new_instance_buffers_writing,
                staging_buffer_writing,
            ),
    {
        if self.creating_new_instance_buffers {
            if !new_instance_buffers_writing {
                self.overwrite_old_instance_buffers();
                ChunkBufferAction::ReplaceBuffers
            } else {
                ChunkBufferAction::Nothing
            }
        } else {
            if self.update_instance_buffer(staging_buffer_writing) {
                ChunkBufferAction::CopyStagingBuffer
            } else {
                ChunkBufferAction::Nothing
            }
        }
    }
}

proof fn lemma_growth_bounds(needed: int)
    requires
        needed >= 0,
    ensures
        100 <= capacity_growth(needed),
        needed <= capacity_growth(needed),
        capacity_growth(needed) <= needed + 100,
        capacity_growth(needed) % 100 == 0,
{
    if needed > 100 {
        let q = (needed + 99) / 100;
        assert(100 * q <= needed + 99 < 100 * q + 100) by (nonlinear_arith)
            requires
                q == (needed + 99) / 100,
                needed > 100,
        ;
        assert((q * 100) % 100 == 0) by (nonlinear_arith);
        assert(q >= 1) by (nonlinear_arith)
            requires
                100 * q <= needed + 99 < 100 * q + 100,
                needed > 100,
        ;
    }
}

proof fn lemma_growth_step(needed: int, k: int)
    requires
        needed >= 0,
        k >= 1,
        100 * k < needed,
    ensures
        100 * k + 100 <= capacity_growth(needed),
{
    lemma_growth_bounds(needed);
    let q = (needed + 99) / 100;
    assert(100 * q <= needed + 99 < 100 * q + 100) by (nonlinear_arith)
        requires
            q == (needed + 99) / 100,
            needed >= 0,
    ;
    assert(k + 1 <= q) by (nonlinear_arith)
        requires
            100 * k < needed,
            needed + 99 < 100 * q + 100,
    ;
    assert(100 * k + 100 <= q * 100) by (nonlinear_arith)
        requires
            k + 1 <= q,
    ;
}

proof fn lemma_growth_exact(needed: int, k: int)
    requires
        needed >= 0,
        k >= 1,
        k == 1 || 100 * (k - 1) < needed,
        needed <= 100 * k,
    ensures
        100 * k == capacity_growth(needed),
{
    if needed <= 100 {
        assert(k == 1) by (nonlinear_arith)
            requires
                k >= 1,
                k == 1 || 100 * (k - 1) < needed,
                needed <= 100,
        ;
    } else {
        assert(k >= 2) by (nonlinear_arith)
            requires
                needed <= 100 * k,
                needed > 100,
        ;
        let q = (needed + 99) / 100;
        assert(100 * q <= needed + 99 < 100 * q + 100) by (nonlinear_arith)
            requires
                q == (needed + 99) / 100,
                needed >= 0,
        ;
        assert(q == k) by (nonlinear_arith)
            requires
                100 * (k - 1) < needed,
                needed <= 100 * k,
                100 * q <= needed + 99 < 100 * q + 100,
        ;
        assert(q * 100 == 100 * k) by (nonlinear_arith)
            requires
                q == k,
        ;
    }
}

/// The number of cells of a chunk.
pub open spec fn cell_count(chunk_sizes: (usize, usize, usize)) -> int {
    chunk_sizes.0 * chunk_sizes.1 * chunk_sizes.2
}

/// Cell `(x, y, z)` lies inside a chunk of these dimensions.
pub open spec fn in_chunk(chunk_sizes: (usize, usize, usize), x: int, y: int, z: int) -> bool {
    0 <= x < chunk_sizes.0 && 0 <= y < chunk_sizes.1 && 0 <= z < chunk_sizes.2
}

/// Where cell `(x, y, z)` stands in the flat arrays that the air check
/// works on: `x` runs fastest, then `y`, then `z`.
pub open spec fn flat_index(chunk_sizes: (usize, usize, usize), x: int, y: int, z: int) -> int {
    x + chunk_sizes.0 * (y + chunk_sizes.1 * z)
}

/// The flag the air check is given for a block: 1 when one can see
/// through it, 0 otherwise.
pub open spec fn transparency_flag(t: BlockType) -> u32 {
    if t == BlockType::Air {
        1
    } else {
        0
    }
}

/// The flat arrays hold, at the index of cell `(x, y, z)`, that cell's block
/// id and transparency flag.
pub open spec fn air_check_input_at(
    grid: Seq<Vec<Vec<Block>>>,
    types: Seq<u32>,
    transparency: Seq<u32>,
    chunk_sizes: (usize, usize, usize),
    x: int,
    y: int,
    z: int,
) -> bool {
    let i = flat_index(chunk_sizes, x, y, z);
    &&& types[i] == block_id(cell(grid, x, y, z).block_type) as u32
    &&& transparency[i] == transparency_flag(cell(grid, x, y, z).block_type)
}

/// The transparency flag of cell `(x, y, z)` is set.
pub open spec fn transparent_at(
    transparency: Seq<u32>,
    chunk_sizes: (usize, usize, usize),
    x: int,
    y: int,
    z: int,
) -> bool {
    transparency[flat_index(chunk_sizes, x, y, z)] != 0
}

/// Cell `(x, y, z)` is opaque and one of its six neighbours inside the
/// chunk is transparent, by the flat transparency flags.
pub open spec fn flat_touches_air(
    transparency: Seq<u32>,
    chunk_sizes: (usize, usize, usize),
    x: int,
    y: int,
    z: int,
) -> bool {
    &&& !transparent_at(transparency, chunk_sizes, x, y, z)
    &&& {
        ||| (x > 0 && transparent_at(transparency, chunk_sizes, x - 1, y, z))
        ||| (x + 1 < chunk_sizes.0 && transparent_at(transparency, chunk_sizes, x + 1, y, z))
        ||| (y > 0 && transparent_at(transparency, chunk_sizes, x, y - 1, z))
        ||| (y + 1 < chunk_sizes.1 && transparent_at(transparency, chunk_sizes, x, y + 1, z))
        ||| (z > 0 && transparent_at(transparency, chunk_sizes, x, y, z - 1))
        ||| (z + 1 < chunk_sizes.2 && transparent_at(transparency, chunk_sizes, x, y, z + 1))
    }
}

/// The block at `(x, y, z)` of the grid is air.
pub open spec fn air_at(grid: Seq<Vec<Vec<Block>>>, x: int, y: int, z: int) -> bool {
    cell(grid, x, y, z).block_type == BlockType::Air
}

/// The block at `(x, y, z)` is not air and one of its six neighbours
/// inside the chunk is air: the block has a face that can be seen.
pub open spec fn touches_air(
    grid: Seq<Vec<Vec<Block>>>,
    chunk_sizes: (usize, usize, usize),
    x: int,
    y: int,
    z: int,
) -> bool {
    &&& !air_at(grid, x, y, z)
    &&& {
        ||| (x > 0 && air_at(grid, x - 1, y, z))
        ||| (x + 1 < chunk_sizes.0 && air_at(grid, x + 1, y, z))
        ||| (y > 0 && air_at(grid, x, y - 1, z))
        ||| (y + 1 < chunk_sizes.1 && air_at(grid, x, y + 1, z))
        ||| (z > 0 && air_at(grid, x, y, z - 1))
        ||| (z + 1 < chunk_sizes.2 && air_at(grid, x, y, z + 1))
    }
}

/// Every cell's flat index lies inside the flat arrays.
pub proof fn lemma_flat_index_bounds(chunk_sizes: (usize, usize, usize), x: int, y: int, z: int)
    requires
        in_chunk(chunk_sizes, x, y, z),
    ensures
        0 <= flat_index(chunk_sizes, x, y, z) < cell_count(chunk_sizes),
        0 <= chunk_sizes.1 * z,
        y + chunk_sizes.1 * z < chunk_sizes.1 * chunk_sizes.2,
{
    let sx = chunk_sizes.0 as int;
    let sy = chunk_sizes.1 as int;
    let sz = chunk_sizes.2 as int;
    assert(0 <= sy * z && y + sy * z < sy * sz) by (nonlinear_arith)
        requires
            0 <= y < sy,
            0 <= z < sz,
    ;
    let w = y + sy * z;
    assert(0 <= x + sx * w < sx * (sy * sz)) by (nonlinear_arith)
        requires
            0 <= x < sx,
            0 <= w < sy * sz,
    ;
    assert(sx * (sy * sz) == sx * sy * sz) by (nonlinear_arith);
}

/// Different cells have different flat indices.
pub proof fn lemma_flat_index_injective(
    chunk_sizes: (usize, usize, usize),
    x1: int,
    y1: int,
    z1: int,
    x2: int,
    y2: int,
    z2: int,
)
    requires
        in_chunk(chunk_sizes, x1, y1, z1),
        in_chunk(chunk_sizes, x2, y2, z2),
        flat_index(chunk_sizes, x1, y1, z1) == flat_index(chunk_sizes, x2, y2, z2),
    ensures
        x1 == x2 && y1 == y2 && z1 == z2,
{
    let sx = chunk_sizes.0 as int;
    let sy = chunk_sizes.1 as int;
    let w1 = y1 + sy * z1;
    let w2 = y2 + sy * z2;
    assert(w1 * sx + x1 == x1 + sx * w1) by (nonlinear_arith);
    assert(w2 * sx + x2 == x2 + sx * w2) by (nonlinear_arith);
    lemma_digits_unique(w1, x1, w2, x2, sx);
    assert(z1 * sy + y1 == w1) by (nonlinear_arith)
        requires
            w1 == y1 + sy * z1,
    ;
    assert(z2 * sy + y2 == w2) by (nonlinear_arith)
        requires
            w2 == y2 + sy * z2,
    ;
    lemma_digits_unique(z1, y1, z2, y2, sy);
}

/// The flat index of a cell, computed without overflow.
fn flat_index_of(chunk_sizes: (usize, usize, usize), x: usize, y: usize, z: usize) -> (i: usize)
    requires
        in_chunk(chunk_sizes, x as int, y as int, z as int),
        cell_count(chunk_sizes) <= usize::MAX,
    ensures
        i == flat_index(chunk_sizes, x as int, y as int, z as int),
        i < cell_count(chunk_sizes),
{
    proof {
        lemma_flat_index_bounds(chunk_sizes, x as int, y as int, z as int);
        let sx = chunk_sizes.0 as int;
        let sy = chunk_sizes.1 as int;
        let sz = chunk_sizes.2 as int;
        assert(sy * sz <= sx * sy * sz) by (nonlinear_arith)
            requires
                sx > x,
                sy > 0,
                sz > 0,
        ;
        let w = y + sy * z;
        assert(sx * w <= sx * sy * sz) by (nonlinear_arith)
            requires
                0 <= w < sy * sz,
                sx > 0,
        ;
    }
    x + chunk_sizes.0 * (y + chunk_sizes.1 * z)
}

/// The flat arrays the air check is run on: the id of every cell's block
/// and its transparency flag, `x` running fastest, then `y`, then `z`, and
/// the dimensions of the chunk.
pub fn check_air_inputs(grid: &Vec<Vec<Vec<Block>>>, chunk_sizes: (usize, usize, usize)) -> (r: (
    Vec<u32>,
    Vec<u32>,
    [u32; 3],
))
    requires
        grid_has_sizes(grid@, chunk_sizes),
        chunk_sizes.0 * chunk_sizes.1 <= usize::MAX,
        cell_count(chunk_sizes) <= usize::MAX,
    ensures
        r.0@.len() == cell_count(chunk_sizes),
        r.1@.len() == cell_count(chunk_sizes),
        r.2@ == seq![chunk_sizes.0 as u32, chunk_sizes.1 as u32, chunk_sizes.2 as u32],
        forall|x: int, y: int, z: int|
            in_chunk(chunk_sizes, x, y, z) ==> #[trigger] air_check_input_at(
                grid@,
                r.0@,
                r.1@,
                chunk_sizes,
                x,
                y,
                z,
            ),
{
    let sx = chunk_sizes.0;
    let sy = chunk_sizes.1;
    let sz = chunk_sizes.2;
    let n: usize = sx * sy * sz;
    let mut types: Vec<u32> = vec![0u32; n];
    let mut transparency: Vec<u32> = vec![0u32; n];
    let mut z: usize = 0;
    while z < sz
        invariant
            grid_has_sizes(grid@, chunk_sizes),
            cell_count(chunk_sizes) <= usize::MAX,
            n == cell_count(chunk_sizes),
            sx == chunk_sizes.0,
            sy == chunk_sizes.1,
            sz == chunk_sizes.2,
            z <= sz,
            types@.len() == n,
            transparency@.len() == n,
            forall|a: int, b: int, c: int|
                in_chunk(chunk_sizes, a, b, c) && c < z ==> #[trigger] air_check_input_at(
                    grid@,
                    types@,
                    transparency@,
                    chunk_sizes,
                    a,
                    b,
                    c,
                ),
        decreases sz - z,
    {
        let mut y: usize = 0;
        while y < sy
            invariant
                grid_has_sizes(grid@, chunk_sizes),
                cell_count(chunk_sizes) <= usize::MAX,
                n == cell_count(chunk_sizes),
                sx == chunk_sizes.0,
                sy == chunk_sizes.1,
                sz == chunk_sizes.2,
                z < sz,
                y <= sy,
                types@.len() == n,
                transparency@.len() == n,
                forall|a: int, b: int, c: int|
                    in_chunk(chunk_sizes, a, b, c) && (c < z || (c == z && b < y))
                        ==> #[trigger] air_check_input_at(
                        grid@,
                        types@,
                        transparency@,
                        chunk_sizes,
                        a,
                        b,
                        c,
                    ),
            decreases sy - y,
        {
            let mut x: usize = 0;
            while x < sx
                invariant
                    grid_has_sizes(grid@, chunk_sizes),
                    cell_count(chunk_sizes) <= usize::MAX,
                    n == cell_count(chunk_sizes),
                    sx == chunk_sizes.0,
                    sy == chunk_sizes.1,
                    sz == chunk_sizes.2,
                    z < sz,
                    y < sy,
                    x <= sx,
                    types@.len() == n,
                    transparency@.len() == n,
                    forall|a: int, b: int, c: int|
                        in_chunk(chunk_sizes, a, b, c) && (c < z || (c == z && b < y) || (c == z
                            && b == y && a < x)) ==> #[trigger] air_check_input_at(
                            grid@,
                            types@,
                            transparency@,
                            chunk_sizes,
                            a,
                            b,
                            c,
                        ),
                decreases sx - x,
            {
                let i: usize = flat_index_of(chunk_sizes, x, y, z);
                let block_type: BlockType = grid[x][y][z].block_type;
                let ghost old_types = types@;
                let ghost old_transparency = transparency@;
                types.set(i, block_type.to_int() as u32);
                let flag: u32 = if block_type.is_transparent() { 1 } else { 0 };
                transparency.set(i, flag);
                assert forall|a: int, b: int, c: int|
                    in_chunk(chunk_sizes, a, b, c) && (c < z || (c == z && b < y) || (c == z && b
                        == y && a <= x)) implies #[trigger] air_check_input_at(
                    grid@,
                    types@,
                    transparency@,
                    chunk_sizes,
                    a,
                    b,
                    c,
                ) by {
                    if a == x && b == y && c == z {
                    } else {
                        lemma_flat_index_bounds(chunk_sizes, a, b, c);
                        if flat_index(chunk_sizes, a, b, c) == i {
                            lemma_flat_index_injective(chunk_sizes, a, b, c, x as int, y as int, z as int);
                        }
                        assert(air_check_input_at(grid@, old_types, old_transparency, chunk_sizes, a, b, c));
                    }
                }
                x = x + 1;
            }
            y = y + 1;
        }
        z = z + 1;
    }
    let dims: [u32; 3] = [
        #[verifier::truncate]
        (sx as u32),
        #[verifier::truncate]
        (sy as u32),
        #[verifier::truncate]
        (sz as u32),
    ];
    assert(dims@ =~= seq![sx as u32, sy as u32, sz as u32]);
    (types, transparency, dims)
}

/// The result the air check gives for cell `(x, y, z)`: 1 when it touches
/// air by the flat transparency flags, 0 otherwise.
pub open spec fn air_check_result_at(
    result: Seq<u32>,
    transparency: Seq<u32>,
    chunk_sizes: (usize, usize, usize),
    x: int,
    y: int,
    z: int,
) -> bool {
    result[flat_index(chunk_sizes, x, y, z)] == (if flat_touches_air(
        transparency,
        chunk_sizes,
        x,
        y,
        z,
    ) {
        1u32
    } else {
        0u32
    })
}

/// Whether the transparency flag of a cell is set.
fn transparent_flag_at(
    transparency: &Vec<u32>,
    chunk_sizes: (usize, usize, usize),
    x: usize,
    y: usize,
    z: usize,
) -> (b: bool)
    requires
        in_chunk(chunk_sizes, x as int, y as int, z as int),
        cell_count(chunk_sizes) <= usize::MAX,
        transparency@.len() == cell_count(chunk_sizes),
    ensures
        b == transparent_at(transparency@, chunk_sizes, x as int, y as int, z as int),
{
    let i: usize = flat_index_of(chunk_sizes, x, y, z);
    transparency[i] != 0
}

/// The air check itself, from the flat transparency flags: for every cell,
/// 1 when it is opaque and one of its six neighbours inside the chunk is
/// transparent, 0 otherwise.
pub fn touching_air_results(transparency: &Vec<u32>, chunk_sizes: (usize, usize, usize)) -> (result:
    Vec<u32>)
    requires
        chunk_sizes.0 * chunk_sizes.1 <= usize::MAX,
        cell_count(chunk_sizes) <= usize::MAX,
        transparency@.len() == cell_count(chunk_sizes),
    ensures
        result@.len() == cell_count(chunk_sizes),
        forall|x: int, y: int, z: int|
            in_chunk(chunk_sizes, x, y, z) ==> #[trigger] air_check_result_at(
                result@,
                transparency@,
                chunk_sizes,
                x,
                y,
                z,
            ),
        forall|x: int, y: int, z: int|
            in_chunk(chunk_sizes, x, y, z) ==> #[trigger] result@[flat_index(chunk_sizes, x, y, z)] == (if transparency@[flat_index(
                chunk_sizes,
                x,
                y,
                z,
            )] == 0 && ((x > 0 && transparency@[flat_index(chunk_sizes, x - 1, y, z)] != 0) || (x + 1
                < chunk_sizes.0 && transparency@[flat_index(chunk_sizes, x + 1, y, z)] != 0) || (y > 0
                && transparency@[flat_index(chunk_sizes, x, y - 1, z)] != 0) || (y + 1 < chunk_sizes.1
                && transparency@[flat_index(chunk_sizes, x, y + 1, z)] != 0) || (z > 0
                && transparency@[flat_index(chunk_sizes, x, y, z - 1)] != 0) || (z + 1 < chunk_sizes.2
                && transparency@[flat_index(chunk_sizes, x, y, z + 1)] != 0)) {
                1u32
            } else {
                0u32
            }),
{
    let sx = chunk_sizes.0;
    let sy = chunk_sizes.1;
    let sz = chunk_sizes.2;
    let n: usize = sx * sy * sz;
    let mut result: Vec<u32> = vec![0u32; n];
    let mut z: usize = 0;
    while z < sz
        invariant
            cell_count(chunk_sizes) <= usize::MAX,
            n == cell_count(chunk_sizes),
            transparency@.len() == n,
            sx == chunk_sizes.0,
            sy == chunk_sizes.1,
            sz == chunk_sizes.2,
            z <= sz,
            result@.len() == n,
            forall|a: int, b: int, c: int|
                in_chunk(chunk_sizes, a, b, c) && c < z ==> #[trigger] air_check_result_at(
                    result@,
                    transparency@,
                    chunk_sizes,
                    a,
                    b,
                    c,
                ),
        decreases sz - z,
    {
        let mut y: usize = 0;
        while y < sy
            invariant
                cell_count(chunk_sizes) <= usize::MAX,
                n == cell_count(chunk_sizes),
                transparency@.len() == n,
                sx == chunk_sizes.0,
                sy == chunk_sizes.1,
                sz == chunk_sizes.2,
                z < sz,
                y <= sy,
                result@.len() == n,
                forall|a: int, b: int, c: int|
                    in_chunk(chunk_sizes, a, b, c) && (c < z || (c == z && b < y))
                        ==> #[trigger] air_check_result_at(
                        result@,
                        transparency@,
                        chunk_sizes,
                        a,
                        b,
                        c,
                    ),
            decreases sy - y,
        {
            let mut x: usize = 0;
            while x < sx
                invariant
                    cell_count(chunk_sizes) <= usize::MAX,
                    n == cell_count(chunk_sizes),
                    transparency@.len() == n,
                    sx == chunk_sizes.0,
                    sy == chunk_sizes.1,
                    sz == chunk_sizes.2,
                    z < sz,
                    y < sy,
                    x <= sx,
                    result@.len() == n,
                    forall|a: int, b: int, c: int|
                        in_chunk(chunk_sizes, a, b, c) && (c < z || (c == z && b < y) || (c == z
                            && b == y && a < x)) ==> #[trigger] air_check_result_at(
                            result@,
                            transparency@,
                            chunk_sizes,
                            a,
                            b,
                            c,
                        ),
                decreases sx - x,
            {
                let opaque: bool = !transparent_flag_at(transparency, chunk_sizes, x, y, z);
                let mut near_air: bool = false;
                if x > 0 && transparent_flag_at(transparency, chunk_sizes, x - 1, y, z) {
                    near_air = true;
                }
                if x + 1 < sx && transparent_flag_at(transparency, chunk_sizes, x + 1, y, z) {
                    near_air = true;
                }
                if y > 0 && transparent_flag_at(transparency, chunk_sizes, x, y - 1, z) {
                    near_air = true;
                }
                if y + 1 < sy && transparent_flag_at(transparency, chunk_sizes, x, y + 1, z) {
                    near_air = true;
                }
                if z > 0 && transparent_flag_at(transparency, chunk_sizes, x, y, z - 1) {
                    near_air = true;
                }
                if z + 1 < sz && transparent_flag_at(transparency, chunk_sizes, x, y, z + 1) {
                    near_air = true;
                }
                let value: u32 = if opaque && near_air { 1 } else { 0 };
                assert(value == (if flat_touches_air(transparency@, chunk_sizes, x as int, y as int, z as int) { 1u32 } else { 0u32 }));
                let i: usize = flat_index_of(chunk_sizes, x, y, z);
                let ghost before = result@;
                result.set(i, value);
                assert forall|a: int, b: int, c: int|
                    in_chunk(chunk_sizes, a, b, c) && (c < z || (c == z && b < y) || (c == z && b
                        == y && a <= x)) implies #[trigger] air_check_result_at(
                    result@,
                    transparency@,
                    chunk_sizes,
                    a,
                    b,
                    c,
                ) by {
                    if a == x && b == y && c == z {
                    } else {
                        lemma_flat_index_bounds(chunk_sizes, a, b, c);
                        if flat_index(chunk_sizes, a, b, c) == i {
                            lemma_flat_index_injective(chunk_sizes, a, b, c, x as int, y as int, z as int);
                        }
                        assert(air_check_result_at(before, transparency@, chunk_sizes, a, b, c));
                    }
                }
                x = x + 1;
            }
            y = y + 1;
        }
        z = z + 1;
    }
    assert forall|x: int, y: int, z: int| in_chunk(chunk_sizes, x, y, z) implies #[trigger] result@[flat_index(
        chunk_sizes,
        x,
        y,
        z,
    )] == (if transparency@[flat_index(chunk_sizes, x, y, z)] == 0 && ((x > 0
        && transparency@[flat_index(chunk_sizes, x - 1, y, z)] != 0) || (x + 1 < chunk_sizes.0
        && transparency@[flat_index(chunk_sizes, x + 1, y, z)] != 0) || (y > 0
        && transparency@[flat_index(chunk_sizes, x, y - 1, z)] != 0) || (y + 1 < chunk_sizes.1
        && transparency@[flat_index(chunk_sizes, x, y + 1, z)] != 0) || (z > 0
        && transparency@[flat_index(chunk_sizes, x, y, z - 1)] != 0) || (z + 1 < chunk_sizes.2
        && transparency@[flat_index(chunk_sizes, x, y, z + 1)] != 0)) {
        1u32
    } else {
        0u32
    }) by {
        assert(air_check_result_at(result@, transparency@, chunk_sizes, x, y, z));
    }
    result
}

/// `b` with its touching-air flag replaced by `flag`.
pub open spec fn with_touching_air(b: Block, flag: bool) -> Block {
    Block { touching_air: flag, ..b }
}

/// Sets the touching-air flag of every cell of the grid from the results
/// of the air check: a cell touches air when its result is not 0.
pub fn apply_touching_air(
    temp_chunk_vec: &mut Vec<Vec<Vec<Block>>>,
    result: &Vec<u32>,
    chunk_sizes: (usize, usize, usize),
)
    requires
        grid_has_sizes(old(temp_chunk_vec)@, chunk_sizes),
        cell_count(chunk_sizes) <= usize::MAX,
        result@.len() == cell_count(chunk_sizes),
    ensures
        grid_has_sizes(final(temp_chunk_vec)@, chunk_sizes),
        forall|x: int, y: int, z: int|
            in_chunk(chunk_sizes, x, y, z) ==> #[trigger] cell(final(temp_chunk_vec)@, x, y, z)
                == with_touching_air(
                cell(old(temp_chunk_vec)@, x, y, z),
                result@[flat_index(chunk_sizes, x, y, z)] != 0,
            ),
{
    let ghost g0 = temp_chunk_vec@;
    let sx = chunk_sizes.0;
    let sy = chunk_sizes.1;
    let sz = chunk_sizes.2;
    let mut y: usize = 0;
    while y < sy
        invariant
            grid_has_sizes(g0, chunk_sizes),
            grid_has_sizes(temp_chunk_vec@, chunk_sizes),
            cell_count(chunk_sizes) <= usize::MAX,
            result@.len() == cell_count(chunk_sizes),
            sx == chunk_sizes.0,
            sy == chunk_sizes.1,
            sz == chunk_sizes.2,
            y <= sy,
            forall|a: int, b: int, c: int|
                in_chunk(chunk_sizes, a, b, c) ==> #[trigger] cell(temp_chunk_vec@, a, b, c) == (if b
                    < y {
                    with_touching_air(cell(g0, a, b, c), result@[flat_index(chunk_sizes, a, b, c)] != 0)
                } else {
                    cell(g0, a, b, c)
                }),
        decreases sy - y,
    {
        let mut z: usize = 0;
        while z < sz
            invariant
                grid_has_sizes(g0, chunk_sizes),
                grid_has_sizes(temp_chunk_vec@, chunk_sizes),
                cell_count(chunk_sizes) <= usize::MAX,
                result@.len() == cell_count(chunk_sizes),
                sx == chunk_sizes.0,
                sy == chunk_sizes.1,
                sz == chunk_sizes.2,
                y < sy,
                z <= sz,
                forall|a: int, b: int, c: int|
                    in_chunk(chunk_sizes, a, b, c) ==> #[trigger] cell(temp_chunk_vec@, a, b, c) == (
                    if b < y || (b == y && c < z) {
                        with_touching_air(
                            cell(g0, a, b, c),
                            result@[flat_index(chunk_sizes, a, b, c)] != 0,
                        )
                    } else {
                        cell(g0, a, b, c)
                    }),
            decreases sz - z,
        {
            let mut x: usize = 0;
            while x < sx
                invariant
                    grid_has_sizes(g0, chunk_sizes),
                    grid_has_sizes(temp_chunk_vec@, chunk_sizes),
                    cell_count(chunk_sizes) <= usize::MAX,
                    result@.len() == cell_count(chunk_sizes),
                    sx == chunk_sizes.0,
                    sy == chunk_sizes.1,
                    sz == chunk_sizes.2,
                    y < sy,
                    z < sz,
                    x <= sx,
                    forall|a: int, b: int, c: int|
                        in_chunk(chunk_sizes, a, b, c) ==> #[trigger] cell(temp_chunk_vec@, a, b, c)
                            == (if b < y || (b == y && c < z) || (b == y && c == z && a < x) {
                            with_touching_air(
                                cell(g0, a, b, c),
                                result@[flat_index(chunk_sizes, a, b, c)] != 0,
                            )
                        } else {
                            cell(g0, a, b, c)
                        }),
                decreases sx - x,
            {
                let index: usize = flat_index_of(chunk_sizes, x, y, z);
                let flag: bool = result[index] != 0;
                let ghost before = temp_chunk_vec@;
                temp_chunk_vec[x][y][z].touching_air = flag;
                assert forall|a: int, b: int, c: int|
                    in_chunk(chunk_sizes, a, b, c) implies #[trigger] cell(temp_chunk_vec@, a, b, c)
                        == (if b < y || (b == y && c < z) || (b == y && c == z && a <= x) {
                        with_touching_air(
                            cell(g0, a, b, c),
                            result@[flat_index(chunk_sizes, a, b, c)] != 0,
                        )
                    } else {
                        cell(g0, a, b, c)
                    }) by {
                    assert(cell(before, a, b, c) == (if b < y || (b == y && c < z) || (b == y && c
                        == z && a < x) {
                        with_touching_air(
                            cell(g0, a, b, c),
                            result@[flat_index(chunk_sizes, a, b, c)] != 0,
                        )
                    } else {
                        cell(g0, a, b, c)
                    }));
                }
                x = x + 1;
            }
            z = z + 1;
        }
        y = y + 1;
    }
}

/// Marks every block of a chunk's temporary grid that has a face to draw:
/// afterwards a block's touching-air flag says whether it is not air and
/// one of its six neighbours inside the chunk is air. Everything else about
/// the blocks stays as it was. The flat arrays of `check_air_inputs` are
/// checked by `touching_air_results` and the results copied back into the
/// grid by `apply_touching_air`.
pub fn check_for_touching_air(
    temp_chunk_vec: &mut Vec<Vec<Vec<Block>>>,
    chunk_sizes: (usize, usize, usize),
)
    requires
        grid_has_sizes(old(temp_chunk_vec)@, chunk_sizes),
        chunk_sizes.0 * chunk_sizes.1 <= usize::MAX,
        cell_count(chunk_sizes) <= usize::MAX,
    ensures
        grid_has_sizes(final(temp_chunk_vec)@, chunk_sizes),
        forall|x: int, y: int, z: int|
            in_chunk(chunk_sizes, x, y, z) ==> #[trigger] cell(final(temp_chunk_vec)@, x, y, z)
                == with_touching_air(
                cell(old(temp_chunk_vec)@, x, y, z),
                touches_air(old(temp_chunk_vec)@, chunk_sizes, x, y, z),
            ),
        forall|x: int, y: int, z: int|
            in_chunk(chunk_sizes, x, y, z) ==> (#[trigger] cell(final(temp_chunk_vec)@, x, y, z)).touching_air
                == (cell(old(temp_chunk_vec)@, x, y, z).block_type != BlockType::Air && ((x > 0 && cell(
                old(temp_chunk_vec)@,
                x - 1,
                y,
                z,
            ).block_type == BlockType::Air) || (x + 1 < chunk_sizes.0 && cell(old(temp_chunk_vec)@, x + 1, y, z).block_type
                == BlockType::Air) || (y > 0 && cell(old(temp_chunk_vec)@, x, y - 1, z).block_type
                == BlockType::Air) || (y + 1 < chunk_sizes.1 && cell(old(temp_chunk_vec)@, x, y + 1, z).block_type
                == BlockType::Air) || (z > 0 && cell(old(temp_chunk_vec)@, x, y, z - 1).block_type
                == BlockType::Air) || (z + 1 < chunk_sizes.2 && cell(old(temp_chunk_vec)@, x, y, z + 1).block_type
                == BlockType::Air))),
{
    let ghost g0 = temp_chunk_vec@;
    let (types, transparency, dims) = check_air_inputs(temp_chunk_vec, chunk_sizes);
    let result: Vec<u32> = touching_air_results(&transparency, chunk_sizes);
    assert forall|x: int, y: int, z: int| in_chunk(chunk_sizes, x, y, z) implies (
    result@[flat_index(chunk_sizes, x, y, z)] != 0) == touches_air(g0, chunk_sizes, x, y, z) by {
        assert(air_check_result_at(result@, transparency@, chunk_sizes, x, y, z));
        assert(air_check_input_at(g0, types@, transparency@, chunk_sizes, x, y, z));
        if x > 0 {
            assert(air_check_input_at(g0, types@, transparency@, chunk_sizes, x - 1, y, z));
        }
        if x + 1 < chunk_sizes.0 {
            assert(air_check_input_at(g0, types@, transparency@, chunk_sizes, x + 1, y, z));
        }
        if y > 0 {
            assert(air_check_input_at(g0, types@, transparency@, chunk_sizes, x, y - 1, z));
        }
        if y + 1 < chunk_sizes.1 {
            assert(air_check_input_at(g0, types@, transparency@, chunk_sizes, x, y + 1, z));
        }
        if z > 0 {
            assert(air_check_input_at(g0, types@, transparency@, chunk_sizes, x, y, z - 1));
        }
        if z + 1 < chunk_sizes.2 {
            assert(air_check_input_at(g0, types@, transparency@, chunk_sizes, x, y, z + 1));
        }
    }
    apply_touching_air(temp_chunk_vec, &result, chunk_sizes);
}

/// How much the instance buffers grow, at most.
pub proof fn capacity_growth_bound(needed: int)
    requires
        needed >= 0,
    ensures
        capacity_growth(needed) <= needed + INSTANCE_CAPACITY_STEP,
{
    lemma_growth_bounds(needed);
}

/// Growing the instance buffers leaves room for every drawn block, with at
/// most one step to spare.
pub proof fn growth_fits_drawn_blocks(c: Chunk)
    requires
        can_grow(c),
    ensures
        c.instance_size <= capacity_grown(c).new_instance_capacity <= c.instance_size
            + INSTANCE_CAPACITY_STEP,
        buffers_replaced(capacity_grown(c)).instance_capacity >= c.instance_size,
{
    lemma_growth_bounds(c.instance_size - c.instance_capacity);
}

/// The buffer bookkeeping of a chunk never changes its blocks, its drawn
/// blocks or its id.
pub proof fn buffer_updates_keep_blocks(c: Chunk, new_writing: bool, staging_writing: bool)
    ensures
        chunk_updated(c, new_writing, staging_writing).chunk_blocks == c.chunk_blocks,
        chunk_updated(c, new_writing, staging_writing).instances_to_render
            == c.instances_to_render,
        staging_buffer_updated(c, new_writing).chunk_blocks == c.chunk_blocks,
        staging_buffer_updated(c, new_writing).instances_to_render == c.instances_to_render,
        capacity_grown(c).chunk_blocks == c.chunk_blocks,
        capacity_grown(c).instances_to_render == c.instances_to_render,
        chunk_updated(c, new_writing, staging_writing).chunk_id_x == c.chunk_id_x,
        chunk_updated(c, new_writing, staging_writing).chunk_id_z == c.chunk_id_z,
{
}

/// Data written to the staging buffer reaches the instance buffer: once the
/// write is done, the next update copies it and the chunk is no longer
/// modified.
pub proof fn staged_data_is_copied(c: Chunk, staging_writing: bool)
    requires
        !c.creating_new_instance_buffers,
    ensures
        chunk_update_action(staging_buffer_updated(c, false), false, false)
            == ChunkBufferAction::CopyStagingBuffer,
        !chunk_updated(staging_buffer_updated(c, false), staging_writing, false).instances_modified,
{
}

/// Once started, the creation of new buffers ends with them in place as
/// soon as they are written, and the chunk takes their capacity.
pub proof fn new_buffers_replace_old(c: Chunk, staging_writing: bool)
    requires
        can_grow(c),
    ensures
        chunk_update_action(capacity_grown(c), false, staging_writing)
            == ChunkBufferAction::ReplaceBuffers,
        chunk_updated(capacity_grown(c), false, staging_writing) == buffers_replaced(
            capacity_grown(c),
        ),
        !chunk_updated(capacity_grown(c), false, staging_writing).creating_new_instance_buffers,
        chunk_updated(capacity_grown(c), true, staging_writing) == capacity_grown(c),
{
}

} // verus!
