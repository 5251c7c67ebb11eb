//! Chunk coordinates, and the temporary grid of blocks a chunk is built in.
use vstd::prelude::*;
use crate::block::Block;
use crate::block_type::{BlockType, kind_of_id, kind_of_block_id};
use crate::settings::{CHUNK_SIZE_X, CHUNK_SIZE_Y, CHUNK_SIZE_Z};
use crate::types::Position;
use crate::keys::{position_key, position_key_of, chunk_key_of, lemma_block_key_injective};
use crate::chunk::Chunk;
use crate::chunk::create_chunks::{generate_chunk, generated_layer_type};
use crate::chunk::chunk_gpu_functions::{in_chunk, cell_count, check_for_touching_air, touches_air};
use crate::chunk_file::{
    chunk_read, chunk_text, all_cells, placed_kind, kinds_have_sizes, kind_at, cell_of_block,
    placeable_sizes, saved_chunk_reads_back,
};
use crate::file_system::FileSystem;
use crate::world::id_key;
use std::collections::{HashMap, HashSet};

verus! {

/// Division rounding toward zero, as Rust's `/` on integers does.
pub open spec fn trunc_div(a: int, b: int) -> int {
    if a >= 0 {
        a / b
    } else {
        -((-a) / b)
    }
}

/// Chunk dimensions along x and z that are positive and fit in an `i32`.
pub open spec fn xz_sizes_fit(chunk_sizes: (usize, usize, usize)) -> bool {
    &&& 1 <= chunk_sizes.0 <= i32::MAX
    &&& 1 <= chunk_sizes.2 <= i32::MAX
}

/// The chunk id of a world position, dividing each coordinate by the chunk
/// size and rounding toward zero.
pub open spec fn chunk_id_spec(pos_x: int, pos_z: int, chunk_sizes: (usize, usize, usize)) -> (
    int,
    int,
) {
    (trunc_div(pos_x, chunk_sizes.0 as int), trunc_div(pos_z, chunk_sizes.2 as int))
}

/// The world coordinates of the block at a relative position inside a chunk.
pub open spec fn world_block_pos_spec(
    chunk_id_x: int,
    chunk_id_z: int,
    relative_block_x: int,
    relative_block_y: int,
    relative_block_z: int,
    chunk_sizes: (usize, usize, usize),
) -> (int, int, int) {
    (
        chunk_id_x * chunk_sizes.0 + relative_block_x,
        relative_block_y,
        chunk_id_z * chunk_sizes.2 + relative_block_z,
    )
}

/// The world coordinates of a block fit in `i32`, including the product of
/// chunk id and chunk size that is computed first.
pub open spec fn world_block_pos_fits(
    chunk_id_x: int,
    chunk_id_z: int,
    relative_block_x: int,
    relative_block_z: int,
    chunk_sizes: (usize, usize, usize),
) -> bool {
    &&& chunk_sizes.0 <= i32::MAX
    &&& chunk_sizes.2 <= i32::MAX
    &&& i32::MIN <= chunk_id_x * chunk_sizes.0 <= i32::MAX
    &&& i32::MIN <= chunk_id_z * chunk_sizes.2 <= i32::MAX
    &&& i32::MIN <= chunk_id_x * chunk_sizes.0 + relative_block_x <= i32::MAX
    &&& i32::MIN <= chunk_id_z * chunk_sizes.2 + relative_block_z <= i32::MAX
}

/// The position of a block relative to the chunk it lies in: x and z taken
/// modulo the chunk size (always non-negative), y unchanged.
pub open spec fn relative_block_pos_spec(
    world_x: int,
    world_y: int,
    world_z: int,
    chunk_sizes: (usize, usize, usize),
) -> (int, int, int) {
    (world_x % (chunk_sizes.0 as int), world_y, world_z % (chunk_sizes.2 as int))
}

/// `(-a) % m` in terms of `a % m`, for the non-negative remainder.
pub proof fn lemma_mod_of_negation(a: int, m: int)
    requires
        a > 0,
        m > 0,
    ensures
        (-a) % m == if a % m == 0 {
            0
        } else {
            m - a % m
        },
{
    let q = a / m;
    let r = a % m;
    vstd::arithmetic::div_mod::lemma_fundamental_div_mod(a, m);
    if r == 0 {
        assert(-a == (-q) * m + 0) by (nonlinear_arith)
            requires
                a == m * q + r,
                r == 0,
        ;
        vstd::arithmetic::div_mod::lemma_fundamental_div_mod_converse(-a, m, -q, 0);
    } else {
        assert(-a == (-q - 1) * m + (m - r)) by (nonlinear_arith)
            requires
                a == m * q + r,
        ;
        vstd::arithmetic::div_mod::lemma_fundamental_div_mod_converse(-a, m, -q - 1, m - r);
    }
}

/// The non-negative remainder of `x` divided by `m`.
pub(crate) fn rem_euclid_i32(x: i32, m: i32) -> (r: i32)
    requires
        m > 0,
    ensures
        r == x as int % m as int,
{
    let t = x % m;
    proof {
        if x < 0 {
            lemma_mod_of_negation(-(x as int), m as int);
        }
    }
    if t < 0 {
        t + m
    } else {
        t
    }
}

/// Takes a world position and gives the id of the chunk that contains it.
pub fn get_chunk_id(pos_x: i32, pos_z: i32, chunk_sizes: (usize, usize, usize)) -> (ids: (i32, i32))
    requires
        xz_sizes_fit(chunk_sizes),
    ensures
        (ids.0 as int, ids.1 as int) == chunk_id_spec(pos_x as int, pos_z as int, chunk_sizes),
{
    let chunk_x: i32 = pos_x / (chunk_sizes.0 as i32);
    let chunk_z: i32 = pos_z / (chunk_sizes.2 as i32);
    (chunk_x, chunk_z)
}

/// Given a chunk id and a block position relative to the origin of the
/// chunk, gives the world coordinates of the block.
pub fn get_world_block_pos(
    chunk_id_x: i32,
    chunk_id_z: i32,
    relative_block_x: i32,
    relative_block_y: i16,
    relative_block_z: i32,
    chunk_sizes: (usize, usize, usize),
) -> (pos: (i32, i16, i32))
    requires
        world_block_pos_fits(
            chunk_id_x as int,
            chunk_id_z as int,
            relative_block_x as int,
            relative_block_z as int,
            chunk_sizes,
        ),
    ensures
        (pos.0 as int, pos.1 as int, pos.2 as int) == world_block_pos_spec(
            chunk_id_x as int,
            chunk_id_z as int,
            relative_block_x as int,
            relative_block_y as int,
            relative_block_z as int,
            chunk_sizes,
        ),
{
    let world_x: i32 = (chunk_id_x * chunk_sizes.0 as i32) + relative_block_x;
    let world_y: i16 = relative_block_y;
    let world_z: i32 = (chunk_id_z * chunk_sizes.2 as i32) + relative_block_z;
    (world_x, world_y, world_z)
}

/// Goes from the world position of a block to its position relative to the
/// chunk it lies in.
pub fn get_relative_block_pos(
    world_x: i32,
    world_y: i16,
    world_z: i32,
    chunk_sizes: (usize, usize, usize),
) -> (pos: (i32, i16, i32))
    requires
        xz_sizes_fit(chunk_sizes),
    ensures
        (pos.0 as int, pos.1 as int, pos.2 as int) == relative_block_pos_spec(
            world_x as int,
            world_y as int,
            world_z as int,
            chunk_sizes,
        ),
{
    let chunk_relative_x: i32 = rem_euclid_i32(world_x, chunk_sizes.0 as i32);
    let chunk_relative_z: i32 = rem_euclid_i32(world_z, chunk_sizes.2 as i32);
    (chunk_relative_x, world_y, chunk_relative_z)
}

/// Placing a block inside a chunk and asking for its chunk-relative position
/// gives back the relative x and z it was placed at (and y unchanged), for
/// every chunk id, negative ones included.
pub proof fn relative_block_pos_of_world_block_pos(
    chunk_id_x: int,
    chunk_id_z: int,
    relative_block_x: int,
    relative_block_y: int,
    relative_block_z: int,
    chunk_sizes: (usize, usize, usize),
)
    requires
        xz_sizes_fit(chunk_sizes),
        0 <= relative_block_x < chunk_sizes.0,
        0 <= relative_block_z < chunk_sizes.2,
    ensures
        ({
            let w = world_block_pos_spec(
                chunk_id_x,
                chunk_id_z,
                relative_block_x,
                relative_block_y,
                relative_block_z,
                chunk_sizes,
            );
            relative_block_pos_spec(w.0, w.1, w.2, chunk_sizes) == (
                relative_block_x,
                relative_block_y,
                relative_block_z,
            )
        }),
{
    let sx = chunk_sizes.0 as int;
    let sz = chunk_sizes.2 as int;
    vstd::arithmetic::div_mod::lemma_fundamental_div_mod_converse(
        chunk_id_x * sx + relative_block_x,
        sx,
        chunk_id_x,
        relative_block_x,
    );
    vstd::arithmetic::div_mod::lemma_fundamental_div_mod_converse(
        chunk_id_z * sz + relative_block_z,
        sz,
        chunk_id_z,
        relative_block_z,
    );
}

/// A block placed inside a chunk with non-negative id lies in that chunk:
/// its chunk id is the one it was placed in. (For negative ids this fails,
/// because the chunk id rounds toward zero.)
pub proof fn chunk_id_of_world_block_pos(
    chunk_id_x: int,
    chunk_id_z: int,
    relative_block_x: int,
    relative_block_y: int,
    relative_block_z: int,
    chunk_sizes: (usize, usize, usize),
)
    requires
        xz_sizes_fit(chunk_sizes),
        chunk_id_x >= 0,
        chunk_id_z >= 0,
        0 <= relative_block_x < chunk_sizes.0,
        0 <= relative_block_z < chunk_sizes.2,
    ensures
        ({
            let w = world_block_pos_spec(
                chunk_id_x,
                chunk_id_z,
                relative_block_x,
                relative_block_y,
                relative_block_z,
                chunk_sizes,
            );
            chunk_id_spec(w.0, w.2, chunk_sizes) == (chunk_id_x, chunk_id_z)
        }),
{
    let sx = chunk_sizes.0 as int;
    let sz = chunk_sizes.2 as int;
    assert(chunk_id_x * sx >= 0) by (nonlinear_arith)
        requires
            chunk_id_x >= 0,
            sx >= 1,
    ;
    assert(chunk_id_z * sz >= 0) by (nonlinear_arith)
        requires
            chunk_id_z >= 0,
            sz >= 1,
    ;
    vstd::arithmetic::div_mod::lemma_fundamental_div_mod_converse(
        chunk_id_x * sx + relative_block_x,
        sx,
        chunk_id_x,
        relative_block_x,
    );
    vstd::arithmetic::div_mod::lemma_fundamental_div_mod_converse(
        chunk_id_z * sz + relative_block_z,
        sz,
        chunk_id_z,
        relative_block_z,
    );
}

/// A non-negative world coordinate is its chunk id times the chunk size plus
/// its chunk-relative coordinate, and the relative coordinates always lie
/// inside the chunk.
pub proof fn world_pos_splits_into_chunk_and_relative(
    pos_x: int,
    pos_y: int,
    pos_z: int,
    chunk_sizes: (usize, usize, usize),
)
    requires
        xz_sizes_fit(chunk_sizes),
    ensures
        ({
            let r = relative_block_pos_spec(pos_x, pos_y, pos_z, chunk_sizes);
            &&& 0 <= r.0 < chunk_sizes.0
            &&& 0 <= r.2 < chunk_sizes.2
            &&& r.1 == pos_y
        }),
        pos_x >= 0 ==> chunk_id_spec(pos_x, pos_z, chunk_sizes).0 * chunk_sizes.0
            + relative_block_pos_spec(pos_x, pos_y, pos_z, chunk_sizes).0 == pos_x,
        pos_z >= 0 ==> chunk_id_spec(pos_x, pos_z, chunk_sizes).1 * chunk_sizes.2
            + relative_block_pos_spec(pos_x, pos_y, pos_z, chunk_sizes).2 == pos_z,
{
    let sx = chunk_sizes.0 as int;
    let sz = chunk_sizes.2 as int;
    vstd::arithmetic::div_mod::lemma_fundamental_div_mod(pos_x, sx);
    vstd::arithmetic::div_mod::lemma_fundamental_div_mod(pos_z, sz);
    vstd::arithmetic::div_mod::lemma_mod_bound(pos_x, sx);
    vstd::arithmetic::div_mod::lemma_mod_bound(pos_z, sz);
    assert((pos_x / sx) * sx == sx * (pos_x / sx)) by (nonlinear_arith);
    assert((pos_z / sz) * sz == sz * (pos_z / sz)) by (nonlinear_arith);
}

/// The chunk dimensions the fixed-size coordinate functions use.
pub open spec fn standard_chunk_sizes() -> (usize, usize, usize) {
    (CHUNK_SIZE_X, CHUNK_SIZE_Y, CHUNK_SIZE_Z)
}

/// `get_chunk_id` for chunks of the standard dimensions.
pub fn GetChunkId(pos_x: i32, pos_z: i32) -> (ids: (i32, i32))
    ensures
        (ids.0 as int, ids.1 as int) == chunk_id_spec(
            pos_x as int,
            pos_z as int,
            standard_chunk_sizes(),
        ),
{
    get_chunk_id(pos_x, pos_z, (CHUNK_SIZE_X, CHUNK_SIZE_Y, CHUNK_SIZE_Z))
}

/// `get_world_block_pos` for chunks of the standard dimensions.
pub fn GetWorldBlockPos(
    chunk_id_x: i32,
    chunk_id_z: i32,
    relative_block_x: i32,
    relative_block_y: i16,
    relative_block_z: i32,
) -> (pos: (i32, i16, i32))
    requires
        world_block_pos_fits(
            chunk_id_x as int,
            chunk_id_z as int,
            relative_block_x as int,
            relative_block_z as int,
            standard_chunk_sizes(),
        ),
    ensures
        (pos.0 as int, pos.1 as int, pos.2 as int) == world_block_pos_spec(
            chunk_id_x as int,
            chunk_id_z as int,
            relative_block_x as int,
            relative_block_y as int,
            relative_block_z as int,
            standard_chunk_sizes(),
        ),
{
    get_world_block_pos(
        chunk_id_x,
        chunk_id_z,
        relative_block_x,
        relative_block_y,
        relative_block_z,
        (CHUNK_SIZE_X, CHUNK_SIZE_Y, CHUNK_SIZE_Z),
    )
}

/// `get_relative_block_pos` for chunks of the standard dimensions.
pub fn GetRelativeBlockPos(world_x: i32, world_y: i16, world_z: i32) -> (pos: (i32, i16, i32))
    ensures
        (pos.0 as int, pos.1 as int, pos.2 as int) == relative_block_pos_spec(
            world_x as int,
            world_y as int,
            world_z as int,
            standard_chunk_sizes(),
        ),
{
    get_relative_block_pos(world_x, world_y, world_z, (CHUNK_SIZE_X, CHUNK_SIZE_Y, CHUNK_SIZE_Z))
}

/// The dimensions of a grid of blocks indexed `[x][y][z]`.
pub open spec fn grid_has_sizes(grid: Seq<Vec<Vec<Block>>>, chunk_sizes: (usize, usize, usize)) -> bool {
    &&& grid.len() == chunk_sizes.0
    &&& forall|x: int| 0 <= x < chunk_sizes.0 ==> #[trigger] grid[x]@.len() == chunk_sizes.1
    &&& forall|x: int, y: int|
        0 <= x < chunk_sizes.0 && 0 <= y < chunk_sizes.1 ==> #[trigger] grid[x]@[y]@.len()
            == chunk_sizes.2
}

/// The block at `grid[x][y][z]`.
pub open spec fn cell(grid: Seq<Vec<Vec<Block>>>, x: int, y: int, z: int) -> Block {
    grid[x]@[y]@[z]
}

/// The cell `[x][y][z]` of a fresh temporary chunk grid: an air block at the
/// world position of that cell, where layer `y` lies `chunk_sizes.1 / 2`
/// layers below world height `y`.
pub open spec fn fresh_cell(
    chunk_ids: (i32, i32),
    chunk_sizes: (usize, usize, usize),
    x: int,
    y: int,
    z: int,
) -> Block {
    Block {
        block_type: BlockType::Air,
        position: Position {
            x: (chunk_ids.0 * chunk_sizes.0 + x) as i32,
            y: (y - chunk_sizes.1 as int / 2) as i16,
            z: (chunk_ids.1 * chunk_sizes.2 + z) as i32,
        },
        touching_air: false,
    }
}

/// Every cell of a chunk with these ids and dimensions has a world position
/// that fits the integer types of `Position`.
pub open spec fn chunk_positions_fit(chunk_ids: (i32, i32), chunk_sizes: (usize, usize, usize)) -> bool {
    &&& chunk_sizes.0 <= i32::MAX
    &&& chunk_sizes.1 <= i16::MAX
    &&& chunk_sizes.2 <= i32::MAX
    &&& i32::MIN <= chunk_ids.0 * chunk_sizes.0
    &&& chunk_ids.0 * chunk_sizes.0 + chunk_sizes.0 <= i32::MAX + 1
    &&& i32::MIN <= chunk_ids.1 * chunk_sizes.2
    &&& chunk_ids.1 * chunk_sizes.2 + chunk_sizes.2 <= i32::MAX + 1
}

/// Creates the temporary grid of a chunk, indexed `[x][y][z]`, that holds all
/// of its cells, air included: every cell is an air block at its world
/// position. Terrain generation and loading work on this grid; only the
/// blocks that are not air are later kept in the chunk's map.
pub fn create_temp_chunk_vector(chunk_ids: (i32, i32), chunk_sizes: (usize, usize, usize)) -> (grid:
    Vec<Vec<Vec<Block>>>)
    requires
        chunk_positions_fit(chunk_ids, chunk_sizes),
    ensures
        grid_has_sizes(grid@, chunk_sizes),
        forall|x: int, y: int, z: int|
            0 <= x < chunk_sizes.0 && 0 <= y < chunk_sizes.1 && 0 <= z < chunk_sizes.2
                ==> #[trigger] cell(grid@, x, y, z) == fresh_cell(chunk_ids, chunk_sizes, x, y, z),
{
    let sx = chunk_sizes.0;
    let sy = chunk_sizes.1;
    let sz = chunk_sizes.2;
    let half: i16 = sy as i16 / 2;
    let mut grid: Vec<Vec<Vec<Block>>> = Vec::with_capacity(sx);
    let mut x: usize = 0;
    while x < sx
        invariant
            chunk_positions_fit(chunk_ids, chunk_sizes),
            sx == chunk_sizes.0,
            sy == chunk_sizes.1,
            sz == chunk_sizes.2,
            half == sy as int / 2,
            x <= sx,
            grid@.len() == x,
            forall|i: int| 0 <= i < x ==> #[trigger] grid@[i]@.len() == sy,
            forall|i: int, j: int| 0 <= i < x && 0 <= j < sy ==> #[trigger] grid@[i]@[j]@.len() == sz,
            forall|i: int, j: int, k: int|
                0 <= i < x && 0 <= j < sy && 0 <= k < sz ==> #[trigger] cell(grid@, i, j, k)
                    == fresh_cell(chunk_ids, chunk_sizes, i, j, k),
        decreases sx - x,
    {
        let mut layer: Vec<Vec<Block>> = Vec::with_capacity(sy);
        let mut y: usize = 0;
        while y < sy
            invariant
                chunk_positions_fit(chunk_ids, chunk_sizes),
                sx == chunk_sizes.0,
                sy == chunk_sizes.1,
                sz == chunk_sizes.2,
                half == sy as int / 2,
                x < sx,
                y <= sy,
                layer@.len() == y,
                forall|j: int| 0 <= j < y ==> #[trigger] layer@[j]@.len() == sz,
                forall|j: int, k: int|
                    0 <= j < y && 0 <= k < sz ==> #[trigger] layer@[j]@[k] == fresh_cell(
                        chunk_ids,
                        chunk_sizes,
                        x as int,
                        j,
                        k,
                    ),
            decreases sy - y,
        {
            let mut row: Vec<Block> = Vec::with_capacity(sz);
            let mut z: usize = 0;
            while z < sz
                invariant
                    chunk_positions_fit(chunk_ids, chunk_sizes),
                    sx == chunk_sizes.0,
                    sy == chunk_sizes.1,
                    sz == chunk_sizes.2,
                    half == sy as int / 2,
                    x < sx,
                    y < sy,
                    z <= sz,
                    row@.len() == z,
                    forall|k: int|
                        0 <= k < z ==> #[trigger] row@[k] == fresh_cell(
                            chunk_ids,
                            chunk_sizes,
                            x as int,
                            y as int,
                            k,
                        ),
                decreases sz - z,
            {
                let block_pos: (i32, i16, i32) = get_world_block_pos(
                    chunk_ids.0,
                    chunk_ids.1,
                    x as i32,
                    y as i16 - half,
                    z as i32,
                    chunk_sizes,
                );
                row.push(Block::new(BlockType::Air, block_pos.0, block_pos.1, block_pos.2));
                z = z + 1;
            }
            layer.push(row);
            y = y + 1;
        }
        let ghost before = grid@;
        let ghost new_layer = layer@;
        grid.push(layer);
        assert forall|i: int, j: int, k: int|
            0 <= i <= x && 0 <= j < sy && 0 <= k < sz implies #[trigger] cell(grid@, i, j, k)
                == fresh_cell(chunk_ids, chunk_sizes, i, j, k) by {
            if i < x {
                assert(grid@[i] == before[i]);
                assert(cell(before, i, j, k) == fresh_cell(chunk_ids, chunk_sizes, i, j, k));
            } else {
                assert(grid@[i]@ == new_layer);
                assert(new_layer[j]@[k] == fresh_cell(chunk_ids, chunk_sizes, x as int, j, k));
            }
        }
        x = x + 1;
    }
    grid
}

/// The blocks of one layer, row by row.
pub open spec fn layer_blocks(layer: Seq<Vec<Block>>) -> Seq<Block>
    decreases layer.len(),
{
    if layer.len() == 0 {
        Seq::empty()
    } else {
        layer_blocks(layer.drop_last()) + layer.last()@
    }
}

/// The blocks of a grid in the order `[x][y][z]` with `z` running fastest:
/// the order in which the grid is walked.
pub open spec fn grid_blocks(grid: Seq<Vec<Vec<Block>>>) -> Seq<Block>
    decreases grid.len(),
{
    if grid.len() == 0 {
        Seq::empty()
    } else {
        grid_blocks(grid.drop_last()) + layer_blocks(grid.last()@)
    }
}

/// The blocks walked before cell `[x][y][z]`.
pub open spec fn walked(grid: Seq<Vec<Vec<Block>>>, x: int, y: int, z: int) -> Seq<Block> {
    grid_blocks(grid.take(x)) + layer_blocks(grid[x]@.take(y)) + grid[x]@[y]@.take(z)
}

/// A block that is not air; the chunk keeps these.
pub open spec fn is_solid(b: Block) -> bool {
    b.block_type != BlockType::Air
}

/// A block that is not air and touches air; the chunk draws these.
pub open spec fn is_visible(b: Block) -> bool {
    b.block_type != BlockType::Air && b.touching_air
}

/// Whether `b` is kept: every solid block, or only the visible ones.
pub open spec fn kept(b: Block, visible_only: bool) -> bool {
    if visible_only {
        is_visible(b)
    } else {
        is_solid(b)
    }
}

/// The map key of a block: the key of its position.
pub open spec fn block_key_of(b: Block) -> u128 {
    position_key(b.position) as u128
}

/// The map `m` after inserting, in order, each block of `blocks` that is
/// kept under its position's key; a later block with the same key replaces
/// an earlier one.
pub open spec fn add_blocks(m: Map<u128, Block>, blocks: Seq<Block>, visible_only: bool) -> Map<
    u128,
    Block,
>
    decreases blocks.len(),
{
    if blocks.len() == 0 {
        m
    } else {
        let before = add_blocks(m, blocks.drop_last(), visible_only);
        let b = blocks.last();
        if kept(b, visible_only) {
            before.insert(block_key_of(b), b)
        } else {
            before
        }
    }
}

/// The key and block pairs that inserting the kept blocks of `blocks` makes.
pub open spec fn kept_pairs(blocks: Seq<Block>, visible_only: bool) -> Seq<(u128, Block)>
    decreases blocks.len(),
{
    if blocks.len() == 0 {
        Seq::empty()
    } else {
        let before = kept_pairs(blocks.drop_last(), visible_only);
        let b = blocks.last();
        if kept(b, visible_only) {
            before.push((block_key_of(b), b))
        } else {
            before
        }
    }
}

/// The map `m` after inserting the pairs in order.
pub open spec fn insert_pairs(m: Map<u128, Block>, pairs: Seq<(u128, Block)>) -> Map<u128, Block>
    decreases pairs.len(),
{
    if pairs.len() == 0 {
        m
    } else {
        insert_pairs(m, pairs.drop_last()).insert(pairs.last().0, pairs.last().1)
    }
}

pub proof fn lemma_add_blocks_push(m: Map<u128, Block>, s: Seq<Block>, b: Block, visible_only: bool)
    ensures
        add_blocks(m, s.push(b), visible_only) == if kept(b, visible_only) {
            add_blocks(m, s, visible_only).insert(block_key_of(b), b)
        } else {
            add_blocks(m, s, visible_only)
        },
        kept_pairs(s.push(b), visible_only) == if kept(b, visible_only) {
            kept_pairs(s, visible_only).push((block_key_of(b), b))
        } else {
            kept_pairs(s, visible_only)
        },
{
    assert(s.push(b).drop_last() =~= s);
}

pub proof fn lemma_insert_pairs_push(m: Map<u128, Block>, p: Seq<(u128, Block)>, e: (u128, Block))
    ensures
        insert_pairs(m, p.push(e)) == insert_pairs(m, p).insert(e.0, e.1),
{
    assert(p.push(e).drop_last() =~= p);
}

/// Inserting the kept pairs of a sequence of blocks is adding its kept blocks.
pub proof fn lemma_insert_kept_pairs(m: Map<u128, Block>, s: Seq<Block>, visible_only: bool)
    ensures
        insert_pairs(m, kept_pairs(s, visible_only)) == add_blocks(m, s, visible_only),
    decreases s.len(),
{
    if s.len() > 0 {
        lemma_insert_kept_pairs(m, s.drop_last(), visible_only);
        if kept(s.last(), visible_only) {
            lemma_insert_pairs_push(
                m,
                kept_pairs(s.drop_last(), visible_only),
                (block_key_of(s.last()), s.last()),
            );
        }
    }
}

/// Walking one more row of a layer.
pub proof fn lemma_layer_blocks_take(layer: Seq<Vec<Block>>, y: int)
    requires
        0 <= y < layer.len(),
    ensures
        layer_blocks(layer.take(y + 1)) == layer_blocks(layer.take(y)) + layer[y]@,
{
    assert(layer.take(y + 1).drop_last() =~= layer.take(y));
}

/// Walking one more layer of a grid.
pub proof fn lemma_grid_blocks_take(grid: Seq<Vec<Vec<Block>>>, x: int)
    requires
        0 <= x < grid.len(),
    ensures
        grid_blocks(grid.take(x + 1)) == grid_blocks(grid.take(x)) + layer_blocks(grid[x]@),
{
    assert(grid.take(x + 1).drop_last() =~= grid.take(x));
}

/// Finishing a row of the walk, then a layer.
pub proof fn lemma_walk_row_done(grid: Seq<Vec<Vec<Block>>>, x: int, y: int)
    requires
        0 <= x < grid.len(),
        0 <= y < grid[x]@.len(),
    ensures
        walked(grid, x, y, grid[x]@[y]@.len() as int) == grid_blocks(grid.take(x)) + layer_blocks(
            grid[x]@.take(y + 1),
        ),
{
    lemma_layer_blocks_take(grid[x]@, y);
    assert(grid[x]@[y]@.take(grid[x]@[y]@.len() as int) =~= grid[x]@[y]@);
    assert(walked(grid, x, y, grid[x]@[y]@.len() as int) =~= grid_blocks(grid.take(x))
        + layer_blocks(grid[x]@.take(y + 1)));
}

pub proof fn lemma_walk_layer_done(grid: Seq<Vec<Vec<Block>>>, x: int)
    requires
        0 <= x < grid.len(),
    ensures
        grid_blocks(grid.take(x)) + layer_blocks(grid[x]@.take(grid[x]@.len() as int))
            == grid_blocks(grid.take(x + 1)),
{
    lemma_grid_blocks_take(grid, x);
    assert(grid[x]@.take(grid[x]@.len() as int) =~= grid[x]@);
}

pub proof fn lemma_walk_start(grid: Seq<Vec<Vec<Block>>>, x: int, y: int)
    requires
        0 <= x < grid.len(),
        0 <= y < grid[x]@.len(),
    ensures
        walked(grid, x, y, 0) == grid_blocks(grid.take(x)) + layer_blocks(grid[x]@.take(y)),
{
    assert(grid[x]@[y]@.take(0) =~= Seq::<Block>::empty());
    assert(walked(grid, x, y, 0) =~= grid_blocks(grid.take(x)) + layer_blocks(grid[x]@.take(y)));
}

pub proof fn lemma_walk_step(grid: Seq<Vec<Vec<Block>>>, x: int, y: int, z: int)
    requires
        0 <= x < grid.len(),
        0 <= y < grid[x]@.len(),
        0 <= z < grid[x]@[y]@.len(),
    ensures
        walked(grid, x, y, z + 1) == walked(grid, x, y, z).push(grid[x]@[y]@[z]),
{
    assert(grid[x]@[y]@.take(z + 1) =~= grid[x]@[y]@.take(z).push(grid[x]@[y]@[z]));
    assert(walked(grid, x, y, z + 1) =~= walked(grid, x, y, z).push(grid[x]@[y]@[z]));
}

pub proof fn lemma_grid_take_all(grid: Seq<Vec<Vec<Block>>>)
    ensures
        grid_blocks(grid.take(grid.len() as int)) == grid_blocks(grid),
        grid_blocks(grid.take(0)) == Seq::<Block>::empty(),
        forall|layer: Seq<Vec<Block>>| #[trigger] layer_blocks(layer.take(0)) == Seq::<Block>::empty(),
{
    assert(grid.take(grid.len() as int) =~= grid);
    assert(grid.take(0) =~= Seq::<Vec<Vec<Block>>>::empty());
    assert forall|layer: Seq<Vec<Block>>| #[trigger] layer_blocks(layer.take(0)) == Seq::<Block>::empty() by {
        assert(layer.take(0) =~= Seq::<Vec<Block>>::empty());
    }
}

/// Once the temporary grid of a chunk holds all of its blocks, moves them
/// into the chunk's maps: every block that is not air goes into
/// `chunk_blocks` under the key of its position, and every one of those that
/// touches air also goes into `instances_to_render`. Blocks are taken in the
/// order `[x][y][z]`, so when two blocks share a position the later one stays.
pub fn fill_chunk_hashmap(
    chunk_blocks: &mut HashMap<u128, Block>,
    instances_to_render: &mut HashMap<u128, Block>,
    temp_chunk_vec: Vec<Vec<Vec<Block>>>,
    chunk_sizes: (usize, usize, usize),
)
    ensures
        final(chunk_blocks)@ == add_blocks(old(chunk_blocks)@, grid_blocks(temp_chunk_vec@), false),
        final(instances_to_render)@ == add_blocks(
            old(instances_to_render)@,
            grid_blocks(temp_chunk_vec@),
            true,
        ),
{
    broadcast use vstd::std_specs::hash::group_hash_axioms;

    let ghost g = temp_chunk_vec@;
    let mut blocks_to_insert: Vec<(u128, Block)> = Vec::new();
    let mut instances_to_insert: Vec<(u128, Block)> = Vec::new();
    proof {
        lemma_grid_take_all(g);
    }
    let mut x: usize = 0;
    while x < temp_chunk_vec.len()
        invariant
            g == temp_chunk_vec@,
            x <= g.len(),
            blocks_to_insert@ == kept_pairs(grid_blocks(g.take(x as int)), false),
            instances_to_insert@ == kept_pairs(grid_blocks(g.take(x as int)), true),
        decreases g.len() - x,
    {
        let layer: &Vec<Vec<Block>> = &temp_chunk_vec[x];
        let mut y: usize = 0;
        proof {
            lemma_grid_take_all(g);
        }
        while y < layer.len()
            invariant
                g == temp_chunk_vec@,
                x < g.len(),
                *layer == g[x as int],
                y <= layer@.len(),
                blocks_to_insert@ == kept_pairs(
                    grid_blocks(g.take(x as int)) + layer_blocks(layer@.take(y as int)),
                    false,
                ),
                instances_to_insert@ == kept_pairs(
                    grid_blocks(g.take(x as int)) + layer_blocks(layer@.take(y as int)),
                    true,
                ),
            decreases layer@.len() - y,
        {
            let row: &Vec<Block> = &layer[y];
            let mut z: usize = 0;
            proof {
                lemma_walk_start(g, x as int, y as int);
            }
            while z < row.len()
                invariant
                    g == temp_chunk_vec@,
                    x < g.len(),
                    *layer == g[x as int],
                    y < layer@.len(),
                    *row == layer@[y as int],
                    z <= row@.len(),
                    blocks_to_insert@ == kept_pairs(walked(g, x as int, y as int, z as int), false),
                    instances_to_insert@ == kept_pairs(walked(g, x as int, y as int, z as int), true),
                decreases row@.len() - z,
            {
                let block: Block = row[z];
                proof {
                    lemma_walk_step(g, x as int, y as int, z as int);
                    lemma_add_blocks_push(Map::empty(), walked(g, x as int, y as int, z as int), block, false);
                    lemma_add_blocks_push(Map::empty(), walked(g, x as int, y as int, z as int), block, true);
                }
                if block.block_type != BlockType::Air {
                    let cached_key: u128 = position_key_of(&block.position);
                    blocks_to_insert.push((cached_key, block));
                    if block.touching_air {
                        instances_to_insert.push((cached_key, block));
                    }
                }
                z = z + 1;
            }
            proof {
                lemma_walk_row_done(g, x as int, y as int);
            }
            y = y + 1;
        }
        proof {
            lemma_walk_layer_done(g, x as int);
        }
        x = x + 1;
    }
    proof {
        lemma_grid_take_all(g);
        lemma_insert_kept_pairs(old(chunk_blocks)@, grid_blocks(g), false);
        lemma_insert_kept_pairs(old(instances_to_render)@, grid_blocks(g), true);
    }
    let ghost start_blocks = chunk_blocks@;
    chunk_blocks.reserve(blocks_to_insert.len());
    let mut i: usize = 0;
    while i < blocks_to_insert.len()
        invariant
            i <= blocks_to_insert@.len(),
            chunk_blocks@ == insert_pairs(start_blocks, blocks_to_insert@.take(i as int)),
        decreases blocks_to_insert@.len() - i,
    {
        let (k, b) = blocks_to_insert[i];
        proof {
            assert(blocks_to_insert@.take(i + 1) =~= blocks_to_insert@.take(i as int).push((k, b)));
            lemma_insert_pairs_push(start_blocks, blocks_to_insert@.take(i as int), (k, b));
        }
        chunk_blocks.insert(k, b);
        i = i + 1;
    }
    assert(blocks_to_insert@.take(blocks_to_insert@.len() as int) =~= blocks_to_insert@);
    let ghost start_instances = instances_to_render@;
    instances_to_render.reserve(instances_to_insert.len());
    let mut j: usize = 0;
    while j < instances_to_insert.len()
        invariant
            j <= instances_to_insert@.len(),
            instances_to_render@ == insert_pairs(start_instances, instances_to_insert@.take(j as int)),
        decreases instances_to_insert@.len() - j,
    {
        let (k, b) = instances_to_insert[j];
        proof {
            assert(instances_to_insert@.take(j + 1) =~= instances_to_insert@.take(j as int).push((k, b)));
            lemma_insert_pairs_push(start_instances, instances_to_insert@.take(j as int), (k, b));
        }
        instances_to_render.insert(k, b);
        j = j + 1;
    }
    assert(instances_to_insert@.take(instances_to_insert@.len() as int) =~= instances_to_insert@);
}

/// Every entry added to an empty map comes from a kept block of the
/// sequence, under that block's key.
pub proof fn lemma_add_blocks_entry(blocks: Seq<Block>, visible_only: bool, k: u128)
    requires
        add_blocks(Map::empty(), blocks, visible_only).dom().contains(k),
    ensures
        exists|i: int|
            0 <= i < blocks.len() && kept(blocks[i], visible_only) && block_key_of(blocks[i]) == k
                && #[trigger] add_blocks(Map::empty(), blocks, visible_only)[k] == blocks[i],
    decreases blocks.len(),
{
    let prev = blocks.drop_last();
    let b = blocks.last();
    if kept(b, visible_only) && block_key_of(b) == k {
        assert(add_blocks(Map::empty(), blocks, visible_only)[k] == blocks[blocks.len() - 1]);
    } else {
        assert(add_blocks(Map::empty(), prev, visible_only).dom().contains(k));
        lemma_add_blocks_entry(prev, visible_only, k);
        let i = choose|i: int|
            0 <= i < prev.len() && kept(prev[i], visible_only) && block_key_of(prev[i]) == k
                && #[trigger] add_blocks(Map::empty(), prev, visible_only)[k] == prev[i];
        assert(prev[i] == blocks[i]);
        assert(add_blocks(Map::empty(), blocks, visible_only)[k] == blocks[i]);
    }
}

/// Every kept block of the sequence has an entry under its key.
pub proof fn lemma_add_blocks_has(m: Map<u128, Block>, blocks: Seq<Block>, visible_only: bool, i: int)
    requires
        0 <= i < blocks.len(),
        kept(blocks[i], visible_only),
    ensures
        add_blocks(m, blocks, visible_only).dom().contains(block_key_of(blocks[i])),
    decreases blocks.len(),
{
    if i < blocks.len() - 1 {
        let prev = blocks.drop_last();
        assert(prev[i] == blocks[i]);
        lemma_add_blocks_has(m, prev, visible_only, i);
    }
}

/// Each block of a layer's sequence is one of its cells.
proof fn lemma_layer_blocks_cells(layer: Seq<Vec<Block>>, i: int)
    requires
        0 <= i < layer_blocks(layer).len(),
    ensures
        exists|y: int, z: int| 0 <= y < layer.len() && 0 <= z < layer[y]@.len() && layer_blocks(layer)[i] == #[trigger] layer[y]@[z],
    decreases layer.len(),
{
    if layer.len() > 0 {
        let prev = layer.drop_last();
        if i < layer_blocks(prev).len() {
            lemma_layer_blocks_cells(prev, i);
            let (y, z) = choose|y: int, z: int| 0 <= y < prev.len() && 0 <= z < prev[y]@.len() && layer_blocks(prev)[i] == #[trigger] prev[y]@[z];
            assert(layer[y] == prev[y]);
            assert(layer_blocks(layer)[i] == layer[y]@[z]);
        } else {
            let z = i - layer_blocks(prev).len();
            assert(layer_blocks(layer)[i] == layer[layer.len() - 1]@[z]);
        }
    }
}

/// Each cell of a layer is in the layer's sequence of blocks.
proof fn lemma_layer_cells_blocks(layer: Seq<Vec<Block>>, y: int, z: int)
    requires
        0 <= y < layer.len(),
        0 <= z < layer[y]@.len(),
    ensures
        exists|i: int| 0 <= i < layer_blocks(layer).len() && #[trigger] layer_blocks(layer)[i] == layer[y]@[z],
    decreases layer.len(),
{
    let prev = layer.drop_last();
    if y < layer.len() - 1 {
        assert(layer[y] == prev[y]);
        lemma_layer_cells_blocks(prev, y, z);
        let i = choose|i: int| 0 <= i < layer_blocks(prev).len() && #[trigger] layer_blocks(prev)[i] == prev[y]@[z];
        assert(layer_blocks(layer)[i] == layer_blocks(prev)[i]);
    } else {
        let i = layer_blocks(prev).len() + z;
        assert(layer_blocks(layer)[i] == layer[y]@[z]);
    }
}

/// Each block of a grid's sequence is one of its cells.
pub proof fn lemma_grid_blocks_cells(grid: Seq<Vec<Vec<Block>>>, i: int)
    requires
        0 <= i < grid_blocks(grid).len(),
    ensures
        exists|x: int, y: int, z: int|
            0 <= x < grid.len() && 0 <= y < grid[x]@.len() && 0 <= z < grid[x]@[y]@.len() && grid_blocks(grid)[i]
                == #[trigger] cell(grid, x, y, z),
    decreases grid.len(),
{
    if grid.len() > 0 {
        let prev = grid.drop_last();
        if i < grid_blocks(prev).len() {
            lemma_grid_blocks_cells(prev, i);
            let (x, y, z) = choose|x: int, y: int, z: int|
                0 <= x < prev.len() && 0 <= y < prev[x]@.len() && 0 <= z < prev[x]@[y]@.len() && grid_blocks(prev)[i]
                    == #[trigger] cell(prev, x, y, z);
            assert(grid[x] == prev[x]);
            assert(grid_blocks(grid)[i] == cell(grid, x, y, z));
        } else {
            let j = i - grid_blocks(prev).len();
            let last = grid[grid.len() - 1]@;
            lemma_layer_blocks_cells(last, j);
            let (y, z) = choose|y: int, z: int| 0 <= y < last.len() && 0 <= z < last[y]@.len() && layer_blocks(last)[j] == #[trigger] last[y]@[z];
            assert(grid_blocks(grid)[i] == cell(grid, grid.len() - 1, y, z));
        }
    }
}

/// Each cell of a grid is in the grid's sequence of blocks.
pub proof fn lemma_grid_cells_blocks(grid: Seq<Vec<Vec<Block>>>, x: int, y: int, z: int)
    requires
        0 <= x < grid.len(),
        0 <= y < grid[x]@.len(),
        0 <= z < grid[x]@[y]@.len(),
    ensures
        exists|i: int| 0 <= i < grid_blocks(grid).len() && #[trigger] grid_blocks(grid)[i] == cell(grid, x, y, z),
    decreases grid.len(),
{
    let prev = grid.drop_last();
    if x < grid.len() - 1 {
        assert(grid[x] == prev[x]);
        lemma_grid_cells_blocks(prev, x, y, z);
        let i = choose|i: int| 0 <= i < grid_blocks(prev).len() && #[trigger] grid_blocks(prev)[i] == cell(prev, x, y, z);
        assert(grid_blocks(grid)[i] == grid_blocks(prev)[i]);
    } else {
        lemma_layer_cells_blocks(grid[x]@, y, z);
        let j = choose|j: int| 0 <= j < layer_blocks(grid[x]@).len() && #[trigger] layer_blocks(grid[x]@)[j] == grid[x]@[y]@[z];
        let i = grid_blocks(prev).len() + j;
        assert(grid_blocks(grid)[i] == cell(grid, x, y, z));
    }
}

/// Adding blocks to a map grows it by at most one entry per block.
pub proof fn lemma_add_blocks_len(m: Map<u128, Block>, blocks: Seq<Block>, visible_only: bool)
    requires
        m.dom().finite(),
    ensures
        add_blocks(m, blocks, visible_only).dom().finite(),
        add_blocks(m, blocks, visible_only).dom().len() <= m.dom().len() + blocks.len(),
    decreases blocks.len(),
{
    broadcast use vstd::set::group_set_axioms;

    if blocks.len() > 0 {
        lemma_add_blocks_len(m, blocks.drop_last(), visible_only);
    }
}

/// A grid with these dimensions holds one block per cell.
pub proof fn lemma_grid_blocks_len(grid: Seq<Vec<Vec<Block>>>, chunk_sizes: (usize, usize, usize))
    requires
        grid_has_sizes(grid, chunk_sizes),
    ensures
        grid_blocks(grid).len() == cell_count(chunk_sizes),
{
    lemma_grid_blocks_prefix_len(grid, chunk_sizes, chunk_sizes.0 as int);
    assert(grid.take(chunk_sizes.0 as int) =~= grid);
    assert(chunk_sizes.0 * (chunk_sizes.1 * chunk_sizes.2) == cell_count(chunk_sizes)) by (nonlinear_arith);
}

proof fn lemma_layer_blocks_len(layer: Seq<Vec<Block>>, rows: int, row_len: int)
    requires
        0 <= rows <= layer.len(),
        forall|y: int| 0 <= y < layer.len() ==> #[trigger] layer[y]@.len() == row_len,
    ensures
        layer_blocks(layer.take(rows)).len() == rows * row_len,
    decreases rows,
{
    if rows > 0 {
        lemma_layer_blocks_len(layer, rows - 1, row_len);
        lemma_layer_blocks_take(layer, rows - 1);
        assert((rows - 1) * row_len + row_len == rows * row_len) by (nonlinear_arith);
    } else {
        assert(layer.take(0) =~= Seq::<Vec<Block>>::empty());
    }
}

proof fn lemma_grid_blocks_prefix_len(grid: Seq<Vec<Vec<Block>>>, chunk_sizes: (usize, usize, usize), cols: int)
    requires
        grid_has_sizes(grid, chunk_sizes),
        0 <= cols <= chunk_sizes.0,
    ensures
        grid_blocks(grid.take(cols)).len() == cols * (chunk_sizes.1 * chunk_sizes.2),
    decreases cols,
{
    if cols > 0 {
        lemma_grid_blocks_prefix_len(grid, chunk_sizes, cols - 1);
        lemma_grid_blocks_take(grid, cols - 1);
        let layer = grid[cols - 1]@;
        assert forall|y: int| 0 <= y < layer.len() implies #[trigger] layer[y]@.len() == chunk_sizes.2 by {
            assert(grid[cols - 1]@[y]@.len() == chunk_sizes.2);
        }
        lemma_layer_blocks_len(layer, layer.len() as int, chunk_sizes.2 as int);
        assert(layer.take(layer.len() as int) =~= layer);
        assert((cols - 1) * (chunk_sizes.1 * chunk_sizes.2) + chunk_sizes.1 * chunk_sizes.2 == cols * (chunk_sizes.1
            * chunk_sizes.2)) by (nonlinear_arith);
    } else {
        assert(grid.take(0) =~= Seq::<Vec<Vec<Block>>>::empty());
    }
}

/// The text a chunk created before was saved in, read: the block id of
/// each cell the text writes; nothing when no text is given.
pub open spec fn saved_cells(saved_text: Option<&Vec<u8>>, chunk_sizes: (usize, usize, usize)) -> Map<(int, int, int), u16> {
    match saved_text {
        Some(t) => chunk_read(t@, chunk_sizes).cells,
        None => Map::empty(),
    }
}

/// The kind of cell `(x, y, z)` of a chunk as it is loaded, before the air
/// check: for a chunk created before, the kind its saved text writes there,
/// or air; for a new chunk, the generated terrain up to half its height and
/// air above.
pub open spec fn loaded_kind(
    created_before: bool,
    saved: Map<(int, int, int), u16>,
    chunk_sizes: (usize, usize, usize),
    x: int,
    y: int,
    z: int,
) -> BlockType {
    if created_before {
        if saved.contains_key((x, y, z)) {
            kind_of_id(saved[(x, y, z)])
        } else {
            BlockType::Air
        }
    } else if y < chunk_sizes.1 as int / 2 {
        generated_layer_type(y, chunk_sizes.1 as int / 2)
    } else {
        BlockType::Air
    }
}

/// Cell `(x, y, z)` of a loaded chunk is not air and one of its six
/// neighbours inside the chunk is.
pub open spec fn loaded_touches_air(
    created_before: bool,
    saved: Map<(int, int, int), u16>,
    chunk_sizes: (usize, usize, usize),
    x: int,
    y: int,
    z: int,
) -> bool {
    let air = |a: int, b: int, c: int| loaded_kind(created_before, saved, chunk_sizes, a, b, c) == BlockType::Air;
    &&& !air(x, y, z)
    &&& {
        ||| (x > 0 && air(x - 1, y, z))
        ||| (x + 1 < chunk_sizes.0 && air(x + 1, y, z))
        ||| (y > 0 && air(x, y - 1, z))
        ||| (y + 1 < chunk_sizes.1 && air(x, y + 1, z))
        ||| (z > 0 && air(x, y, z - 1))
        ||| (z + 1 < chunk_sizes.2 && air(x, y, z + 1))
    }
}

/// Cell `(x, y, z)` of the temporary grid of a loaded chunk: the block at
/// the cell's world position with its loaded kind, marked when it touches air.
pub open spec fn loaded_cell(
    chunk_ids: (i32, i32),
    created_before: bool,
    saved: Map<(int, int, int), u16>,
    chunk_sizes: (usize, usize, usize),
    x: int,
    y: int,
    z: int,
) -> Block {
    Block {
        block_type: loaded_kind(created_before, saved, chunk_sizes, x, y, z),
        position: fresh_cell(chunk_ids, chunk_sizes, x, y, z).position,
        touching_air: loaded_touches_air(created_before, saved, chunk_sizes, x, y, z),
    }
}

/// In a loaded chunk a block is marked as touching air, and so drawn,
/// exactly when it is not air and one of its six neighbours inside the
/// chunk is air.
pub proof fn loaded_blocks_touching_air(
    chunk_ids: (i32, i32),
    created_before: bool,
    saved: Map<(int, int, int), u16>,
    chunk_sizes: (usize, usize, usize),
    x: int,
    y: int,
    z: int,
)
    requires
        in_chunk(chunk_sizes, x, y, z),
    ensures
        ({
            let kind = |a: int, b: int, c: int| loaded_cell(chunk_ids, created_before, saved, chunk_sizes, a, b, c).block_type;
            loaded_cell(chunk_ids, created_before, saved, chunk_sizes, x, y, z).touching_air == (kind(x, y, z)
                != BlockType::Air && ((x > 0 && kind(x - 1, y, z) == BlockType::Air) || (x + 1 < chunk_sizes.0
                && kind(x + 1, y, z) == BlockType::Air) || (y > 0 && kind(x, y - 1, z) == BlockType::Air) || (y
                + 1 < chunk_sizes.1 && kind(x, y + 1, z) == BlockType::Air) || (z > 0 && kind(x, y, z - 1)
                == BlockType::Air) || (z + 1 < chunk_sizes.2 && kind(x, y, z + 1) == BlockType::Air)))
        }),
{
}

/// What a chunk created for the first time holds: below half its height,
/// bedrock at the bottom (when there is room for more than dirt and
/// grass), then stone up to three layers below the halfway layer, two
/// layers of dirt and a layer of grass; air from half its height up.
pub proof fn new_chunk_layers(
    saved: Map<(int, int, int), u16>,
    chunk_sizes: (usize, usize, usize),
    x: int,
    y: int,
    z: int,
)
    requires
        chunk_sizes.1 / 2 >= 3,
        in_chunk(chunk_sizes, x, y, z),
    ensures
        ({
            let h = chunk_sizes.1 as int / 2;
            let t = loaded_kind(false, saved, chunk_sizes, x, y, z);
            &&& (y == 0 && h > 3 ==> t == BlockType::Bedrock)
            &&& (1 <= y < h - 3 ==> t == BlockType::Stone)
            &&& (h - 3 <= y < h - 1 ==> t == BlockType::Dirt)
            &&& (y == h - 1 ==> t == BlockType::Grass)
            &&& (y >= h ==> t == BlockType::Air)
        }),
{
}

/// Dimensions a chunk can be loaded with.
pub open spec fn loadable_sizes(chunk_ids: (i32, i32), chunk_sizes: (usize, usize, usize)) -> bool {
    &&& chunk_positions_fit(chunk_ids, chunk_sizes)
    &&& chunk_sizes.0 * chunk_sizes.1 <= usize::MAX
    &&& cell_count(chunk_sizes) <= usize::MAX
}

/// Why a chunk could not be loaded.
#[derive(Clone, Copy, Debug, PartialEq, Eq, Structural)]
pub enum LoadChunkError {
    /// The chunk was created before but its saved text was not given.
    MissingFile,
    /// The chunk's saved text is malformed.
    Malformed,
}

/// Cell `(x, y, z)` of a loaded chunk before the air check.
pub open spec fn loaded_base_cell(
    chunk_ids: (i32, i32),
    created_before: bool,
    saved: Map<(int, int, int), u16>,
    chunk_sizes: (usize, usize, usize),
    x: int,
    y: int,
    z: int,
) -> Block {
    Block { touching_air: false, ..loaded_cell(chunk_ids, created_before, saved, chunk_sizes, x, y, z) }
}

proof fn lemma_read_base(
    g0: Seq<Vec<Vec<Block>>>,
    g1: Seq<Vec<Vec<Block>>>,
    id: (i32, i32),
    saved: Map<(int, int, int), u16>,
    chunk_sizes: (usize, usize, usize),
)
    requires
        forall|x: int, y: int, z: int|
            0 <= x < chunk_sizes.0 && 0 <= y < chunk_sizes.1 && 0 <= z < chunk_sizes.2 ==> #[trigger] cell(g0, x, y, z)
                == fresh_cell(id, chunk_sizes, x, y, z),
        forall|x: int, y: int, z: int|
            in_chunk(chunk_sizes, x, y, z) ==> {
                let c = #[trigger] cell(g1, x, y, z);
                &&& c == crate::chunk_file::with_kind(cell(g0, x, y, z), c.block_type)
                &&& if saved.contains_key((x, y, z)) {
                    crate::block_type::block_id(c.block_type) == saved[(x, y, z)]
                } else {
                    c == cell(g0, x, y, z)
                }
            },
    ensures
        forall|x: int, y: int, z: int| in_chunk(chunk_sizes, x, y, z) ==> #[trigger] cell(g1, x, y, z)
            == loaded_base_cell(id, true, saved, chunk_sizes, x, y, z),
{
    assert forall|x: int, y: int, z: int| in_chunk(chunk_sizes, x, y, z) implies #[trigger] cell(g1, x, y, z)
        == loaded_base_cell(id, true, saved, chunk_sizes, x, y, z) by {
        assert(cell(g0, x, y, z) == fresh_cell(id, chunk_sizes, x, y, z));
        let c = cell(g1, x, y, z);
        if saved.contains_key((x, y, z)) {
            kind_of_block_id(c.block_type);
        }
    }
}

proof fn lemma_generated_base(
    g0: Seq<Vec<Vec<Block>>>,
    g1: Seq<Vec<Vec<Block>>>,
    id: (i32, i32),
    saved: Map<(int, int, int), u16>,
    chunk_sizes: (usize, usize, usize),
)
    requires
        grid_has_sizes(g0, chunk_sizes),
        forall|x: int, y: int, z: int|
            0 <= x < chunk_sizes.0 && 0 <= y < chunk_sizes.1 && 0 <= z < chunk_sizes.2 ==> #[trigger] cell(g0, x, y, z)
                == fresh_cell(id, chunk_sizes, x, y, z),
        crate::chunk::create_chunks::same_shape(g1, g0),
        forall|x: int, y: int, z: int|
            0 <= x < g0.len() && 0 <= y < g0[x]@.len() && 0 <= z < g0[x]@[y]@.len() ==> #[trigger] cell(g1, x, y, z)
                == crate::chunk::create_chunks::generated_cell(g0, chunk_sizes, chunk_sizes.1 / 2, x, y, z),
    ensures
        grid_has_sizes(g1, chunk_sizes),
        forall|x: int, y: int, z: int| in_chunk(chunk_sizes, x, y, z) ==> #[trigger] cell(g1, x, y, z)
            == loaded_base_cell(id, false, saved, chunk_sizes, x, y, z),
{
    assert forall|x: int, y: int, z: int| in_chunk(chunk_sizes, x, y, z) implies #[trigger] cell(g1, x, y, z)
        == loaded_base_cell(id, false, saved, chunk_sizes, x, y, z) by {
        assert(cell(g0, x, y, z) == fresh_cell(id, chunk_sizes, x, y, z));
        assert(cell(g1, x, y, z) == crate::chunk::create_chunks::generated_cell(g0, chunk_sizes, chunk_sizes.1 / 2, x, y, z));
    }
}

proof fn lemma_touches_loaded(
    g1: Seq<Vec<Vec<Block>>>,
    id: (i32, i32),
    before: bool,
    saved: Map<(int, int, int), u16>,
    chunk_sizes: (usize, usize, usize),
)
    requires
        forall|x: int, y: int, z: int| in_chunk(chunk_sizes, x, y, z) ==> #[trigger] cell(g1, x, y, z)
            == loaded_base_cell(id, before, saved, chunk_sizes, x, y, z),
    ensures
        forall|x: int, y: int, z: int| in_chunk(chunk_sizes, x, y, z) ==>
            #[trigger] touches_air(g1, chunk_sizes, x, y, z) == loaded_touches_air(before, saved, chunk_sizes, x, y, z),
{
    assert forall|x: int, y: int, z: int| in_chunk(chunk_sizes, x, y, z) implies
        #[trigger] touches_air(g1, chunk_sizes, x, y, z) == loaded_touches_air(before, saved, chunk_sizes, x, y, z) by {
        assert(cell(g1, x, y, z).block_type == loaded_kind(before, saved, chunk_sizes, x, y, z));
        if x > 0 {
            assert(cell(g1, x - 1, y, z).block_type == loaded_kind(before, saved, chunk_sizes, x - 1, y, z));
        }
        if x + 1 < chunk_sizes.0 {
            assert(cell(g1, x + 1, y, z).block_type == loaded_kind(before, saved, chunk_sizes, x + 1, y, z));
        }
        if y > 0 {
            assert(cell(g1, x, y - 1, z).block_type == loaded_kind(before, saved, chunk_sizes, x, y - 1, z));
        }
        if y + 1 < chunk_sizes.1 {
            assert(cell(g1, x, y + 1, z).block_type == loaded_kind(before, saved, chunk_sizes, x, y + 1, z));
        }
        if z > 0 {
            assert(cell(g1, x, y, z - 1).block_type == loaded_kind(before, saved, chunk_sizes, x, y, z - 1));
        }
        if z + 1 < chunk_sizes.2 {
            assert(cell(g1, x, y, z + 1).block_type == loaded_kind(before, saved, chunk_sizes, x, y, z + 1));
        }
    }
}

proof fn lemma_loaded_after_air_check(
    g1: Seq<Vec<Vec<Block>>>,
    g2: Seq<Vec<Vec<Block>>>,
    id: (i32, i32),
    before: bool,
    saved: Map<(int, int, int), u16>,
    chunk_sizes: (usize, usize, usize),
)
    requires
        forall|x: int, y: int, z: int| in_chunk(chunk_sizes, x, y, z) ==> #[trigger] cell(g1, x, y, z)
            == loaded_base_cell(id, before, saved, chunk_sizes, x, y, z),
        forall|x: int, y: int, z: int| in_chunk(chunk_sizes, x, y, z) ==>
            #[trigger] touches_air(g1, chunk_sizes, x, y, z) == loaded_touches_air(before, saved, chunk_sizes, x, y, z),
        forall|x: int, y: int, z: int|
            in_chunk(chunk_sizes, x, y, z) ==> #[trigger] cell(g2, x, y, z)
                == crate::chunk::chunk_gpu_functions::with_touching_air(
                cell(g1, x, y, z),
                touches_air(g1, chunk_sizes, x, y, z),
            ),
    ensures
        forall|x: int, y: int, z: int| in_chunk(chunk_sizes, x, y, z) ==> #[trigger] cell(g2, x, y, z)
            == loaded_cell(id, before, saved, chunk_sizes, x, y, z),
{
    assert forall|x: int, y: int, z: int| in_chunk(chunk_sizes, x, y, z) implies #[trigger] cell(g2, x, y, z)
        == loaded_cell(id, before, saved, chunk_sizes, x, y, z) by {
        assert(cell(g1, x, y, z) == loaded_base_cell(id, before, saved, chunk_sizes, x, y, z));
        assert(touches_air(g1, chunk_sizes, x, y, z) == loaded_touches_air(before, saved, chunk_sizes, x, y, z));
    }
}

impl Chunk {
    /// Fills a chunk that has no blocks yet. A chunk created before is read
    /// from its saved text; a new one gets generated terrain and is recorded
    /// as created. Every block is marked when it touches air, the blocks
    /// that are not air go into the chunk's map and those that touch air
    /// into the map of drawn blocks, and the chunk's counts are updated.
    /// When the saved text is missing or malformed, nothing changes.
    pub fn load_chunk(
        &mut self,
        file_system: &FileSystem,
        chunk_sizes: (usize, usize, usize),
        created_chunks: &mut HashSet<u64>,
        saved_text: Option<&Vec<u8>>,
    ) -> (r: Result<(), LoadChunkError>)
        requires
            loadable_sizes((old(self).chunk_id_x, old(self).chunk_id_z), chunk_sizes),
            !old(created_chunks)@.contains(id_key((old(self).chunk_id_x, old(self).chunk_id_z)))
                ==> chunk_sizes.1 / 2 >= 3,
        ensures
            ({
                let id = (old(self).chunk_id_x, old(self).chunk_id_z);
                let before = old(created_chunks)@.contains(id_key(id));
                let saved = saved_cells(saved_text, chunk_sizes);
                &&& r is Err <==> before && (saved_text is None || chunk_read(
                    saved_text->Some_0@,
                    chunk_sizes,
                ).failed)
                &&& r is Err ==> *final(self) == *old(self) && final(created_chunks)@ == old(created_chunks)@
                &&& r is Ok ==> final(created_chunks)@ == old(created_chunks)@.insert(id_key(id))
                &&& r is Ok ==> exists|g: Seq<Vec<Vec<Block>>>|
                    {
                        &&& grid_has_sizes(g, chunk_sizes)
                        &&& forall|x: int, y: int, z: int|
                            in_chunk(chunk_sizes, x, y, z) ==> #[trigger] cell(g, x, y, z)
                                == loaded_cell(id, before, saved, chunk_sizes, x, y, z)
                        &&& final(self).chunk_blocks@ == add_blocks(
                            old(self).chunk_blocks@,
                            grid_blocks(g),
                            false,
                        )
                        &&& final(self).instances_to_render@ == add_blocks(
                            old(self).instances_to_render@,
                            grid_blocks(g),
                            true,
                        )
                    }
                &&& r is Ok ==> final(self).instances_to_render@.len() <= old(self).instances_to_render@.len()
                    + cell_count(chunk_sizes)
                &&& r is Ok ==> final(self).chunk_blocks@.len() <= old(self).chunk_blocks@.len()
                    + cell_count(chunk_sizes)
                &&& r is Ok ==> final(self).alive_blocks == final(self).chunk_blocks@.len() as u32
                &&& r is Ok ==> final(self).instance_size == final(self).instances_to_render@.len() as u32
                &&& final(self).chunk_id_x == old(self).chunk_id_x
                &&& final(self).chunk_id_z == old(self).chunk_id_z
                &&& final(self).instance_capacity == old(self).instance_capacity
                &&& final(self).new_instance_capacity == old(self).new_instance_capacity
                &&& final(self).instances_modified == old(self).instances_modified
                &&& final(self).creating_new_instance_buffers == old(self).creating_new_instance_buffers
            }),
    {
        let id: (i32, i32) = (self.chunk_id_x, self.chunk_id_z);
        let key: u64 = chunk_key_of(id);
        let ghost before = created_chunks@.contains(key);
        let ghost saved = saved_cells(saved_text, chunk_sizes);
        let mut temp_chunk_vec: Vec<Vec<Vec<Block>>> = create_temp_chunk_vector(id, chunk_sizes);
        let ghost g0 = temp_chunk_vec@;
        if created_chunks.contains(&key) {
            match saved_text {
                Some(text) => {
                    match file_system.read_chunks_from_file(&mut temp_chunk_vec, text, chunk_sizes) {
                        Ok(()) => {
                            proof {
                                lemma_read_base(g0, temp_chunk_vec@, id, saved, chunk_sizes);
                            }
                        },
                        Err(_) => {
                            return Err(LoadChunkError::Malformed);
                        },
                    }
                },
                None => {
                    return Err(LoadChunkError::MissingFile);
                },
            }
        } else {
            generate_chunk(&mut temp_chunk_vec, chunk_sizes, chunk_sizes.1 / 2);
            proof {
                lemma_generated_base(g0, temp_chunk_vec@, id, saved, chunk_sizes);
            }
            created_chunks.insert(key);
        }
        let ghost g1 = temp_chunk_vec@;
        proof {
            lemma_touches_loaded(g1, id, before, saved, chunk_sizes);
        }
        check_for_touching_air(&mut temp_chunk_vec, chunk_sizes);
        proof {
            lemma_loaded_after_air_check(g1, temp_chunk_vec@, id, before, saved, chunk_sizes);
            broadcast use vstd::std_specs::hash::group_hash_axioms;
            lemma_grid_blocks_len(temp_chunk_vec@, chunk_sizes);
            lemma_add_blocks_len(self.instances_to_render@, grid_blocks(temp_chunk_vec@), true);
            lemma_add_blocks_len(self.chunk_blocks@, grid_blocks(temp_chunk_vec@), false);
        }
        fill_chunk_hashmap(&mut self.chunk_blocks, &mut self.instances_to_render, temp_chunk_vec, chunk_sizes);
        self.alive_blocks = self.chunk_blocks.len() as u32;
        self.instance_size = self.instances_to_render.len() as u32;
        Ok(())
    }
}

/// A block at the world position of cell `(x, y, z)` of a chunk lies in
/// that cell.
proof fn lemma_cell_of_fresh(
    chunk_ids: (i32, i32),
    chunk_sizes: (usize, usize, usize),
    x: int,
    y: int,
    z: int,
    b: Block,
)
    requires
        chunk_positions_fit(chunk_ids, chunk_sizes),
        placeable_sizes(chunk_sizes),
        in_chunk(chunk_sizes, x, y, z),
        b.position == fresh_cell(chunk_ids, chunk_sizes, x, y, z).position,
    ensures
        cell_of_block(b, chunk_sizes) == (x, y, z),
{
    let sx = chunk_sizes.0 as int;
    let sz = chunk_sizes.2 as int;
    vstd::arithmetic::div_mod::lemma_fundamental_div_mod_converse(chunk_ids.0 * sx + x, sx, chunk_ids.0 as int, x);
    vstd::arithmetic::div_mod::lemma_fundamental_div_mod_converse(chunk_ids.1 * sz + z, sz, chunk_ids.1 as int, z);
    assert(chunk_ids.0 * sx + x == sx * chunk_ids.0 + x) by (nonlinear_arith);
    assert(chunk_ids.1 * sz + z == sz * chunk_ids.1 + z) by (nonlinear_arith);
}

/// Blocks with the same key lie at the same position.
proof fn lemma_same_key_same_position(a: Block, b: Block)
    requires
        block_key_of(a) == block_key_of(b),
    ensures
        a.position == b.position,
{
    lemma_block_key_injective(a.position, b.position);
    lemma_block_key_injective(b.position, a.position);
}

/// The kinds saved for a chunk loaded from grid `g` are the kinds of its
/// cells.
proof fn lemma_saved_kinds(
    g: Seq<Vec<Vec<Block>>>,
    chunk_ids: (i32, i32),
    chunk_sizes: (usize, usize, usize),
    kinds: Seq<Vec<Vec<BlockType>>>,
    x: int,
    y: int,
    z: int,
)
    requires
        chunk_positions_fit(chunk_ids, chunk_sizes),
        placeable_sizes(chunk_sizes),
        grid_has_sizes(g, chunk_sizes),
        forall|a: int, b: int, c: int|
            in_chunk(chunk_sizes, a, b, c) ==> (#[trigger] cell(g, a, b, c)).position == fresh_cell(chunk_ids, chunk_sizes, a, b, c).position,
        forall|a: int, b: int, c: int|
            in_chunk(chunk_sizes, a, b, c) ==> placed_kind(
                add_blocks(Map::empty(), grid_blocks(g), false),
                chunk_sizes,
                (a, b, c),
                #[trigger] kind_at(kinds, a, b, c),
            ),
        in_chunk(chunk_sizes, x, y, z),
    ensures
        kind_at(kinds, x, y, z) == cell(g, x, y, z).block_type,
{
    let m = add_blocks(Map::empty(), grid_blocks(g), false);
    let s = grid_blocks(g);
    let c0 = (x, y, z);
    assert(placed_kind(m, chunk_sizes, c0, kind_at(kinds, x, y, z)));
    // every entry of the map lies in the cell of the grid it came from
    assert forall|k: u128| m.dom().contains(k) implies exists|a: int, b: int, c: int|
        in_chunk(chunk_sizes, a, b, c) && #[trigger] m[k] == cell(g, a, b, c) && cell_of_block(m[k], chunk_sizes) == (a, b, c)
        && cell(g, a, b, c).block_type != BlockType::Air by {
        lemma_add_blocks_entry(s, false, k);
        let i = choose|i: int| 0 <= i < s.len() && kept(s[i], false) && block_key_of(s[i]) == k && #[trigger] m[k] == s[i];
        lemma_grid_blocks_cells(g, i);
        let (a, b, c) = choose|a: int, b: int, c: int|
            0 <= a < g.len() && 0 <= b < g[a]@.len() && 0 <= c < g[a]@[b]@.len() && s[i] == #[trigger] cell(g, a, b, c);
        lemma_cell_of_fresh(chunk_ids, chunk_sizes, a, b, c, cell(g, a, b, c));
    }
    let g_cell = cell(g, x, y, z);
    if g_cell.block_type != BlockType::Air {
        lemma_grid_cells_blocks(g, x, y, z);
        let i = choose|i: int| 0 <= i < s.len() && #[trigger] s[i] == cell(g, x, y, z);
        lemma_add_blocks_has(Map::empty(), s, false, i);
        let k = block_key_of(g_cell);
        let (a, b, c) = choose|a: int, b: int, c: int|
            in_chunk(chunk_sizes, a, b, c) && #[trigger] m[k] == cell(g, a, b, c) && cell_of_block(m[k], chunk_sizes) == (a, b, c)
            && cell(g, a, b, c).block_type != BlockType::Air;
        lemma_add_blocks_entry(s, false, k);
        let j = choose|j: int| 0 <= j < s.len() && kept(s[j], false) && block_key_of(s[j]) == k && #[trigger] m[k] == s[j];
        lemma_same_key_same_position(s[j], g_cell);
        lemma_cell_of_fresh(chunk_ids, chunk_sizes, x, y, z, g_cell);
        lemma_cell_of_fresh(chunk_ids, chunk_sizes, a, b, c, m[k]);
        assert(exists|k2: u128| m.dom().contains(k2) && cell_of_block(m[k2], chunk_sizes) == c0);
        let k2 = choose|k2: u128| m.dom().contains(k2) && cell_of_block(m[k2], chunk_sizes) == c0 && #[trigger] m[k2].block_type
            == kind_at(kinds, x, y, z);
        let (a2, b2, c2) = choose|a: int, b: int, c: int|
            in_chunk(chunk_sizes, a, b, c) && #[trigger] m[k2] == cell(g, a, b, c) && cell_of_block(m[k2], chunk_sizes) == (a, b, c)
            && cell(g, a, b, c).block_type != BlockType::Air;
    } else {
        if exists|k: u128| m.dom().contains(k) && cell_of_block(m[k], chunk_sizes) == c0 {
            let k = choose|k: u128| m.dom().contains(k) && cell_of_block(m[k], chunk_sizes) == c0;
            let (a, b, c) = choose|a: int, b: int, c: int|
                in_chunk(chunk_sizes, a, b, c) && #[trigger] m[k] == cell(g, a, b, c) && cell_of_block(m[k], chunk_sizes) == (a, b, c)
                && cell(g, a, b, c).block_type != BlockType::Air;
            assert(false);
        }
    }
}

/// What a chunk that leaves the game gives back when it comes again: a
/// chunk loaded into grid `g`, saved (its blocks placed as `kinds`) and
/// loaded again from the saved text, gets back the same grid, so the same
/// blocks and the same drawn blocks.
pub proof fn saved_chunk_loads_back(
    g: Seq<Vec<Vec<Block>>>,
    chunk_ids: (i32, i32),
    created_before: bool,
    saved: Map<(int, int, int), u16>,
    chunk_sizes: (usize, usize, usize),
    kinds: Seq<Vec<Vec<BlockType>>>,
)
    requires
        loadable_sizes(chunk_ids, chunk_sizes),
        placeable_sizes(chunk_sizes),
        grid_has_sizes(g, chunk_sizes),
        forall|x: int, y: int, z: int|
            in_chunk(chunk_sizes, x, y, z) ==> #[trigger] cell(g, x, y, z) == loaded_cell(
                chunk_ids,
                created_before,
                saved,
                chunk_sizes,
                x,
                y,
                z,
            ),
        kinds_have_sizes(kinds, chunk_sizes),
        forall|x: int, y: int, z: int|
            in_chunk(chunk_sizes, x, y, z) ==> placed_kind(
                add_blocks(Map::empty(), grid_blocks(g), false),
                chunk_sizes,
                (x, y, z),
                #[trigger] kind_at(kinds, x, y, z),
            ),
    ensures
        forall|x: int, y: int, z: int|
            in_chunk(chunk_sizes, x, y, z) ==> #[trigger] loaded_cell(
                chunk_ids,
                true,
                chunk_read(chunk_text(kinds, chunk_sizes), chunk_sizes).cells,
                chunk_sizes,
                x,
                y,
                z,
            ) == loaded_cell(chunk_ids, created_before, saved, chunk_sizes, x, y, z),
{
    let again = chunk_read(chunk_text(kinds, chunk_sizes), chunk_sizes).cells;
    saved_chunk_reads_back(kinds, chunk_sizes);
    assert forall|x: int, y: int, z: int| in_chunk(chunk_sizes, x, y, z) implies loaded_kind(true, again, chunk_sizes, x, y, z)
        == loaded_kind(created_before, saved, chunk_sizes, x, y, z) by {
        lemma_saved_kinds(g, chunk_ids, chunk_sizes, kinds, x, y, z);
        assert(cell(g, x, y, z) == loaded_cell(chunk_ids, created_before, saved, chunk_sizes, x, y, z));
        assert(again.contains_key((x, y, z)));
        kind_of_block_id(kind_at(kinds, x, y, z));
    }
    assert forall|x: int, y: int, z: int| in_chunk(chunk_sizes, x, y, z) implies #[trigger] loaded_cell(
        chunk_ids,
        true,
        again,
        chunk_sizes,
        x,
        y,
        z,
    ) == loaded_cell(chunk_ids, created_before, saved, chunk_sizes, x, y, z) by {
        assert(loaded_kind(true, again, chunk_sizes, x, y, z) == loaded_kind(created_before, saved, chunk_sizes, x, y, z));
        if x > 0 {
            assert(loaded_kind(true, again, chunk_sizes, x - 1, y, z) == loaded_kind(created_before, saved, chunk_sizes, x - 1, y, z));
        }
        if x + 1 < chunk_sizes.0 {
            assert(loaded_kind(true, again, chunk_sizes, x + 1, y, z) == loaded_kind(created_before, saved, chunk_sizes, x + 1, y, z));
        }
        if y > 0 {
            assert(loaded_kind(true, again, chunk_sizes, x, y - 1, z) == loaded_kind(created_before, saved, chunk_sizes, x, y - 1, z));
        }
        if y + 1 < chunk_sizes.1 {
            assert(loaded_kind(true, again, chunk_sizes, x, y + 1, z) == loaded_kind(created_before, saved, chunk_sizes, x, y + 1, z));
        }
        if z > 0 {
            assert(loaded_kind(true, again, chunk_sizes, x, y, z - 1) == loaded_kind(created_before, saved, chunk_sizes, x, y, z - 1));
        }
        if z + 1 < chunk_sizes.2 {
            assert(loaded_kind(true, again, chunk_sizes, x, y, z + 1) == loaded_kind(created_before, saved, chunk_sizes, x, y, z + 1));
        }
    }
}

} // verus!
