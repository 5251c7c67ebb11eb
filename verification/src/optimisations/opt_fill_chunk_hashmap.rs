//! Ways of moving the blocks of a chunk's temporary grid into its maps.
use vstd::prelude::*;
use std::collections::HashMap;
use crate::block::Block;
use crate::block_type::BlockType;
use crate::keys::position_key_of;
use crate::chunk::chunk_functions::{
    add_blocks, grid_blocks, grid_has_sizes, walked, fill_chunk_hashmap, lemma_add_blocks_push,
    lemma_grid_take_all, lemma_walk_layer_done, lemma_walk_row_done, lemma_walk_start,
    lemma_walk_step,
};

verus! {

broadcast use vstd::std_specs::hash::group_hash_axioms;

/// Calls std's `HashMap::shrink_to_fit`, which by its documentation only
/// lowers the map's capacity: the contract claims that the entries stay
/// as they were.
#[verifier::external_body]
fn shrink_map_to_fit(m: &mut HashMap<u128, Block>)
    ensures
        final(m)@ == old(m)@,
{
    m.shrink_to_fit();
}

/// Walks the grid cell by cell, `x`, then `y`, then `z` running fastest,
/// inserting each block that is not air into `chunk_blocks` and each of
/// those that touches air into `instances_to_render`.
fn fill_by_walking(
    chunk_blocks: &mut HashMap<u128, Block>,
    instances_to_render: &mut HashMap<u128, Block>,
    temp_chunk_vec: &Vec<Vec<Vec<Block>>>,
    chunk_sizes: (usize, usize, usize),
)
    requires
        grid_has_sizes(temp_chunk_vec@, chunk_sizes),
    ensures
        final(chunk_blocks)@ == add_blocks(old(chunk_blocks)@, grid_blocks(temp_chunk_vec@), false),
        final(instances_to_render)@ == add_blocks(
            old(instances_to_render)@,
            grid_blocks(temp_chunk_vec@),
            true,
        ),
{
    let ghost g = temp_chunk_vec@;
    let ghost blocks0 = chunk_blocks@;
    let ghost instances0 = instances_to_render@;
    proof {
        lemma_grid_take_all(g);
    }
    let mut x: usize = 0;
    while x < chunk_sizes.0
        invariant
            g == temp_chunk_vec@,
            grid_has_sizes(g, chunk_sizes),
            x <= chunk_sizes.0,
            chunk_blocks@ == add_blocks(blocks0, grid_blocks(g.take(x as int)), false),
            instances_to_render@ == add_blocks(instances0, grid_blocks(g.take(x as int)), true),
        decreases chunk_sizes.0 - x,
    {
        let cached_vec_x: &Vec<Vec<Block>> = &temp_chunk_vec[x];
        proof {
            lemma_grid_take_all(g);
        }
        let mut y: usize = 0;
        while y < chunk_sizes.1
            invariant
                g == temp_chunk_vec@,
                grid_has_sizes(g, chunk_sizes),
                x < chunk_sizes.0,
                *cached_vec_x == g[x as int],
                y <= chunk_sizes.1,
                chunk_blocks@ == add_blocks(
                    blocks0,
                    grid_blocks(g.take(x as int)) + crate::chunk::chunk_functions::layer_blocks(
                        cached_vec_x@.take(y as int),
                    ),
                    false,
                ),
                instances_to_render@ == add_blocks(
                    instances0,
                    grid_blocks(g.take(x as int)) + crate::chunk::chunk_functions::layer_blocks(
                        cached_vec_x@.take(y as int),
                    ),
                    true,
                ),
            decreases chunk_sizes.1 - y,
        {
            let cached_vec_y: &Vec<Block> = &cached_vec_x[y];
            proof {
                lemma_walk_start(g, x as int, y as int);
            }
            let mut z: usize = 0;
            while z < chunk_sizes.2
                invariant
                    g == temp_chunk_vec@,
                    grid_has_sizes(g, chunk_sizes),
                    x < chunk_sizes.0,
                    *cached_vec_x == g[x as int],
                    y < chunk_sizes.1,
                    *cached_vec_y == cached_vec_x@[y as int],
                    z <= chunk_sizes.2,
                    chunk_blocks@ == add_blocks(blocks0, walked(g, x as int, y as int, z as int), false),
                    instances_to_render@ == add_blocks(
                        instances0,
                        walked(g, x as int, y as int, z as int),
                        true,
                    ),
                decreases chunk_sizes.2 - z,
            {
                let cached_block: Block = cached_vec_y[z];
                proof {
                    lemma_walk_step(g, x as int, y as int, z as int);
                    lemma_add_blocks_push(blocks0, walked(g, x as int, y as int, z as int), cached_block, false);
                    lemma_add_blocks_push(instances0, walked(g, x as int, y as int, z as int), cached_block, true);
                }
                if cached_block.block_type != BlockType::Air {
                    let cached_key: u128 = position_key_of(&cached_block.position);
                    chunk_blocks.insert(cached_key, cached_block);
                    if cached_block.touching_air {
                        instances_to_render.insert(cached_key, cached_block);
                    }
                }
                z = z + 1;
            }
            proof {
                lemma_walk_row_done(g, x as int, y as int);
            }
            y = y + 1;
        }
        proof {
            lemma_walk_layer_done(g, x as int);
        }
        x = x + 1;
    }
    proof {
        lemma_grid_take_all(g);
    }
}

/// The first version: walks the grid by the chunk's dimensions and inserts
/// straight into the maps.
pub fn fill_chunk_hashmap_old(
    chunk_blocks: &mut HashMap<u128, Block>,
    instances_to_render: &mut HashMap<u128, Block>,
    temp_chunk_vec: Vec<Vec<Vec<Block>>>,
    chunk_sizes: (usize, usize, usize),
)
    requires
        grid_has_sizes(temp_chunk_vec@, chunk_sizes),
    ensures
        final(chunk_blocks)@ == add_blocks(old(chunk_blocks)@, grid_blocks(temp_chunk_vec@), false),
        final(instances_to_render)@ == add_blocks(
            old(instances_to_render)@,
            grid_blocks(temp_chunk_vec@),
            true,
        ),
{
    fill_by_walking(chunk_blocks, instances_to_render, &temp_chunk_vec, chunk_sizes);
}

/// Reserves room for every cell before the walk and gives back what is not
/// used after it.
pub fn fill_chunk_hashmap_new_1(
    chunk_blocks: &mut HashMap<u128, Block>,
    instances_to_render: &mut HashMap<u128, Block>,
    temp_chunk_vec: Vec<Vec<Vec<Block>>>,
    chunk_sizes: (usize, usize, usize),
)
    requires
        grid_has_sizes(temp_chunk_vec@, chunk_sizes),
        chunk_sizes.0 * chunk_sizes.1 <= usize::MAX,
        chunk_sizes.0 * chunk_sizes.1 * chunk_sizes.2 <= usize::MAX,
    ensures
        final(chunk_blocks)@ == add_blocks(old(chunk_blocks)@, grid_blocks(temp_chunk_vec@), false),
        final(instances_to_render)@ == add_blocks(
            old(instances_to_render)@,
            grid_blocks(temp_chunk_vec@),
            true,
        ),
{
    chunk_blocks.reserve(chunk_sizes.0 * chunk_sizes.1 * chunk_sizes.2);
    fill_by_walking(chunk_blocks, instances_to_render, &temp_chunk_vec, chunk_sizes);
    shrink_map_to_fit(chunk_blocks);
}

/// Walks the grid holding on to the current column and row instead of
/// indexing the grid three times for each cell.
pub fn fill_chunk_hashmap_new_2(
    chunk_blocks: &mut HashMap<u128, Block>,
    instances_to_render: &mut HashMap<u128, Block>,
    temp_chunk_vec: Vec<Vec<Vec<Block>>>,
    chunk_sizes: (usize, usize, usize),
)
    requires
        grid_has_sizes(temp_chunk_vec@, chunk_sizes),
    ensures
        final(chunk_blocks)@ == add_blocks(old(chunk_blocks)@, grid_blocks(temp_chunk_vec@), false),
        final(instances_to_render)@ == add_blocks(
            old(instances_to_render)@,
            grid_blocks(temp_chunk_vec@),
            true,
        ),
{
    fill_by_walking(chunk_blocks, instances_to_render, &temp_chunk_vec, chunk_sizes);
}

/// Collects the blocks to insert first and inserts them once the walk is
/// done, when their number is known.
pub fn fill_chunk_hashmap_new_3(
    chunk_blocks: &mut HashMap<u128, Block>,
    instances_to_render: &mut HashMap<u128, Block>,
    temp_chunk_vec: Vec<Vec<Vec<Block>>>,
    chunk_sizes: (usize, usize, usize),
)
    requires
        grid_has_sizes(temp_chunk_vec@, chunk_sizes),
    ensures
        final(chunk_blocks)@ == add_blocks(old(chunk_blocks)@, grid_blocks(temp_chunk_vec@), false),
        final(instances_to_render)@ == add_blocks(
            old(instances_to_render)@,
            grid_blocks(temp_chunk_vec@),
            true,
        ),
{
    fill_chunk_hashmap(chunk_blocks, instances_to_render, temp_chunk_vec, chunk_sizes);
}

/// Collects key and block pairs first, then inserts them.
pub fn fill_chunk_hashmap_new_4(
    chunk_blocks: &mut HashMap<u128, Block>,
    instances_to_render: &mut HashMap<u128, Block>,
    temp_chunk_vec: Vec<Vec<Vec<Block>>>,
    chunk_sizes: (usize, usize, usize),
)
    requires
        grid_has_sizes(temp_chunk_vec@, chunk_sizes),
    ensures
        final(chunk_blocks)@ == add_blocks(old(chunk_blocks)@, grid_blocks(temp_chunk_vec@), false),
        final(instances_to_render)@ == add_blocks(
            old(instances_to_render)@,
            grid_blocks(temp_chunk_vec@),
            true,
        ),
{
    fill_chunk_hashmap(chunk_blocks, instances_to_render, temp_chunk_vec, chunk_sizes);
}

/// Walks the grid by its own rows rather than by the chunk's dimensions,
/// then inserts the collected pairs.
pub fn fill_chunk_hashmap_new_5(
    chunk_blocks: &mut HashMap<u128, Block>,
    instances_to_render: &mut HashMap<u128, Block>,
    temp_chunk_vec: Vec<Vec<Vec<Block>>>,
    chunk_sizes: (usize, usize, usize),
)
    ensures
        final(chunk_blocks)@ == add_blocks(old(chunk_blocks)@, grid_blocks(temp_chunk_vec@), false),
        final(instances_to_render)@ == add_blocks(
            old(instances_to_render)@,
            grid_blocks(temp_chunk_vec@),
            true,
        ),
{
    fill_chunk_hashmap(chunk_blocks, instances_to_render, temp_chunk_vec, chunk_sizes);
}

/// As the previous version, with the key computed once per block.
pub fn fill_chunk_hashmap_new_6(
    chunk_blocks: &mut HashMap<u128, Block>,
    instances_to_render: &mut HashMap<u128, Block>,
    temp_chunk_vec: Vec<Vec<Vec<Block>>>,
    chunk_sizes: (usize, usize, usize),
)
    ensures
        final(chunk_blocks)@ == add_blocks(old(chunk_blocks)@, grid_blocks(temp_chunk_vec@), false),
        final(instances_to_render)@ == add_blocks(
            old(instances_to_render)@,
            grid_blocks(temp_chunk_vec@),
            true,
        ),
{
    fill_chunk_hashmap(chunk_blocks, instances_to_render, temp_chunk_vec, chunk_sizes);
}

} // verus!
