use std::collections::HashMap;
use rust_craft::{
    optimisations::opt_fill_chunk_hashmap::{
        fill_chunk_hashmap_old, fill_chunk_hashmap_new_1, fill_chunk_hashmap_new_2,
        fill_chunk_hashmap_new_3, fill_chunk_hashmap_new_4, fill_chunk_hashmap_new_5,
        fill_chunk_hashmap_new_6,
    },
    block::Block,
    block_type::BlockType,
    chunk::{chunk_functions::{create_temp_chunk_vector, fill_chunk_hashmap}, create_chunks::generate_chunk},
    keys::position_key_of,
};

// here is the helper function which takes my function as input
fn check_fill_chunk_hashmap<F>(fill: F)
where
    F: Fn(&mut HashMap<u128, Block>, &mut HashMap<u128, Block>, Vec<Vec<Vec<Block>>>, (usize, usize, usize)),
{
    let chunk_sizes: (usize, usize, usize) = (32, 256, 32);

    let mut temp_chunk_vector_global: Vec<Vec<Vec<Block>>> = create_temp_chunk_vector((0, 0), chunk_sizes);
    generate_chunk(&mut temp_chunk_vector_global, chunk_sizes, chunk_sizes.1 / 2);

    let chunk_blocks_global: HashMap<u128, Block> = HashMap::new();
    let instances_to_render_global: HashMap<u128, Block> = HashMap::new();

    // set some as touching air
    for x in 0..chunk_sizes.0 {
        for z in 0..chunk_sizes.2 {
            temp_chunk_vector_global[x][chunk_sizes.1 / 2][z].touching_air = true;
        }
    }

    // clone the temp chunk vector each time
    let temp_chunk_vector = temp_chunk_vector_global.clone();
    let mut chunk_blocks = chunk_blocks_global.clone();
    let mut instances_to_render = instances_to_render_global.clone();

    fill(&mut chunk_blocks, &mut instances_to_render, temp_chunk_vector, chunk_sizes);

    // check the hashmap now
    for x in 0..chunk_sizes.0 {
        for y in 0..chunk_sizes.1 {
            for z in 0..chunk_sizes.2 {
                let key = position_key_of(&temp_chunk_vector_global[x][y][z].position);
                if temp_chunk_vector_global[x][y][z].block_type != BlockType::Air {
                    assert_eq!(chunk_blocks.contains_key(&key), true);
                } else {
                    assert_eq!(chunk_blocks.contains_key(&key), false);
                }
            }
        }
    }
}

#[test]
fn test_fill_chunk_hashmap_old() {
    check_fill_chunk_hashmap(fill_chunk_hashmap_old);
}

#[test]
fn test_fill_chunk_hashmap_new_1() {
    check_fill_chunk_hashmap(fill_chunk_hashmap_new_1);
}

#[test]
fn test_fill_chunk_hashmap_new_2() {
    check_fill_chunk_hashmap(fill_chunk_hashmap_new_2);
}

#[test]
fn test_fill_chunk_hashmap_new_3() {
    check_fill_chunk_hashmap(fill_chunk_hashmap_new_3);
}

#[test]
fn test_fill_chunk_hashmap_new_4() {
    check_fill_chunk_hashmap(fill_chunk_hashmap_new_4);
}

#[test]
fn test_fill_chunk_hashmap_new_5() {
    check_fill_chunk_hashmap(fill_chunk_hashmap_new_5);
}

#[test]
fn test_fill_chunk_hashmap_new_6() {
    check_fill_chunk_hashmap(fill_chunk_hashmap_new_6);
}

#[test]
fn fill_variants_agree_with_the_main_fill() {
    let chunk_sizes: (usize, usize, usize) = (8, 16, 8);
    let mut grid = create_temp_chunk_vector((2, -3), chunk_sizes);
    generate_chunk(&mut grid, chunk_sizes, chunk_sizes.1 / 2);
    for x in 0..chunk_sizes.0 {
        for z in 0..chunk_sizes.2 {
            grid[x][chunk_sizes.1 / 2 - 1][z].touching_air = true;
        }
    }
    let mut blocks: HashMap<u128, Block> = HashMap::new();
    let mut instances: HashMap<u128, Block> = HashMap::new();
    fill_chunk_hashmap(&mut blocks, &mut instances, grid.clone(), chunk_sizes);
    // every layer below half the height is solid; one layer is drawn
    assert_eq!(blocks.len(), 8 * 8 * 8);
    assert_eq!(instances.len(), 8 * 8);
    let variants: Vec<fn(&mut HashMap<u128, Block>, &mut HashMap<u128, Block>, Vec<Vec<Vec<Block>>>, (usize, usize, usize))> = vec![
        fill_chunk_hashmap_old,
        fill_chunk_hashmap_new_1,
        fill_chunk_hashmap_new_2,
        fill_chunk_hashmap_new_3,
        fill_chunk_hashmap_new_4,
        fill_chunk_hashmap_new_5,
        fill_chunk_hashmap_new_6,
    ];
    for f in variants {
        let mut b: HashMap<u128, Block> = HashMap::new();
        let mut i: HashMap<u128, Block> = HashMap::new();
        f(&mut b, &mut i, grid.clone(), chunk_sizes);
        assert_eq!(b, blocks);
        assert_eq!(i, instances);
    }
}
