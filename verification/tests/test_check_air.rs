use rust_craft::{
    block::Block,
    block_type::BlockType,
    chunk::{
        chunk_functions::create_temp_chunk_vector,
        chunk_gpu_functions::{check_for_touching_air, check_air_inputs, touching_air_results, apply_touching_air},
        create_chunks::generate_chunk,
    },
};

fn check_air(chunk_sizes: (usize, usize, usize)) {
    // get the chunk data
    let mut temp_chunk_vector: Vec<Vec<Vec<Block>>> = create_temp_chunk_vector((0, 0), chunk_sizes);
    generate_chunk(&mut temp_chunk_vector, chunk_sizes, chunk_sizes.1 / 2);

    // run the check air function
    check_for_touching_air(&mut temp_chunk_vector, chunk_sizes);

    // tests the results
    for y in 0..chunk_sizes.1 {
        for x in 0..chunk_sizes.0 {
            for z in 0..chunk_sizes.2 {
                if temp_chunk_vector[x][y][z].block_type != BlockType::Air {
                    let mut touching_air_count: u32 = 0;
                    // up
                    if y < chunk_sizes.1 - 1 {
                        if temp_chunk_vector[x][y + 1][z].block_type == BlockType::Air {
                            assert_eq!(temp_chunk_vector[x][y][z].touching_air, true);
                            touching_air_count += 1;
                        }
                    }
                    // down
                    if y > 0 {
                        if temp_chunk_vector[x][y - 1][z].block_type == BlockType::Air {
                            assert_eq!(temp_chunk_vector[x][y][z].touching_air, true);
                            touching_air_count += 1;
                        }
                    }
                    // left
                    if x > 0 {
                        if temp_chunk_vector[x - 1][y][z].block_type == BlockType::Air {
                            assert_eq!(temp_chunk_vector[x][y][z].touching_air, true);
                            touching_air_count += 1;
                        }
                    }
                    // right
                    if x < chunk_sizes.0 - 1 {
                        if temp_chunk_vector[x + 1][y][z].block_type == BlockType::Air {
                            assert_eq!(temp_chunk_vector[x][y][z].touching_air, true);
                            touching_air_count += 1;
                        }
                    }
                    // front
                    if z > 0 {
                        if temp_chunk_vector[x][y][z - 1].block_type == BlockType::Air {
                            assert_eq!(temp_chunk_vector[x][y][z].touching_air, true);
                            touching_air_count += 1;
                        }
                    }
                    // back
                    if z < chunk_sizes.2 - 1 {
                        if temp_chunk_vector[x][y][z + 1].block_type == BlockType::Air {
                            assert_eq!(temp_chunk_vector[x][y][z].touching_air, true);
                            touching_air_count += 1;
                        }
                    }

                    if touching_air_count == 0 {
                        assert_eq!(temp_chunk_vector[x][y][z].touching_air, false,
                        "After checking all sides this block didnt touch any air blocks but is_touching_air is true");
                    } else {
                        assert_eq!(temp_chunk_vector[x][y][z].touching_air, true,
                        "After checking all sides this block touched air blocks but is_touching_air is false");
                    }
                } else {
                    assert_eq!(temp_chunk_vector[x][y][z].touching_air, false,
                    "This block is an air block but is_touching_air, is true");
                }
            }
        }
    }
}

// testing a smaller size
#[test]
fn test_check_air_1() {
    check_air((8, 16, 8));
}

// testing the size i would be using for the game
#[test]
fn test_check_air_2() {
    check_air((32, 256, 32));
}

// testing larger sizes for fun
#[test]
fn test_check_air_3() {
    check_air((64, 256, 64));
}

#[test]
fn air_check_inputs_are_flat_in_x_y_z_order() {
    let chunk_sizes = (2usize, 4usize, 3usize);
    let mut grid = create_temp_chunk_vector((0, 0), chunk_sizes);
    grid[1][2][0].block_type = BlockType::Stone;
    grid[0][0][2].block_type = BlockType::Grass;
    let (types, transparency, dims) = check_air_inputs(&grid, chunk_sizes);
    assert_eq!(dims, [2, 4, 3]);
    assert_eq!(types.len(), 24);
    // index = x + sx * (y + sy * z)
    assert_eq!(types[1 + 2 * 2], 400);
    assert_eq!(types[2 * 4 * 2], 301);
    assert_eq!(transparency[1 + 2 * 2], 0);
    assert_eq!(transparency[0], 1);
    assert_eq!(types.iter().filter(|t| **t != 0).count(), 2);
}

#[test]
fn touching_air_of_a_buried_block() {
    // a 3 x 3 x 3 block of stone touches no air: the chunk's walls do not
    // count as air
    let chunk_sizes = (3usize, 3usize, 3usize);
    let transparency = vec![0u32; 27];
    let result = touching_air_results(&transparency, chunk_sizes);
    assert!(result.iter().all(|r| *r == 0));

    let mut transparency = vec![0u32; 27];
    transparency[1 + 3 * (1 + 3 * 2)] = 1; // cell (1, 1, 2) is air
    let result = touching_air_results(&transparency, chunk_sizes);
    assert_eq!(result[1 + 3 * (1 + 3 * 1)], 1); // (1, 1, 1) touches it
    assert_eq!(result[1 + 3 * (1 + 3 * 2)], 0); // air itself does not
    assert_eq!(result[0], 0);
    assert_eq!(result.iter().sum::<u32>(), 5);

    let mut grid = create_temp_chunk_vector((0, 0), chunk_sizes);
    apply_touching_air(&mut grid, &result, chunk_sizes);
    assert!(grid[1][1][1].touching_air);
    assert!(grid[0][1][2].touching_air);
    assert!(!grid[0][0][0].touching_air);
}
