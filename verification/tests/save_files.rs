use std::collections::{HashMap, HashSet};
use rust_craft::{
    block::Block,
    block_type::BlockType,
    chunk::Chunk,
    chunk::chunk_functions::create_temp_chunk_vector,
    chunk_file::{write_chunk_text, parse_chunk_text, chunk_block_types, ChunkFileError},
    file_system::{FileSystem, read_created_chunks, CreatedChunksError},
    keys::{chunk_key_of, position_key_of},
    types::Position,
    text::{split_lines, split_words, parse_u16_word, parse_i32_word, push_decimal, push_signed_decimal, normalize_spaces, read_words},
    world::World,
};

fn text(s: &str) -> Vec<u8> {
    s.as_bytes().to_vec()
}

#[test]
fn lines_and_words_split_like_a_line_reader() {
    let lines = split_lines(&text("a b\n\nc\n"));
    assert_eq!(lines, vec![text("a b"), text(""), text("c")]);
    assert_eq!(split_lines(&text("")), Vec::<Vec<u8>>::new());
    assert_eq!(split_lines(&text("x")), vec![text("x")]);
    assert_eq!(split_words(&text("  12 \t 7 ")), vec![text("12"), text("7")]);
    assert_eq!(split_words(&text("   ")), Vec::<Vec<u8>>::new());
}

#[test]
fn numbers_parse_as_rust_parses_them() {
    assert_eq!(parse_u16_word(&text("301")), Some(301));
    assert_eq!(parse_u16_word(&text("+7")), Some(7));
    assert_eq!(parse_u16_word(&text("0007")), Some(7));
    assert_eq!(parse_u16_word(&text("65535")), Some(65535));
    assert_eq!(parse_u16_word(&text("65536")), None);
    assert_eq!(parse_u16_word(&text("-1")), None);
    assert_eq!(parse_u16_word(&text("+")), None);
    assert_eq!(parse_u16_word(&text("1a")), None);
    assert_eq!(parse_i32_word(&text("-2147483648")), Some(i32::MIN));
    assert_eq!(parse_i32_word(&text("2147483647")), Some(i32::MAX));
    assert_eq!(parse_i32_word(&text("2147483648")), None);
    assert_eq!(parse_i32_word(&text("-")), None);
    assert_eq!(parse_i32_word(&text("-0")), Some(0));
    for v in [0i32, 5, -5, 123456, -987654, i32::MAX, i32::MIN] {
        let mut out = Vec::new();
        push_signed_decimal(&mut out, v);
        assert_eq!(out, v.to_string().into_bytes());
        assert_eq!(parse_i32_word(&out), Some(v));
    }
    let mut out = Vec::new();
    push_decimal(&mut out, 1234567890);
    assert_eq!(out, text("1234567890"));
}

#[test]
fn chunk_text_layout() {
    let chunk_sizes = (2usize, 2usize, 2usize);
    let mut kinds = vec![vec![vec![BlockType::Air; 2]; 2]; 2];
    kinds[0][0][0] = BlockType::Bedrock;
    kinds[1][0][0] = BlockType::Stone;
    kinds[1][1][1] = BlockType::Grass;
    let t = write_chunk_text(&kinds, chunk_sizes);
    assert_eq!(String::from_utf8(t).unwrap(), "1 400 \n0 0 \n\n0 0 \n0 301 \n\n");
}

#[test]
fn chunk_text_reads_back() {
    let chunk_sizes = (4usize, 6usize, 3usize);
    let kinds_list = [BlockType::Air, BlockType::Bedrock, BlockType::Stone, BlockType::Dirt, BlockType::Grass, BlockType::Sand, BlockType::Cobblestone, BlockType::Void];
    let mut kinds = vec![vec![vec![BlockType::Air; 3]; 6]; 4];
    for x in 0..4 {
        for y in 0..6 {
            for z in 0..3 {
                kinds[x][y][z] = kinds_list[(x * 7 + y * 3 + z) % kinds_list.len()];
            }
        }
    }
    let t = write_chunk_text(&kinds, chunk_sizes);
    let file_system = FileSystem::new();
    let mut grid = create_temp_chunk_vector((1, 2), chunk_sizes);
    let fresh = grid.clone();
    assert_eq!(file_system.read_chunks_from_file(&mut grid, &t, chunk_sizes), Ok(()));
    for x in 0..4 {
        for y in 0..6 {
            for z in 0..3 {
                assert_eq!(grid[x][y][z].block_type, kinds[x][y][z]);
                assert_eq!(grid[x][y][z].position, fresh[x][y][z].position);
            }
        }
    }
}

#[test]
fn malformed_chunk_text_changes_nothing() {
    let chunk_sizes = (2usize, 2usize, 2usize);
    let file_system = FileSystem::new();
    let mut grid = create_temp_chunk_vector((0, 0), chunk_sizes);
    let fresh = grid.clone();
    // an id that names no block
    assert_eq!(file_system.read_chunks_from_file(&mut grid, &text("1 3 \n"), chunk_sizes), Err(ChunkFileError::Malformed));
    // a row that is too long
    assert_eq!(file_system.read_chunks_from_file(&mut grid, &text("1 1 1 \n"), chunk_sizes), Err(ChunkFileError::Malformed));
    // a word that is not a number
    assert_eq!(file_system.read_chunks_from_file(&mut grid, &text("1 x\n"), chunk_sizes), Err(ChunkFileError::Malformed));
    assert_eq!(grid, fresh);
    // a short text only writes the rows it has; lines after the last layer are ignored
    assert_eq!(file_system.read_chunks_from_file(&mut grid, &text("400\n"), chunk_sizes), Ok(()));
    assert_eq!(grid[0][0][0].block_type, BlockType::Stone);
    assert_eq!(grid[1][0][0].block_type, BlockType::Air);
    let mut grid2 = create_temp_chunk_vector((0, 0), chunk_sizes);
    assert_eq!(file_system.read_chunks_from_file(&mut grid2, &text("1 1 \n1 1 \n\n2 2 \n2 2 \n\nanything at all\n"), chunk_sizes), Ok(()));
    assert_eq!(grid2[1][1][1].block_type, BlockType::Void);
    assert_eq!(parse_chunk_text(&text("1 1 \n1 1 \n\n2 2 \n2 2 \n\n9 9 9 9\n"), chunk_sizes).unwrap().len(), 8);
}

#[test]
fn saved_chunk_places_blocks_in_their_cells() {
    let chunk_sizes = (2usize, 4usize, 2usize);
    let mut blocks: HashMap<u128, Block> = HashMap::new();
    // chunk (-1, 3): x in -2..0, z in 6..8; y from -2 to 1
    let b1 = Block::new(BlockType::Stone, -2, -2, 6);
    let b2 = Block::new(BlockType::Grass, -1, 1, 7);
    blocks.insert(position_key_of(&b1.position), b1);
    blocks.insert(position_key_of(&b2.position), b2);
    let kinds = chunk_block_types(&blocks, chunk_sizes);
    assert_eq!(kinds[0][0][0], BlockType::Stone);
    assert_eq!(kinds[1][3][1], BlockType::Grass);
    assert_eq!(kinds[1][0][0], BlockType::Air);

    let mut chunk = Chunk::new(-1, 3, -1);
    chunk.chunk_blocks = blocks;
    let file_system = FileSystem::new();
    let t = file_system.save_chunk_to_file(&chunk, chunk_sizes);
    assert_eq!(String::from_utf8(t).unwrap(), "400 0 \n0 0 \n\n0 0 \n0 0 \n\n0 0 \n0 0 \n\n0 0 \n0 301 \n\n");
}

#[test]
fn chunk_file_names() {
    let file_system = FileSystem::new();
    assert_eq!(file_system.chunk_file_name((-3, 2)), text("-3_2.txt"));
    assert_eq!(file_system.chunk_file_name((0, 0)), text("0_0.txt"));
}

#[test]
fn world_folder_is_inside_the_assets() {
    let mut file_system = FileSystem::new();
    assert_eq!(file_system.my_world_directory, "");
    file_system.check_file_system("/game/assets".to_string(), &"James's World".to_string());
    assert_eq!(file_system.assets_directory, "/game/assets");
    assert_eq!(file_system.my_world_directory, "/game/assets/data/Worlds/James's World");
    let mut other = FileSystem::new();
    other.CheckFileSystem("a".to_string(), &"b".to_string());
    assert_eq!(other.my_world_directory, "a/data/Worlds/b");
}

#[test]
fn new_world_files() {
    let file_system = FileSystem::new();
    assert_eq!(
        String::from_utf8(file_system.new_created_chunks_file((8, 16, 8))).unwrap(),
        "Total Chunks Created : 0\nChunk Sizes: (8, 16, 8)\nCreated Chunks:\n"
    );
    assert_eq!(String::from_utf8(file_system.new_world_info_file()).unwrap(), "Important Info Goes Here: \n");
    assert_eq!(
        String::from_utf8(file_system.new_stats_file()).unwrap(),
        "TimeSpent: 0\nDistanceTravelled: 0\nBlocksPlaced: 0\nBlocksDestroyed: 0\nDeaths: 0\nDamageTaken: 0\nDamageDelt: 0\nMobsKilled: 0\n"
    );
    assert_eq!(read_created_chunks(&file_system.new_created_chunks_file((8, 16, 8))), Ok(vec![]));
}

#[test]
fn created_chunks_file_reads_back() {
    let file_system = FileSystem::new();
    let ids = [(0, 0), (-1, 5), (7, -12), (i32::MIN, i32::MAX)];
    let mut created: HashSet<u64> = HashSet::new();
    for id in ids {
        created.insert(chunk_key_of(id));
    }
    let t = file_system.save_created_chunks_file(&mut created, (8, 16, 8));
    assert!(created.is_empty());
    let s = String::from_utf8(t.clone()).unwrap();
    assert!(s.starts_with("Total Chunks Created : 4\nChunk Sizes: (8, 16, 8)\nCreated Chunks: \n"));
    assert!(s.contains("\n-1 5\n"));
    let read: HashSet<(i32, i32)> = read_created_chunks(&t).unwrap().into_iter().collect();
    let expected: HashSet<(i32, i32)> = ids.iter().cloned().collect();
    assert_eq!(read, expected);

    let mut world = World::new("w".to_string(), 1, 1, (8, 16, 8));
    world.created_chunks.insert(chunk_key_of((100, 100)));
    assert_eq!(world.load_created_chunks_file(&t), Ok(()));
    assert_eq!(world.created_chunks.len(), 5);
    for id in ids {
        assert!(world.created_chunks.contains(&chunk_key_of(id)));
    }
}

#[test]
fn malformed_created_chunks_files() {
    assert_eq!(read_created_chunks(&text("")), Err(CreatedChunksError::Malformed));
    assert_eq!(read_created_chunks(&text("Total Chunks Created : x\n")), Err(CreatedChunksError::Malformed));
    // two chunks announced, one listed
    assert_eq!(read_created_chunks(&text("T : 2\ns\nc\n1 2\n")), Err(CreatedChunksError::Malformed));
    // a line with one word
    assert_eq!(read_created_chunks(&text("T : 1\ns\nc\n1\n")), Err(CreatedChunksError::Malformed));
    // a negative count lists nothing
    assert_eq!(read_created_chunks(&text("T : -3\n")), Ok(vec![]));
    // extra words and lines are ignored
    assert_eq!(read_created_chunks(&text("T : 1\n\n\n4 -4 junk\n9 9\n")), Ok(vec![(4, -4)]));

    let mut world = World::new("w".to_string(), 1, 1, (8, 16, 8));
    world.created_chunks.insert(7);
    assert_eq!(world.load_created_chunks_file(&text("T : 1\ns\nc\nz\n")), Err(CreatedChunksError::Malformed));
    assert_eq!(world.created_chunks.len(), 1);
}

#[test]
fn words_split_at_unicode_white_space() {
    // no-break space, em space, ideographic space and next line between the words
    let line = text("12\u{a0}7\u{2003}3\u{3000}4\u{85}5");
    assert_eq!(read_words(&line), Some(vec![text("12"), text("7"), text("3"), text("4"), text("5")]));
    assert_eq!(normalize_spaces(&text("a\u{2028}b")), text("a b"));
    // a zero width space is no white space
    assert_eq!(read_words(&text("1\u{200b}2")), Some(vec![text("1\u{200b}2")]));
    // invalid UTF-8 is no text
    assert_eq!(read_words(&vec![49, 0xff, 50]), None);
}

#[test]
fn chunk_text_with_unicode_spaces_and_bad_bytes() {
    let chunk_sizes = (2usize, 1usize, 1usize);
    let file_system = FileSystem::new();
    let mut grid = create_temp_chunk_vector((0, 0), chunk_sizes);
    assert_eq!(file_system.read_chunks_from_file(&mut grid, &text("400\u{a0}401\n\n"), chunk_sizes), Ok(()));
    assert_eq!(grid[0][0][0].block_type, BlockType::Stone);
    assert_eq!(grid[1][0][0].block_type, BlockType::Cobblestone);
    let mut grid2 = create_temp_chunk_vector((0, 0), chunk_sizes);
    let mut bad = text("400 401\n");
    bad.insert(3, 0xc3);
    assert_eq!(file_system.read_chunks_from_file(&mut grid2, &bad, chunk_sizes), Err(ChunkFileError::Malformed));
    // the line skipped between two layers is read too
    let two_layers = (2usize, 2usize, 1usize);
    let mut grid3 = create_temp_chunk_vector((0, 0), two_layers);
    let mut bad_skip = text("400 401\n");
    bad_skip.extend_from_slice(&[0xff, 10]);
    bad_skip.extend_from_slice(&text("400 401\n\n"));
    assert_eq!(file_system.read_chunks_from_file(&mut grid3, &bad_skip, two_layers), Err(ChunkFileError::Malformed));
    // lines after the last layer are not read
    let mut after = text("400 401\n\n");
    after.extend_from_slice(&[0xff, 10]);
    assert_eq!(file_system.read_chunks_from_file(&mut grid2, &after, chunk_sizes), Ok(()));
}

#[test]
fn created_chunks_with_unicode_spaces_and_bad_bytes() {
    assert_eq!(read_created_chunks(&text("T\u{3000}:\u{a0}1\ns\nc\n4\u{2009}-4\n")), Ok(vec![(4, -4)]));
    // the two skipped lines are not looked at
    let mut t = text("T : 1\n");
    t.extend_from_slice(&[0xff, 10]);
    t.extend_from_slice(&text("c\n7 8\n"));
    assert_eq!(read_created_chunks(&t), Ok(vec![(7, 8)]));
    let mut bad = text("T : 1\ns\nc\n7 8");
    bad.push(0xe2);
    bad.push(10);
    assert_eq!(read_created_chunks(&bad), Err(CreatedChunksError::Malformed));
}

#[test]
fn saved_blocks_read_back_by_key() {
    let chunk_sizes = (2usize, 4usize, 2usize);
    let (cx, cz) = (-1i32, 3i32);
    let mut chunk = Chunk::new(cx, cz, -1);
    for b in [
        Block::new(BlockType::Stone, -2, -2, 6),
        Block::new(BlockType::Grass, -1, 1, 7),
        Block::new(BlockType::Sand, -1, 0, 6),
    ] {
        chunk.chunk_blocks.insert(position_key_of(&b.position), b);
    }
    let file_system = FileSystem::new();
    let t = file_system.save_chunk_to_file(&chunk, chunk_sizes);
    let mut grid = create_temp_chunk_vector((cx, cz), chunk_sizes);
    assert_eq!(file_system.read_chunks_from_file(&mut grid, &t, chunk_sizes), Ok(()));
    for x in 0..2i32 {
        for y in 0..4i16 {
            for z in 0..2i32 {
                let p = Position { x: cx * 2 + x, y: y - 2, z: cz * 2 + z };
                let kind = chunk.chunk_blocks.get(&position_key_of(&p)).map_or(BlockType::Air, |b| b.block_type);
                let c = grid[x as usize][y as usize][z as usize];
                assert_eq!(c.block_type, kind);
                assert_eq!(c.position, p);
            }
        }
    }
}
