use rust_craft::{
    character::Character,
    optimisations::world_get_chunks_around_character::{
        get_chunks_around_character_old, get_chunks_around_character_new_1,
        get_chunks_around_character_new_2,
    },
    world::World,
};

use std::collections::HashSet;

// these all assume chunk sizes of (32 x 256 x 32)
fn check_get_chunks_around_character(render_distance: usize, correct_chunks: Vec<(i32, i32)>) {

    let world = World::new("test_world".to_string(), 0, render_distance, (32, 256, 32));
    let mut character: Character = Character::new();

    // update the players chunk
    character.chunk_position = (0, 0);

    // run the function
    let result: HashSet<(i32, i32)> = world.get_chunks_around_character(&character).into_iter().collect();

    assert_eq!(result.len(), correct_chunks.len(), "Length of result and correct chunks vectors are different");
    // go throuch the correct chunks and check that they are in the result
    for chunk in correct_chunks {
        assert_eq!(result.contains(&chunk), true);
    }
}

#[test]
fn test_get_chunks_around_character_render_distance_1() {
    let render_distance: usize = 1;
    let correct_chunks: Vec<(i32, i32)> = vec![
        (0, 0),
        (1, 0),
        (-1, 0),
        (0, 1),
        (0, -1),
    ];

    check_get_chunks_around_character(render_distance, correct_chunks);
}

#[test]
fn test_get_chunks_around_character_render_distance_2() {
    let render_distance: usize = 2;
    let correct_chunks: Vec<(i32, i32)> = vec![
        (0, 2),

        (1, 1),
        (0, 1),
        (-1, 1),

        (2, 0),
        (1, 0),
        (0, 0),
        (-1, 0),
        (-2, 0),

        (1, -1),
        (0, -1),
        (-1, -1),

        (0, -2),
    ];

    check_get_chunks_around_character(render_distance, correct_chunks);
}

fn radius_3_chunks() -> Vec<(i32, i32)> {
    vec![
        (0, 3),

        (1, 2),
        (0, 2),
        (-1, 2),

        (2, 1),
        (1, 1),
        (0, 1),
        (-1, 1),
        (-2, 1),

        (3, 0),
        (2, 0),
        (1, 0),
        (0, 0),
        (-1, 0),
        (-2, 0),
        (-3, 0),

        (2, -1),
        (1, -1),
        (0, -1),
        (-1, -1),
        (-2, -1),

        (1, -2),
        (0, -2),
        (-1, -2),

        (0, -3),
    ]
}

#[test]
fn test_get_chunks_around_character_render_distance_3() {
    check_get_chunks_around_character(3, radius_3_chunks());
}

// optimisation tests
fn check_opt_get_chunks_around_character<F>(get_chunks_around_character: F)
where
    F: Fn(&World, &Character) -> Vec<(i32, i32)>,
{
    let world: World = World::new("test_world".to_string(), 0, 3, (32, 256, 32));
    let mut character: Character = Character::new();

    // update the players chunk
    character.chunk_position = (0, 0);

    let correct_chunks: Vec<(i32, i32)> = radius_3_chunks();

    // run the function
    let result: Vec<(i32, i32)> = get_chunks_around_character(&world, &character);

    assert_eq!(result.len(), correct_chunks.len(), "Length of result and correct chunks vectors are different");
    // go throuch the correct chunks and check that they are in the result
    for chunk in correct_chunks {
        assert_eq!(result.contains(&chunk), true);
    }
}

#[test]
fn test_get_chunks_around_character_old() {
    check_opt_get_chunks_around_character(get_chunks_around_character_old);
}

#[test]
fn test_get_chunks_around_character_new_1() {
    check_opt_get_chunks_around_character(get_chunks_around_character_new_1);
}

#[test]
fn test_get_chunks_around_character_new_2() {
    check_opt_get_chunks_around_character(get_chunks_around_character_new_2);
}

#[test]
fn chunks_around_character_count_and_no_repeats() {
    for r in 0..6usize {
        let world = World::new("w".to_string(), 0, r, (8, 16, 8));
        let mut character = Character::new();
        character.chunk_position = (-7, 12);
        let result = world.get_chunks_around_character(&character);
        let set: HashSet<(i32, i32)> = result.iter().cloned().collect();
        let r = r as i32;
        assert_eq!(result.len() as i32, 2 * r * r + 2 * r + 1);
        assert_eq!(set.len(), result.len());
        for (x, z) in &result {
            assert!((x + 7).abs() + (z - 12).abs() <= r);
        }
    }
}

#[test]
fn chunks_around_character_radius_zero_is_own_chunk() {
    let world = World::new("w".to_string(), 0, 0, (8, 16, 8));
    let mut character = Character::new();
    character.chunk_position = (4, -4);
    assert_eq!(world.get_chunks_around_character(&character), vec![(4, -4)]);
}
