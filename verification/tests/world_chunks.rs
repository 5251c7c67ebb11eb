use std::collections::{HashSet, VecDeque};
use rust_craft::{
    character::Character,
    chunk::Chunk,
    keys::{chunk_key_of, chunk_id_of_key},
    main_game_loop::clean_up,
    world::{World, remove_chunk, unload_all_chunks},
};

fn world_with(ids: &[(i32, i32)], render_distance: usize) -> World {
    let mut world = World::new("w".to_string(), 1, render_distance, (8, 16, 8));
    for id in ids {
        world.chunks.insert(chunk_key_of(*id), Chunk::new(id.0, id.1, -1));
    }
    world
}

#[test]
fn chunk_keys_round_trip() {
    for id in [(0, 0), (-1, 1), (i32::MIN, i32::MAX), (i32::MAX, i32::MIN), (123, -456)] {
        assert_eq!(chunk_id_of_key(chunk_key_of(id)), id);
    }
    assert_ne!(chunk_key_of((1, 2)), chunk_key_of((2, 1)));
}

#[test]
fn first_load_queues_every_chunk_without_unloads() {
    let world = world_with(&[], 1);
    let mut character = Character::new();
    let mut queue = VecDeque::new();
    world.update_chunks_if_moved(&mut character, &mut queue);
    assert!(!character.chunk_changed);
    assert_eq!(queue.len(), 5);
    assert!(queue.iter().all(|(_, unload)| unload.is_none()));
    let loaded: HashSet<(i32, i32)> = queue.iter().map(|(id, _)| *id).collect();
    let expected: HashSet<(i32, i32)> = [(0, 0), (1, 0), (-1, 0), (0, 1), (0, -1)].into_iter().collect();
    assert_eq!(loaded, expected);
    // nothing more while the player stays in the chunk
    world.update_chunks_if_moved(&mut character, &mut queue);
    assert_eq!(queue.len(), 5);
}

#[test]
fn moving_pairs_loads_with_unloads() {
    let world = world_with(&[(0, 0), (1, 0), (-1, 0), (0, 1), (0, -1)], 1);
    let mut character = Character::new();
    character.chunk_changed = false;
    character.update_chunk_position(1, 0);
    assert!(character.chunk_changed);
    assert_eq!(character.get_current_chunk(), (1, 0));
    let mut queue = VecDeque::new();
    world.update_chunks_if_moved(&mut character, &mut queue);
    // (2, 0), (1, 1), (1, -1) come in; (-1, 0), (0, 1), (0, -1) go out
    assert_eq!(queue.len(), 3);
    let loaded: HashSet<(i32, i32)> = queue.iter().map(|(id, _)| *id).collect();
    assert_eq!(loaded, [(2, 0), (1, 1), (1, -1)].into_iter().collect());
    let unloaded: HashSet<(i32, i32)> = queue.iter().map(|(_, u)| u.unwrap()).collect();
    assert_eq!(unloaded, [(-1, 0), (0, 1), (0, -1)].into_iter().collect());
}

#[test]
fn unloads_must_fit_loads() {
    let world = world_with(&[(0, 0), (5, 5), (6, 6)], 0);
    let mut queue = VecDeque::new();
    queue.push_back(((9, 9), None));
    // (0, 0) stays; two chunks would leave and none come in
    assert!(!world.unloads_fit_check(&vec![(0, 0)]));
    assert_eq!(queue.len(), 1);
    // as many loads as unloads is fine
    assert!(world.unloads_fit_check(&vec![(0, 0), (1, 1), (2, 2)]));
    world.update_chunks_around_character(&vec![(0, 0), (1, 1), (2, 2)], &mut queue);
    assert_eq!(queue.len(), 3);
}

#[test]
fn remove_and_unload_chunks() {
    let mut world = world_with(&[(0, 0), (3, 4)], 1);
    let removed = remove_chunk(&mut world.chunks, (3, 4)).unwrap();
    assert_eq!((removed.chunk_id_x, removed.chunk_id_z), (3, 4));
    assert!(remove_chunk(&mut world.chunks, (3, 4)).is_none());
    assert_eq!(world.chunks.len(), 1);
    let mut world = world_with(&[(0, 0), (3, 4), (-2, 7)], 1);
    let all = unload_all_chunks(&mut world.chunks);
    assert!(world.chunks.is_empty());
    let ids: HashSet<(i32, i32)> = all.iter().map(|c| (c.chunk_id_x, c.chunk_id_z)).collect();
    assert_eq!(ids, [(0, 0), (3, 4), (-2, 7)].into_iter().collect());
}

#[test]
fn finished_chunk_replaces_its_pair() {
    let mut world = world_with(&[(0, 0), (1, 1)], 1);
    let removed = world.finish_up_chunk(Chunk::new(2, 2, -1), Some((1, 1)));
    assert_eq!(removed.map(|c| (c.chunk_id_x, c.chunk_id_z)), Some((1, 1)));
    assert!(world.chunks.contains_key(&chunk_key_of((2, 2))));
    assert!(!world.chunks.contains_key(&chunk_key_of((1, 1))));
    assert!(world.created_chunks.contains(&chunk_key_of((2, 2))));
    let removed = world.finish_up_chunk(Chunk::new(3, 3, -1), None);
    assert!(removed.is_none());
    assert_eq!(world.chunks.len(), 3);
}

#[test]
fn character_chunk_changes() {
    let mut c = Character::new();
    assert!(c.chunk_changed);
    assert_eq!(c.get_current_chunk(), (0, 0));
    c.chunk_changed = false;
    c.update_chunk_position(0, 0);
    assert!(!c.chunk_changed);
    c.update_chunk_position(0, -1);
    assert!(c.chunk_changed);
    assert_eq!(c.chunk_position, (0, -1));
}

#[test]
fn clean_up_stops_the_generation_thread() {
    let mut continue_running = true;
    clean_up(&mut continue_running);
    assert!(!continue_running);
}
