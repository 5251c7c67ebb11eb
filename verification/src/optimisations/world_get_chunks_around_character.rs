//! Ways of listing the chunks around the player.
use vstd::prelude::*;
use crate::character::Character;
use crate::world::{
    World, render_area, render_area_fits, render_area_size, rows_walked, rows_walked_size,
    chunks_in_render_area, push_centre_row, push_row_pair, lemma_rows_size,
};

verus! {

/// The first version: the diamond row by row, the centre row first.
pub fn get_chunks_around_character_old(world: &World, character: &Character) -> (chunks_to_load:
    Vec<(i32, i32)>)
    requires
        render_area_fits(character.chunk_position, world.render_distance as int),
    ensures
        chunks_to_load@.no_duplicates(),
        chunks_to_load@.to_set() == render_area(
            character.chunk_position,
            world.render_distance as int,
        ),
        chunks_to_load@.len() == render_area_size(world.render_distance as int),
{
    let max_radius: i32 = world.render_distance as i32;
    chunks_in_render_area(character.chunk_position, max_radius)
}

/// The same walk without the separate maximum radius.
pub fn get_chunks_around_character_new_1(world: &World, character: &Character) -> (chunks_to_load:
    Vec<(i32, i32)>)
    requires
        render_area_fits(character.chunk_position, world.render_distance as int),
    ensures
        chunks_to_load@.no_duplicates(),
        chunks_to_load@.to_set() == render_area(
            character.chunk_position,
            world.render_distance as int,
        ),
        chunks_to_load@.len() == render_area_size(world.render_distance as int),
{
    chunks_in_render_area(character.chunk_position, world.render_distance as i32)
}

/// The walk with the centre row taken out of the loop, so that the loop
/// body no longer tests for it.
pub fn get_chunks_around_character_new_2(world: &World, character: &Character) -> (chunks_to_load:
    Vec<(i32, i32)>)
    requires
        render_area_fits(character.chunk_position, world.render_distance as int),
    ensures
        chunks_to_load@.no_duplicates(),
        chunks_to_load@.to_set() == render_area(
            character.chunk_position,
            world.render_distance as int,
        ),
        chunks_to_load@.len() == render_area_size(world.render_distance as int),
{
    let centre: (i32, i32) = character.chunk_position;
    let radius: i32 = world.render_distance as i32;
    let mut chunks_to_load: Vec<(i32, i32)> = Vec::new();
    push_centre_row(&mut chunks_to_load, centre, radius);
    let mut chunk_z_diff: i32 = 1;
    while chunk_z_diff < radius + 1
        invariant
            render_area_fits(centre, radius as int),
            1 <= chunk_z_diff <= radius + 1,
            chunks_to_load@.no_duplicates(),
            chunks_to_load@.to_set() == rows_walked(
                centre,
                radius as int,
                chunk_z_diff as int,
                i32::MIN as int,
            ),
            chunks_to_load@.len() == rows_walked_size(radius as int, chunk_z_diff as int),
        decreases radius + 1 - chunk_z_diff,
    {
        push_row_pair(&mut chunks_to_load, centre, radius, chunk_z_diff);
        chunk_z_diff = chunk_z_diff + 1;
    }
    proof {
        lemma_rows_size(radius as int);
        assert(rows_walked(centre, radius as int, radius + 1, i32::MIN as int) =~= render_area(
            centre,
            radius as int,
        ));
    }
    chunks_to_load
}

} // verus!
