#![allow(non_snake_case)]

use rust_craft::block_type::BlockType;

#[test]
fn test1_Test_Add1() {
    let result = 2 + 2;
    assert_eq!(result, 4);
}

#[test]
fn test1_Test_Add2() {
    let result = 4 + 7;
    assert_eq!(result, 11, "Testing addition of {} + {}", 4, 7);
}

#[test]
fn block_type_ids_round_trip() {
    let kinds = [
        BlockType::Air,
        BlockType::Bedrock,
        BlockType::Void,
        BlockType::Grass,
        BlockType::Dirt,
        BlockType::Sand,
        BlockType::Stone,
        BlockType::Cobblestone,
    ];
    let ids = [0u16, 1, 2, 301, 302, 320, 400, 401];
    for i in 0..kinds.len() {
        assert_eq!(kinds[i].to_int(), ids[i]);
        assert_eq!(BlockType::from_int(ids[i]), kinds[i]);
        assert_eq!(rust_craft::block_type::block_type_for_id(ids[i]), Some(kinds[i]));
    }
    assert_eq!(rust_craft::block_type::block_type_for_id(3), None);
    assert_eq!(rust_craft::block_type::block_type_for_id(402), None);
}

#[test]
fn block_type_properties() {
    assert!(BlockType::Sand.is_dynamic());
    assert!(BlockType::Sand.IsDynamic());
    assert!(!BlockType::Stone.is_dynamic());
    assert!(BlockType::Air.is_transparent());
    assert!(!BlockType::Void.is_transparent());
    assert!(!BlockType::Grass.is_transparent());
    assert_eq!(BlockType::Grass.colour_bytes(), (75, 150, 50, 255));
    assert_eq!(BlockType::Air.colour_bytes(), (175, 250, 250, 50));
}
