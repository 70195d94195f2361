use dd_terrain::common::BlockType;
use dd_terrain::minecraft::{get_block_to_push, get_block_type_ng, get_section_place};

#[test]
fn an_exact_name_decides_before_any_part_of_it() {
    assert_eq!(get_block_type_ng("stone"), BlockType::Stone);
    assert_eq!(get_block_type_ng("grass_block"), BlockType::Grass);
    assert_eq!(get_block_type_ng("red_sand"), BlockType::RedSand);
    assert_eq!(get_block_type_ng("cobblestone"), BlockType::Cobblestone);
    assert_eq!(get_block_type_ng("granite"), BlockType::Dirt);
    assert_eq!(get_block_type_ng("diorite"), BlockType::DarkStone);
    assert_eq!(get_block_type_ng("andesite"), BlockType::DarkStone);
    assert_eq!(get_block_type_ng("deepslate"), BlockType::Stone);
    assert_eq!(get_block_type_ng("gravel"), BlockType::Stone);
    assert_eq!(get_block_type_ng("oak_stairs"), BlockType::Planks);
    assert_eq!(get_block_type_ng("white_terracotta"), BlockType::Cobblestone);
    assert_eq!(get_block_type_ng("air"), BlockType::Air);
}

#[test]
fn the_first_part_that_a_name_holds_decides() {
    assert_eq!(get_block_type_ng("coarse_dirt"), BlockType::Dirt);
    assert_eq!(get_block_type_ng("stone_bricks"), BlockType::Cobblestone);
    assert_eq!(get_block_type_ng("sandstone"), BlockType::Cobblestone);
    assert_eq!(get_block_type_ng("redstone_ore"), BlockType::Cobblestone);
    assert_eq!(get_block_type_ng("sand"), BlockType::Sand);
    assert_eq!(get_block_type_ng("deepslate_iron_ore"), BlockType::Ore);
    assert_eq!(get_block_type_ng("oak_log"), BlockType::Wood);
    assert_eq!(get_block_type_ng("birch_leaves"), BlockType::Leaves);
    assert_eq!(get_block_type_ng("water"), BlockType::Water);
    assert_eq!(get_block_type_ng("lava"), BlockType::Lava);
    assert_eq!(get_block_type_ng("spruce_planks"), BlockType::Planks);
    assert_eq!(get_block_type_ng("glass_pane"), BlockType::Glass);
}

#[test]
fn a_name_that_holds_no_part_is_unknown() {
    assert_eq!(get_block_type_ng("bedrock"), BlockType::Unknown);
    assert_eq!(get_block_type_ng("cave_air"), BlockType::Unknown);
    assert_eq!(get_block_type_ng(""), BlockType::Unknown);
    assert_eq!(get_block_type_ng("grass"), BlockType::Unknown);
    assert_eq!(get_block_type_ng("lo"), BlockType::Unknown);
    assert_eq!(get_block_type_ng("Stone"), BlockType::Unknown);
}

#[test]
fn air_and_blacklisted_blocks_are_left_out() {
    assert_eq!(get_block_to_push("minecraft:air"), None);
    for name in [
        "dead_bush", "grass", "fern", "tall_grass", "vine", "cocoa", "poppy", "dandelion",
        "torch", "wall_torch", "oak_door",
    ] {
        assert_eq!(get_block_to_push(&format!("minecraft:{name}")), None);
    }
}

#[test]
fn a_name_without_the_prefix_is_left_out() {
    assert_eq!(get_block_to_push("stone"), None);
    assert_eq!(get_block_to_push("minecraft"), None);
    assert_eq!(get_block_to_push("mod:stone"), None);
    assert_eq!(get_block_to_push(""), None);
    assert_eq!(get_block_to_push(" minecraft:stone"), None);
}

#[test]
fn every_other_block_is_taken_with_its_material() {
    assert_eq!(get_block_to_push("minecraft:stone"), Some(BlockType::Stone));
    assert_eq!(get_block_to_push("minecraft:oak_log"), Some(BlockType::Wood));
    assert_eq!(get_block_to_push("minecraft:grass_block"), Some(BlockType::Grass));
    assert_eq!(get_block_to_push("minecraft:bedrock"), Some(BlockType::Unknown));
    assert_eq!(get_block_to_push("minecraft:cave_air"), Some(BlockType::Unknown));
    assert_eq!(get_block_to_push("minecraft:"), Some(BlockType::Unknown));
    // Only the name as a whole is on the blacklist.
    assert_eq!(get_block_to_push("minecraft:redstone_torch"), Some(BlockType::Cobblestone));
    assert_eq!(get_block_to_push("minecraft:large_fern"), Some(BlockType::Unknown));
}

#[test]
fn section_places_run_x_then_z_then_y() {
    assert_eq!(get_section_place(0), (0, 0, 0));
    assert_eq!(get_section_place(15), (15, 0, 0));
    assert_eq!(get_section_place(16), (0, 0, 1));
    assert_eq!(get_section_place(255), (15, 0, 15));
    assert_eq!(get_section_place(256), (0, 1, 0));
    assert_eq!(get_section_place(0x0A5C), (12, 10, 5));
    assert_eq!(get_section_place(4095), (15, 15, 15));
    assert_eq!(get_section_place(4096), (0, 0, 0));
}
