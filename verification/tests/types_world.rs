use block_world::types::{BlockRegistry, BlockTextures, BlockType, Direction};
use block_world::world::{Chunk, ChunkPosition, World, CHUNK_VOLUME};

#[test]
fn direction_offsets_are_unit_vectors() {
    assert_eq!(Direction::Up.to_offset(), (0, 1, 0));
    assert_eq!(Direction::Down.to_offset(), (0, -1, 0));
    assert_eq!(Direction::North.to_offset(), (0, 0, -1));
    assert_eq!(Direction::South.to_offset(), (0, 0, 1));
    assert_eq!(Direction::East.to_offset(), (1, 0, 0));
    assert_eq!(Direction::West.to_offset(), (-1, 0, 0));
}

#[test]
fn uniform_textures_cover_all_faces() {
    let textures = BlockTextures::uniform(7);
    assert_eq!(textures.up, Some(7));
    assert_eq!(textures.down, Some(7));
    assert_eq!(textures.north, Some(7));
    assert_eq!(textures.south, Some(7));
    assert_eq!(textures.east, Some(7));
    assert_eq!(textures.west, Some(7));
    let empty = BlockTextures::default();
    assert_eq!(empty.up, None);
    assert_eq!(empty.west, None);
}

#[test]
fn registry_keeps_air_first_and_insertion_order() {
    let registry = BlockRegistry::new();
    assert_eq!(registry.len(), 3);
    assert_eq!(registry.block_type_at(0).unwrap().name, "air");
    assert_eq!(registry.block_type_at(1).unwrap().name, "stone");
    assert_eq!(registry.block_type_at(2).unwrap().name, "grass");
    assert!(registry.block_type_at(3).is_none());
    assert!(registry.is_block_transparent(0));
    assert!(!registry.is_block_transparent(1));
    assert!(!registry.is_block_transparent(2));
}

#[test]
fn registering_appends_behind_existing_types() {
    let mut registry = BlockRegistry::new();
    registry.register(BlockType {
        name: "glass".to_owned(),
        textures: BlockTextures::uniform(2),
        transparent: true,
    });
    assert_eq!(registry.len(), 4);
    assert_eq!(registry.block_type_at(3).unwrap().name, "glass");
    assert!(registry.is_block_transparent(3));
    // the earlier entries keep their positions
    assert_eq!(registry.block_type_at(0).unwrap().name, "air");
    assert_eq!(registry.block_type_at(1).unwrap().name, "stone");
}

#[test]
fn default_registry_holds_only_air() {
    let registry = BlockRegistry::default();
    assert_eq!(registry.len(), 1);
    assert_eq!(registry.block_type_at(0).unwrap().name, "air");
    assert!(registry.block_type_at(0).unwrap().transparent);
}

#[test]
fn default_chunk_is_all_air() {
    let chunk = Chunk::default();
    assert_eq!(chunk.blocks.len(), CHUNK_VOLUME);
    assert_eq!(chunk.get_block(0, 0, 0), 0);
    assert_eq!(chunk.get_block(15, 255, 15), 0);
}

#[test]
fn chunk_set_block_reads_back() {
    let mut chunk = Chunk::default();
    chunk.set_block(3, 200, 9, 2);
    assert_eq!(chunk.get_block(3, 200, 9), 2);
    assert_eq!(chunk.get_block(3, 201, 9), 0);
    assert_eq!(chunk.get_block(9, 200, 3), 0);
}

#[test]
fn world_block_access_spans_chunks_and_negative_coordinates() {
    let mut world = World::new(BlockRegistry::new());
    assert_eq!(world.get_block(-1, 0, -1), 0);
    world.set_block(-1, 5, -1, 1);
    assert_eq!(world.get_block(-1, 5, -1), 1);
    assert_eq!(world.get_block(0, 5, 0), 0);
    assert!(world.get_chunk(&ChunkPosition { x: -1, z: -1 }).is_some());
    assert!(world.get_chunk(&ChunkPosition { x: 0, z: 0 }).is_none());
    world.set_block(0, 5, 0, 2);
    assert_eq!(world.get_block(0, 5, 0), 2);
    assert_eq!(world.get_block(-1, 5, -1), 1);
}

#[test]
fn inserting_a_chunk_twice_replaces_it() {
    let mut world = World::new(BlockRegistry::new());
    let position = ChunkPosition { x: 2, z: 3 };
    let mut chunk = Chunk::default();
    chunk.set_block(1, 1, 1, 1);
    world.insert_chunk(position, chunk);
    assert_eq!(world.get_block(33, 1, 49), 1);
    world.insert_chunk(position, Chunk::default());
    assert_eq!(world.get_block(33, 1, 49), 0);
    assert_eq!(world.loaded.len(), 1);
}

#[test]
fn fill_cuboid_sets_exactly_the_box() {
    let mut world = World::new(BlockRegistry::new());
    world.fill_cuboid([-2, 10, -2], [2, 12, 2], 1);
    assert_eq!(world.get_block(-2, 10, -2), 1);
    assert_eq!(world.get_block(1, 11, 1), 1);
    assert_eq!(world.get_block(2, 10, 0), 0);
    assert_eq!(world.get_block(0, 12, 0), 0);
    assert_eq!(world.get_block(-3, 10, 0), 0);
}

#[test]
fn fill_sphere_respects_the_radius() {
    let mut world = World::new(BlockRegistry::new());
    world.fill_sphere([8, 100, 8], 3, 2);
    assert_eq!(world.get_block(8, 100, 8), 2);
    assert_eq!(world.get_block(8, 98, 8), 2);
    // dx*dx + dy*dy + dz*dz = 9 is still within radius 3
    assert_eq!(world.get_block(9, 102, 10), 2);
    // the upper bound of each axis range is exclusive
    assert_eq!(world.get_block(8, 103, 8), 0);
    assert_eq!(world.get_block(8, 100, 11), 0);
    // a corner outside the ball stays air
    assert_eq!(world.get_block(10, 102, 10), 0);
}

#[test]
fn position_keys_separate_nearby_chunks() {
    let a = ChunkPosition { x: 0, z: 1 }.key();
    let b = ChunkPosition { x: 1, z: 0 }.key();
    let c = ChunkPosition { x: -1, z: 0 }.key();
    let d = ChunkPosition { x: 0, z: -1 }.key();
    let keys = [a, b, c, d];
    for (i, k1) in keys.iter().enumerate() {
        for (j, k2) in keys.iter().enumerate() {
            assert_eq!(i == j, k1 == k2);
        }
    }
}

#[test]
fn position_key_packs_both_coordinates() {
    assert_eq!(ChunkPosition { x: 1, z: 2 }.key(), (1u64 << 32) | 2);
    assert_eq!(ChunkPosition { x: 0, z: 0 }.key(), 0);
    assert_eq!(ChunkPosition { x: -1, z: -1 }.key(), u64::MAX);
    assert_eq!(ChunkPosition { x: -1, z: 0 }.key(), 0xFFFF_FFFF_0000_0000);
}

#[test]
fn fill_sphere_with_zero_radius_changes_nothing() {
    let mut world = World::new(BlockRegistry::new());
    world.fill_sphere([8, 100, 8], 0, 1);
    assert_eq!(world.get_block(8, 100, 8), 0);
    assert!(world.loaded.is_empty());
}
