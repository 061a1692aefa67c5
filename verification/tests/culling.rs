use std::collections::HashSet;

use block_world::culling::{
    check_visible_faces_for_block, cull_faces, cull_faces_for_chunk, update_visible_faces,
    VisibleFace,
};
use block_world::types::{BlockRegistry, BlockTextures, BlockType, Direction};
use block_world::world::{Chunk, ChunkPosition, World};

#[test]
fn test_middle_block() {
    let block_registry = BlockRegistry::new();
    let world = World::new(block_registry);
    let chunk = Chunk::default();
    let chunk_position = ChunkPosition { x: 0, z: 0 };
    let block_position = (8, 64, 8);
    let block_type_id = 1;

    let visible_faces =
        check_visible_faces_for_block(block_type_id, &world, &chunk, chunk_position, block_position);

    assert_eq!(visible_faces.len(), 6);
}

#[test]
fn test_top_and_bottom_blocks() {
    let block_registry = BlockRegistry::new();
    let world = World::new(block_registry);
    let chunk = Chunk::default();
    let chunk_position = ChunkPosition { x: 0, z: 0 };
    let block_type_id = 1;

    // Top block
    let block_position_top = (8, 255, 8);
    let visible_faces_top = check_visible_faces_for_block(
        block_type_id,
        &world,
        &chunk,
        chunk_position,
        block_position_top,
    );
    assert_eq!(visible_faces_top.len(), 6);

    // Bottom block
    let block_position_bottom = (8, 0, 8);
    let visible_faces_bottom = check_visible_faces_for_block(
        block_type_id,
        &world,
        &chunk,
        chunk_position,
        block_position_bottom,
    );
    assert_eq!(visible_faces_bottom.len(), 6);
}

#[test]
fn test_chunk_edge_not_loaded() {
    let block_registry = BlockRegistry::new();
    let world = World::new(block_registry);
    let chunk = Chunk::default();
    let chunk_position = ChunkPosition { x: 0, z: 0 };
    let block_type_id = 1;

    // Left edge
    let block_position_left = (0, 64, 8);
    let visible_faces_left = check_visible_faces_for_block(
        block_type_id,
        &world,
        &chunk,
        chunk_position,
        block_position_left,
    )
    .into_iter()
    .map(|f| f.direction)
    .collect::<HashSet<_>>();
    assert_eq!(visible_faces_left.len(), 5);
    assert!(!visible_faces_left.contains(&Direction::West));

    // Right edge
    let block_position_right = (15, 64, 8);
    let visible_faces_right = check_visible_faces_for_block(
        block_type_id,
        &world,
        &chunk,
        chunk_position,
        block_position_right,
    );
    assert_eq!(visible_faces_right.len(), 5);

    // Front edge
    let block_position_front = (8, 64, 0);
    let visible_faces_front = check_visible_faces_for_block(
        block_type_id,
        &world,
        &chunk,
        chunk_position,
        block_position_front,
    );
    assert_eq!(visible_faces_front.len(), 5);

    // Back edge
    let block_position_back = (8, 64, 15);
    let visible_faces_back = check_visible_faces_for_block(
        block_type_id,
        &world,
        &chunk,
        chunk_position,
        block_position_back,
    );
    assert_eq!(visible_faces_back.len(), 5);
}

#[test]
fn test_chunk_edge_loaded() {
    let block_registry = BlockRegistry::new();
    let mut world = World::new(block_registry);
    let chunk_position = ChunkPosition { x: 0, z: 0 };
    world.insert_chunk(chunk_position, Chunk::default());
    let block_type_id = 1;

    let neighbor_chunk = Chunk::default();
    let neighbor_chunk_position = ChunkPosition { x: 1, z: 0 };
    world.insert_chunk(neighbor_chunk_position, neighbor_chunk);

    let block_position_x_plus = (15, 64, 8);
    let visible_faces = check_visible_faces_for_block(
        block_type_id,
        &world,
        world.get_chunk(&chunk_position).unwrap(),
        chunk_position,
        block_position_x_plus,
    );
    assert_eq!(visible_faces.len(), 6);

    // a solid block at the mirrored position of the neighbor chunk
    world.set_block(16, 64, 8, 1);
    assert!(!world.block_registry.block_type_at(1).unwrap().transparent);
    let visible_faces = check_visible_faces_for_block(
        block_type_id,
        &world,
        world.get_chunk(&chunk_position).unwrap(),
        chunk_position,
        block_position_x_plus,
    );
    assert_eq!(visible_faces.len(), 5);
}

#[test]
fn test_chunk_dig_one_block() {
    let chunk_position = ChunkPosition { x: 0, z: 0 };
    let block_registry = BlockRegistry::new();
    let mut world = World::new(block_registry);
    world.insert_chunk(chunk_position, Chunk::default());

    assert!(!world.block_registry.is_block_transparent(1));

    let stone_id = 1;

    for y in 0..64 {
        for x in 0..16 {
            for z in 0..16 {
                world.set_block(x, y, z, stone_id);
            }
        }
    }
    let visible_faces = cull_faces(&world);
    assert_eq!(
        visible_faces.into_iter().map(|(_, v)| v.len()).sum::<usize>(),
        16 * 16 * 2
    );

    world.set_block(1, 63, 1, 0);

    let visible_faces = cull_faces(&world);
    assert_eq!(
        visible_faces.into_iter().map(|(_, v)| v.len()).sum::<usize>(),
        16 * 16 * 2 + 4
    );
}

#[test]
fn interior_block_of_solid_cube_has_no_faces() {
    let mut world = World::new(BlockRegistry::new());
    world.fill_cuboid([6, 60, 6], [11, 65, 11], 1);
    let chunk_position = ChunkPosition { x: 0, z: 0 };
    let chunk = world.get_chunk(&chunk_position).unwrap();
    let faces = check_visible_faces_for_block(1, &world, chunk, chunk_position, (8, 62, 8));
    assert_eq!(faces.len(), 0);
}

#[test]
fn transparent_block_shows_six_faces_even_when_buried() {
    let mut registry = BlockRegistry::new();
    registry.register(BlockType {
        name: "glass".to_owned(),
        textures: BlockTextures::uniform(0),
        transparent: true,
    });
    let glass_id = 3;
    assert!(registry.is_block_transparent(glass_id));
    let mut world = World::new(registry);
    // bury the probe position in solid stone
    world.fill_cuboid([6, 60, 6], [11, 65, 11], 1);
    let chunk_position = ChunkPosition { x: 0, z: 0 };
    let chunk = world.get_chunk(&chunk_position).unwrap();
    let faces = check_visible_faces_for_block(glass_id, &world, chunk, chunk_position, (8, 62, 8));
    assert_eq!(faces.len(), 6);
}

#[test]
fn air_block_contributes_no_faces() {
    let world = World::new(BlockRegistry::new());
    let chunk = Chunk::default();
    let chunk_position = ChunkPosition { x: 0, z: 0 };
    let faces = check_visible_faces_for_block(0, &world, &chunk, chunk_position, (8, 64, 8));
    assert_eq!(faces.len(), 0);
    let faces_at_floor = check_visible_faces_for_block(0, &world, &chunk, chunk_position, (0, 0, 0));
    assert_eq!(faces_at_floor.len(), 0);
}

#[test]
fn all_faces_lists_each_direction_once() {
    let faces = VisibleFace::all_faces((3, 4, 5), 1);
    assert_eq!(faces.len(), 6);
    let directions: HashSet<Direction> = faces.iter().map(|f| f.direction).collect();
    assert_eq!(directions.len(), 6);
    for face in &faces {
        assert_eq!(face.position, (3, 4, 5));
        assert_eq!(face.block_type_id, 1);
    }
}

#[test]
fn cull_faces_for_chunk_counts_slab_top_and_bottom() {
    let mut world = World::new(BlockRegistry::new());
    world.fill_cuboid([0, 0, 0], [16, 64, 16], 1);
    let chunk_position = ChunkPosition { x: 0, z: 0 };
    let chunk = world.get_chunk(&chunk_position).unwrap();
    let faces = cull_faces_for_chunk(&world, chunk, chunk_position);
    assert_eq!(faces.len(), 16 * 16 * 2);
}

#[test]
fn update_visible_faces_recomputes_only_listed_chunks() {
    let mut world = World::new(BlockRegistry::new());
    world.fill_cuboid([0, 0, 0], [16, 64, 16], 1);
    // a second, distant chunk
    world.fill_cuboid([64, 0, 64], [80, 64, 80], 1);
    let near = ChunkPosition { x: 0, z: 0 };
    let far = ChunkPosition { x: 4, z: 4 };
    let mut visibility = cull_faces(&world);
    assert_eq!(
        visibility.values().map(|v| v.len()).sum::<usize>(),
        2 * 16 * 16 * 2
    );

    // dig one interior top block of the near chunk and recull only it
    world.set_block(1, 63, 1, 0);
    let stale_far = visibility.get(&far.key()).unwrap().clone();
    update_visible_faces(&world, &mut visibility, &vec![near]);
    assert_eq!(visibility.get(&near.key()).unwrap().len(), 16 * 16 * 2 + 4);
    assert_eq!(visibility.get(&far.key()).unwrap(), &stale_far);
}
