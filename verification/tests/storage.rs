use std::collections::HashSet;

use block_world::storage::{ChunkUpdate, GpuBlock, GpuChunkStorage, StorageError, SLOT_VOLUME};
use block_world::world::ChunkPosition;

fn payload(tag: u32) -> GpuBlock {
    GpuBlock { voxel_offset: tag, voxel_len: 2, connected_bits: 0 }
}

fn set(block_index: u32, tag: u32) -> ChunkUpdate {
    ChunkUpdate { block_index, block: Some(payload(tag)) }
}

fn clear(block_index: u32) -> ChunkUpdate {
    ChunkUpdate { block_index, block: None }
}

#[test]
fn new_storage_free_list_covers_every_slot_once() {
    let storage = GpuChunkStorage::new(5);
    assert_eq!(storage.chunk_holes.len(), 5);
    let distinct: HashSet<u32> = storage.chunk_holes.iter().copied().collect();
    assert_eq!(distinct, (0..5).collect::<HashSet<u32>>());
    // ordered so that assignment proceeds from id 0 upward
    assert_eq!(storage.chunk_holes, vec![4, 3, 2, 1, 0]);
    assert_eq!(storage.chunk_buffer.len(), 5 * SLOT_VOLUME);
    assert_eq!(storage.index_buffer.len(), 5 * SLOT_VOLUME);
}

#[test]
fn first_assigned_chunk_gets_lowest_slot() {
    let mut storage = GpuChunkStorage::new(3);
    storage.update(ChunkPosition { x: 7, z: -2 }, &vec![set(0, 1)]).unwrap();
    storage.update(ChunkPosition { x: 0, z: 0 }, &vec![set(1, 2)]).unwrap();
    assert_eq!(storage.assigned.len(), 2);
    assert_eq!(storage.assigned[0].slot, 0);
    assert_eq!(storage.assigned[1].slot, 1);
    assert_eq!(storage.assigned[0].position, ChunkPosition { x: 7, z: -2 });
}

#[test]
fn capacity_exhaustion_on_first_update_of_extra_chunk() {
    let mut storage = GpuChunkStorage::new(2);
    assert!(storage.update(ChunkPosition { x: 0, z: 0 }, &vec![set(0, 1)]).is_ok());
    assert!(storage.update(ChunkPosition { x: 1, z: 0 }, &vec![set(0, 1)]).is_ok());
    // further updates of known chunks still succeed
    assert!(storage.update(ChunkPosition { x: 0, z: 0 }, &vec![set(5, 2)]).is_ok());
    // the third distinct chunk finds no free slot
    let result = storage.update(ChunkPosition { x: 2, z: 0 }, &vec![set(0, 1)]);
    assert_eq!(result, Err(StorageError::CapacityExhausted));
    // the failed call changed nothing
    assert_eq!(storage.assigned.len(), 2);
    assert_eq!(storage.chunk_holes.len(), 0);
}

#[test]
fn update_writes_payloads_into_the_slot_segment() {
    let mut storage = GpuChunkStorage::new(2);
    let position = ChunkPosition { x: 0, z: 0 };
    storage.update(position, &vec![set(9, 41)]).ok();
    let slot = storage.assigned[0].slot as usize;
    assert_eq!(storage.chunk_buffer[slot * SLOT_VOLUME + 9], payload(41));
    // a removal leaves the stale payload in place but clears the occupancy
    storage.update(position, &vec![clear(9)]).ok();
    assert_eq!(storage.chunk_buffer[slot * SLOT_VOLUME + 9], payload(41));
    assert!(!storage.occupied[slot * SLOT_VOLUME + 9]);
}

#[test]
fn rebuild_counts_every_occupied_position_exactly_once() {
    let mut storage = GpuChunkStorage::new(3);
    let a = ChunkPosition { x: 0, z: 0 };
    let b = ChunkPosition { x: -1, z: 3 };
    storage.update(a, &vec![set(0, 1), set(7, 2), set(4095, 3)]).unwrap();
    storage.update(b, &vec![set(2, 4), set(2, 5), set(9, 6), clear(9)]).unwrap();
    let count = storage.upload_indices();
    // chunk a occupies three positions; chunk b wrote position 2 twice and
    // cleared position 9 again
    assert_eq!(count, 4);

    let written: HashSet<(u32, u32)> = storage.index_buffer[..count]
        .iter()
        .map(|e| (e.chunk_slot, e.block_index))
        .collect();
    let slot_a = storage.assigned[0].slot;
    let slot_b = storage.assigned[1].slot;
    let expected: HashSet<(u32, u32)> =
        [(slot_a, 0), (slot_a, 7), (slot_a, 4095), (slot_b, 2)].into_iter().collect();
    assert_eq!(written, expected);
}

#[test]
fn rebuild_twice_yields_same_count_and_pairs() {
    let mut storage = GpuChunkStorage::new(2);
    storage.update(ChunkPosition { x: 0, z: 0 }, &vec![set(1, 1), set(2, 2)]).unwrap();
    storage.update(ChunkPosition { x: 5, z: 5 }, &vec![set(3, 3)]).unwrap();
    let first = storage.upload_indices();
    let pairs_first: Vec<(u32, u32)> = storage.index_buffer[..first]
        .iter()
        .map(|e| (e.chunk_slot, e.block_index))
        .collect();
    let second = storage.upload_indices();
    let pairs_second: Vec<(u32, u32)> = storage.index_buffer[..second]
        .iter()
        .map(|e| (e.chunk_slot, e.block_index))
        .collect();
    assert_eq!(first, second);
    assert_eq!(
        pairs_first.iter().copied().collect::<HashSet<_>>(),
        pairs_second.iter().copied().collect::<HashSet<_>>()
    );
}

#[test]
fn update_with_no_updates_still_assigns_a_slot() {
    let mut storage = GpuChunkStorage::new(1);
    storage.update(ChunkPosition { x: 0, z: 0 }, &vec![]).unwrap();
    assert_eq!(storage.assigned.len(), 1);
    assert_eq!(storage.chunk_holes.len(), 0);
    assert_eq!(storage.upload_indices(), 0);
}

#[test]
fn zero_capacity_storage_rejects_any_chunk() {
    let mut storage = GpuChunkStorage::new(0);
    let result = storage.update(ChunkPosition { x: 0, z: 0 }, &vec![]);
    assert_eq!(result, Err(StorageError::CapacityExhausted));
}

#[test]
fn rewriting_a_position_keeps_one_index_entry() {
    let mut storage = GpuChunkStorage::new(1);
    let position = ChunkPosition { x: 0, z: 0 };
    storage.update(position, &vec![set(9, 41)]).unwrap();
    storage.update(position, &vec![set(9, 42)]).unwrap();
    let slot = storage.assigned[0].slot as usize;
    assert_eq!(storage.chunk_buffer[slot * SLOT_VOLUME + 9], payload(42));
    assert_eq!(storage.upload_indices(), 1);
    assert_eq!(storage.index_buffer[0].block_index, 9);
}
