//! Capacity-bounded sparse chunk storage: maps chunks onto a fixed pool of
//! slots by free-list assignment, mirrors per-voxel payloads, and rebuilds a
//! packed index of every occupied voxel for the draw dispatch.

use vstd::prelude::*;

use crate::world::{spec_pos_key, ChunkPosition};
use std::collections::HashMap;

verus! {

broadcast use vstd::std_specs::hash::group_hash_axioms;

/// Number of voxel positions in one storage slot (a 16^3 grid).
pub const SLOT_VOLUME: usize = 4096;

/// Per-voxel payload: a reference into the separately uploaded voxel shape
/// table plus connectivity bits. Copied by value, opaque to this core.
#[derive(Debug, Clone, Copy, PartialEq, Eq, Structural)]
pub struct GpuBlock {
    pub voxel_offset: u32,
    pub voxel_len: u32,
    pub connected_bits: u32,
}

/// One update to a chunk's slot: mark `block_index` occupied with the given
/// payload, or (with `None`) unoccupied.
#[derive(Debug, Clone, Copy)]
pub struct ChunkUpdate {
    pub block_index: u32,
    pub block: Option<GpuBlock>,
}

/// An entry of the rebuilt index: a slot id and an occupied voxel position
/// within that slot.
#[derive(Debug, Clone, Copy, PartialEq, Eq, Structural)]
pub struct IndexEntry {
    pub chunk_slot: u32,
    pub block_index: u32,
}

/// Failure of a storage operation.
#[derive(Debug, Clone, Copy, PartialEq, Eq, Structural)]
pub enum StorageError {
    /// No free slot was left for a chunk not seen before.
    CapacityExhausted,
}

/// The assignment of one chunk to one slot.
#[derive(Debug, Clone, Copy)]
pub struct ChunkSlot {
    pub position: ChunkPosition,
    pub slot: u32,
}

/// Whether slot id `s` is on the free list.
pub open spec fn spec_hole(holes: Seq<u32>, s: u32) -> bool {
    exists|i: int| 0 <= i < holes.len() && holes[i] == s
}

/// Whether slot id `s` is assigned to some chunk.
pub open spec fn spec_slot_assigned(assigned: Seq<ChunkSlot>, s: u32) -> bool {
    exists|i: int| 0 <= i < assigned.len() && assigned[i].slot == s
}

/// The occupancy bitmap after applying `ups` in order within the slot
/// segment based at `base`.
pub open spec fn spec_apply_occupancy(occ: Seq<bool>, base: int, ups: Seq<ChunkUpdate>) -> Seq<
    bool,
>
    decreases ups.len(),
{
    if ups.len() == 0 {
        occ
    } else {
        let rest = spec_apply_occupancy(occ, base, ups.drop_last());
        let u = ups.last();
        rest.update(base + u.block_index as int, u.block is Some)
    }
}

/// The payload buffer after applying `ups` in order within the slot segment
/// based at `base`; a removal writes nothing, its stale payload becomes
/// unreachable from the index instead.
pub open spec fn spec_apply_payloads(
    buf: Seq<GpuBlock>,
    base: int,
    ups: Seq<ChunkUpdate>,
) -> Seq<GpuBlock>
    decreases ups.len(),
{
    if ups.len() == 0 {
        buf
    } else {
        let rest = spec_apply_payloads(buf, base, ups.drop_last());
        let u = ups.last();
        match u.block {
            Some(b) => rest.update(base + u.block_index as int, b),
            None => rest,
        }
    }
}

/// A slot's segment ends within a buffer sized for `capacity` slots.
proof fn lemma_slot_segment_in_bounds(slot: int, capacity: int)
    requires
        0 <= slot < capacity,
    ensures
        slot * SLOT_VOLUME + SLOT_VOLUME <= capacity * SLOT_VOLUME,
{
    assert((slot + 1) * SLOT_VOLUME <= capacity * SLOT_VOLUME) by (nonlinear_arith)
        requires
            slot + 1 <= capacity,
    ;
}

/// Positions within the segments of two distinct slots never meet.
proof fn lemma_distinct_slot_segments_disjoint(s1: int, s2: int, b: int)
    requires
        s1 != s2,
        0 <= s1,
        0 <= s2,
        0 <= b < SLOT_VOLUME,
    ensures
        s1 * SLOT_VOLUME + b < s2 * SLOT_VOLUME || s1 * SLOT_VOLUME + b >= s2 * SLOT_VOLUME
            + SLOT_VOLUME,
{
    if s1 < s2 {
        assert((s1 + 1) * SLOT_VOLUME <= s2 * SLOT_VOLUME) by (nonlinear_arith)
            requires
                s1 + 1 <= s2,
        ;
    } else {
        assert((s2 + 1) * SLOT_VOLUME <= s1 * SLOT_VOLUME) by (nonlinear_arith)
            requires
                s2 + 1 <= s1,
        ;
    }
}

/// Applying updates within one slot's segment leaves every position outside
/// that segment as it was.
proof fn lemma_apply_occupancy_frame(occ: Seq<bool>, base: int, ups: Seq<ChunkUpdate>, idx: int)
    requires
        forall|i: int| 0 <= i < ups.len() ==> (#[trigger] ups[i]).block_index < SLOT_VOLUME,
        idx < base || idx >= base + SLOT_VOLUME,
        0 <= idx < occ.len(),
        0 <= base,
        base + SLOT_VOLUME <= occ.len(),
    ensures
        spec_apply_occupancy(occ, base, ups).len() == occ.len(),
        spec_apply_occupancy(occ, base, ups)[idx] == occ[idx],
    decreases ups.len(),
{
    if ups.len() > 0 {
        lemma_apply_occupancy_frame(occ, base, ups.drop_last(), idx);
        assert(ups[ups.len() - 1].block_index < SLOT_VOLUME);
    }
}

/// Sparse GPU-side mirror of which voxels are renderable, keyed by chunk.
/// Slots are handed out from a free list on a chunk's first update and, as
/// designed, never handed back.
pub struct GpuChunkStorage {
    /// Number of chunk slots, fixed at construction.
    pub capacity: usize,
    /// Payload mirror: `capacity * SLOT_VOLUME` voxel records, the segment
    /// of slot `s` at `[s * SLOT_VOLUME, (s + 1) * SLOT_VOLUME)`.
    pub chunk_buffer: Vec<GpuBlock>,
    /// Occupancy of each voxel position, laid out as `chunk_buffer`.
    pub occupied: Vec<bool>,
    /// The rebuilt packed index; only the prefix returned by
    /// `upload_indices` is meaningful.
    pub index_buffer: Vec<IndexEntry>,
    /// Chunk position key to position of the chunk's entry in `assigned`.
    pub chunk_blocks_map: HashMap<u64, usize>,
    /// The slot assignments, in assignment order.
    pub assigned: Vec<ChunkSlot>,
    /// Free slot ids, popped from the back.
    pub chunk_holes: Vec<u32>,
}

impl GpuChunkStorage {
    /// The key of the `i`-th assigned chunk.
    pub open spec fn assigned_key(self, i: int) -> u64 {
        spec_pos_key(self.assigned@[i].position.x as int, self.assigned@[i].position.z as int)
    }

    /// Well-formed: buffers sized to the capacity; every slot id either on
    /// the free list or assigned, never both; the map and `assigned` name
    /// each other exactly; free slots carry no occupancy.
    pub open spec fn wf(self) -> bool {
        &&& self.capacity * SLOT_VOLUME <= usize::MAX
        &&& self.chunk_buffer@.len() == self.capacity * SLOT_VOLUME
        &&& self.occupied@.len() == self.capacity * SLOT_VOLUME
        &&& self.index_buffer@.len() == self.capacity * SLOT_VOLUME
        &&& self.assigned@.len() + self.chunk_holes@.len() == self.capacity
        &&& forall|i: int|
            0 <= i < self.assigned@.len() ==> (#[trigger] self.assigned@[i]).slot
                < self.capacity
        &&& forall|i: int|
            0 <= i < self.chunk_holes@.len() ==> (#[trigger] self.chunk_holes@[i])
                < self.capacity
        &&& forall|i: int, j: int|
            0 <= i < j < self.chunk_holes@.len() ==> self.chunk_holes@[i]
                != self.chunk_holes@[j]
        &&& forall|i: int, j: int|
            0 <= i < j < self.assigned@.len() ==> (#[trigger] self.assigned@[i]).slot != (
            #[trigger] self.assigned@[j]).slot
        &&& forall|s: u32|
            s < self.capacity ==> (spec_hole(self.chunk_holes@, s) <==> !spec_slot_assigned(
                self.assigned@,
                s,
            ))
        &&& forall|i: int|
            0 <= i < self.assigned@.len() ==> self.chunk_blocks_map@.contains_key(
                #[trigger] self.assigned_key(i),
            ) && self.chunk_blocks_map@[self.assigned_key(i)] == i
        &&& forall|k: u64|
            self.chunk_blocks_map@.contains_key(k) ==> 0 <= (#[trigger] self.chunk_blocks_map@[k])
                < self.assigned@.len() && self.assigned_key(self.chunk_blocks_map@[k] as int) == k
        &&& forall|s: u32, b: int|
            spec_hole(self.chunk_holes@, s) && 0 <= b < SLOT_VOLUME ==> !(
            #[trigger] self.occupied@[s as int * SLOT_VOLUME + b])
    }

    /// A storage of `capacity` empty slots. The free list holds each slot id
    /// in `[0, capacity)` exactly once, ordered so assignment proceeds from
    /// id `0` upward.
    pub fn new(capacity: usize) -> (r: Self)
        requires
            capacity <= 0x1_0000_0000,
            capacity * SLOT_VOLUME <= usize::MAX,
        ensures
            r.wf(),
            r.capacity == capacity,
            r.assigned@.len() == 0,
            r.chunk_blocks_map@ == Map::<u64, usize>::empty(),
            r.chunk_holes@.len() == capacity,
            forall|i: int|
                0 <= i < capacity ==> (#[trigger] r.chunk_holes@[i]) == capacity - 1 - i,
            forall|s: u32| spec_hole(r.chunk_holes@, s) <==> s < capacity,
    {
        let total = capacity * SLOT_VOLUME;
        let mut chunk_buffer: Vec<GpuBlock> = Vec::new();
        let mut occupied: Vec<bool> = Vec::new();
        let mut index_buffer: Vec<IndexEntry> = Vec::new();
        let mut i: usize = 0;
        while i < total
            invariant
                i <= total,
                chunk_buffer@.len() == i,
                occupied@.len() == i,
                index_buffer@.len() == i,
                forall|j: int| 0 <= j < i ==> !(#[trigger] occupied@[j]),
            decreases total - i,
        {
            chunk_buffer.push(GpuBlock { voxel_offset: 0, voxel_len: 0, connected_bits: 0 });
            occupied.push(false);
            index_buffer.push(IndexEntry { chunk_slot: 0, block_index: 0 });
            i = i + 1;
        }
        let mut chunk_holes: Vec<u32> = Vec::new();
        let mut h: usize = 0;
        while h < capacity
            invariant
                h <= capacity,
                capacity <= 0x1_0000_0000,
                chunk_holes@.len() == h,
                forall|j: int|
                    0 <= j < h ==> (#[trigger] chunk_holes@[j]) == capacity - 1 - j,
            decreases capacity - h,
        {
            chunk_holes.push((capacity - 1 - h) as u32);
            h = h + 1;
        }
        let r = GpuChunkStorage {
            capacity,
            chunk_buffer,
            occupied,
            index_buffer,
            chunk_blocks_map: HashMap::new(),
            assigned: Vec::new(),
            chunk_holes,
        };
        proof {
            assert(r.chunk_blocks_map@ =~= Map::<u64, usize>::empty());
            assert forall|s: u32| spec_hole(r.chunk_holes@, s) <==> s < capacity by {
                if s < capacity {
                    let w = capacity - 1 - s as usize;
                    assert(r.chunk_holes@[w as int] == s);
                }
            }
        }
        r
    }

    /// Looks up the chunk's entry in `assigned`, creating it from the next
    /// free slot when the chunk is new; fails without changing anything when
    /// no free slot is left.
    fn ensure_slot(&mut self, chunk_position: ChunkPosition) -> (result: Result<
        usize,
        StorageError,
    >)
        requires
            old(self).wf(),
        ensures
            final(self).wf(),
            final(self).capacity == old(self).capacity,
            final(self).chunk_buffer@ == old(self).chunk_buffer@,
            final(self).occupied@ == old(self).occupied@,
            final(self).index_buffer@ == old(self).index_buffer@,
            ({
                let k = spec_pos_key(chunk_position.x as int, chunk_position.z as int);
                if old(self).chunk_blocks_map@.contains_key(k) {
                    &&& result == Ok::<usize, StorageError>(old(self).chunk_blocks_map@[k])
                    &&& *final(self) == *old(self)
                } else if old(self).chunk_holes@.len() > 0 {
                    &&& result == Ok::<usize, StorageError>(old(self).assigned@.len() as usize)
                    &&& final(self).chunk_holes@ == old(self).chunk_holes@.drop_last()
                    &&& final(self).assigned@ == old(self).assigned@.push(
                        ChunkSlot { position: chunk_position, slot: old(self).chunk_holes@.last() },
                    )
                    &&& final(self).chunk_blocks_map@ == old(self).chunk_blocks_map@.insert(
                        k,
                        old(self).assigned@.len() as usize,
                    )
                } else {
                    &&& result == Err::<usize, StorageError>(StorageError::CapacityExhausted)
                    &&& *final(self) == *old(self)
                }
            }),
    {
        let k = chunk_position.key();
        match self.chunk_blocks_map.get(&k) {
            Some(i) => Ok(*i),
            None => {
                if self.chunk_holes.len() == 0 {
                    return Err(StorageError::CapacityExhausted);
                }
                match self.chunk_holes.pop() {
                    Some(slot) => {
                        proof {
                            assert(self.chunk_holes@ =~= old(self).chunk_holes@.drop_last());
                        }
                        let entry_index = self.assigned.len();
                        self.assigned.push(ChunkSlot { position: chunk_position, slot });
                        self.chunk_blocks_map.insert(k, entry_index);
                        proof {
                            let n0 = old(self).assigned@.len() as int;
                            // the popped slot was on the free list and so
                            // unassigned before
                            assert(spec_hole(old(self).chunk_holes@, slot)) by {
                                assert(old(self).chunk_holes@[old(
                                    self,
                                ).chunk_holes@.len() - 1] == slot);
                            }
                            assert forall|i: int, j: int|
                                0 <= i < j < self.assigned@.len() implies (
                            #[trigger] self.assigned@[i]).slot != (
                            #[trigger] self.assigned@[j]).slot by {
                                if j == n0 {
                                    assert(spec_slot_assigned(old(self).assigned@, old(
                                        self,
                                    ).assigned@[i].slot)) by {
                                        assert(old(self).assigned@[i].slot == old(
                                            self,
                                        ).assigned@[i].slot);
                                    }
                                }
                            }
                            assert forall|s: u32|
                                s < self.capacity implies (spec_hole(self.chunk_holes@, s)
                                <==> !spec_slot_assigned(self.assigned@, s)) by {
                                if s == slot {
                                    assert(spec_slot_assigned(self.assigned@, s)) by {
                                        assert(self.assigned@[n0].slot == slot);
                                    }
                                    if spec_hole(self.chunk_holes@, s) {
                                        let i = choose|i: int|
                                            0 <= i < self.chunk_holes@.len()
                                                && self.chunk_holes@[i] == s;
                                        assert(old(self).chunk_holes@[i] == s);
                                        assert(old(self).chunk_holes@[old(
                                            self,
                                        ).chunk_holes@.len() - 1] == s);
                                        assert(false);
                                    }
                                } else {
                                    if spec_hole(self.chunk_holes@, s) {
                                        let i = choose|i: int|
                                            0 <= i < self.chunk_holes@.len()
                                                && self.chunk_holes@[i] == s;
                                        assert(old(self).chunk_holes@[i] == s);
                                        assert(spec_hole(old(self).chunk_holes@, s));
                                    }
                                    if spec_hole(old(self).chunk_holes@, s) {
                                        let i = choose|i: int|
                                            0 <= i < old(self).chunk_holes@.len() && old(
                                                self,
                                            ).chunk_holes@[i] == s;
                                        assert(i != old(self).chunk_holes@.len() - 1);
                                        assert(self.chunk_holes@[i] == s);
                                        assert(spec_hole(self.chunk_holes@, s));
                                    }
                                    if spec_slot_assigned(self.assigned@, s) {
                                        let i = choose|i: int|
                                            0 <= i < self.assigned@.len()
                                                && self.assigned@[i].slot == s;
                                        assert(i != n0);
                                        assert(spec_slot_assigned(old(self).assigned@, s)) by {
                                            assert(old(self).assigned@[i].slot == s);
                                        }
                                    }
                                    if spec_slot_assigned(old(self).assigned@, s) {
                                        let i = choose|i: int|
                                            0 <= i < old(self).assigned@.len() && old(
                                                self,
                                            ).assigned@[i].slot == s;
                                        assert(spec_slot_assigned(self.assigned@, s)) by {
                                            assert(self.assigned@[i].slot == s);
                                        }
                                    }
                                }
                            }
                            // the chunk's key was absent, so every old map
                            // tie survives the insert
                            assert forall|i: int|
                                0 <= i < self.assigned@.len() implies self
                                .chunk_blocks_map@.contains_key(#[trigger] self.assigned_key(i))
                                && self.chunk_blocks_map@[self.assigned_key(i)] == i by {
                                if i < n0 {
                                    assert(self.assigned_key(i) == old(self).assigned_key(i));
                                    assert(old(self).chunk_blocks_map@.contains_key(old(
                                        self,
                                    ).assigned_key(i)));
                                    assert(old(self).assigned_key(i) != k);
                                } else {
                                    assert(self.assigned_key(i) == k);
                                }
                            }
                            assert forall|kk: u64|
                                self.chunk_blocks_map@.contains_key(kk) implies 0 <= (
                            #[trigger] self.chunk_blocks_map@[kk]) < self.assigned@.len()
                                && self.assigned_key(self.chunk_blocks_map@[kk] as int) == kk by {
                                if kk == k {
                                    assert(self.assigned_key(n0) == k);
                                } else {
                                    assert(old(self).chunk_blocks_map@.contains_key(kk));
                                    let i = old(self).chunk_blocks_map@[kk] as int;
                                    assert(old(self).assigned_key(i) == kk);
                                    assert(self.assigned_key(i) == kk);
                                }
                            }
                            // free segments stay free: the free list only
                            // shrank and occupancy did not change
                            assert forall|s: u32, b: int|
                                spec_hole(self.chunk_holes@, s) && 0 <= b
                                    < SLOT_VOLUME implies !(#[trigger] self.occupied@[s as int
                                    * SLOT_VOLUME + b]) by {
                                let i = choose|i: int|
                                    0 <= i < self.chunk_holes@.len() && self.chunk_holes@[i] == s;
                                assert(old(self).chunk_holes@[i] == s);
                                assert(spec_hole(old(self).chunk_holes@, s));
                            }
                        }
                        Ok(entry_index)
                    },
                    None => {
                        // the free list was tested non-empty just above
                        proof {
                            assert(false);
                        }
                        Err(StorageError::CapacityExhausted)
                    },
                }
            },
        }
    }

    /// Applies a batch of updates for the chunk at `chunk_position`. A chunk
    /// not seen before takes the next free slot with an empty occupancy; if
    /// none is left, the call fails with `CapacityExhausted` and changes
    /// nothing. Each update with a payload writes it and marks its position
    /// occupied; one without clears the position.
    pub fn update(&mut self, chunk_position: ChunkPosition, updates: &Vec<ChunkUpdate>) -> (result:
        Result<(), StorageError>)
        requires
            old(self).wf(),
            forall|i: int|
                0 <= i < updates@.len() ==> (#[trigger] updates@[i]).block_index < SLOT_VOLUME,
        ensures
            final(self).wf(),
            final(self).capacity == old(self).capacity,
            final(self).index_buffer@ == old(self).index_buffer@,
            ({
                let k = spec_pos_key(chunk_position.x as int, chunk_position.z as int);
                if old(self).chunk_blocks_map@.contains_key(k) {
                    let i = old(self).chunk_blocks_map@[k] as int;
                    let base = old(self).assigned@[i].slot as int * SLOT_VOLUME;
                    &&& result is Ok
                    &&& final(self).chunk_blocks_map@ == old(self).chunk_blocks_map@
                    &&& final(self).chunk_holes@ == old(self).chunk_holes@
                    &&& final(self).assigned@ == old(self).assigned@
                    &&& final(self).occupied@ == spec_apply_occupancy(
                        old(self).occupied@,
                        base,
                        updates@,
                    )
                    &&& final(self).chunk_buffer@ == spec_apply_payloads(
                        old(self).chunk_buffer@,
                        base,
                        updates@,
                    )
                } else if old(self).chunk_holes@.len() > 0 {
                    let slot = old(self).chunk_holes@.last();
                    let base = slot as int * SLOT_VOLUME;
                    &&& result is Ok
                    &&& final(self).chunk_holes@ == old(self).chunk_holes@.drop_last()
                    &&& final(self).chunk_blocks_map@ == old(self).chunk_blocks_map@.insert(
                        k,
                        old(self).assigned@.len() as usize,
                    )
                    &&& final(self).assigned@ == old(self).assigned@.push(
                        ChunkSlot { position: chunk_position, slot },
                    )
                    &&& final(self).occupied@ == spec_apply_occupancy(
                        old(self).occupied@,
                        base,
                        updates@,
                    )
                    &&& final(self).chunk_buffer@ == spec_apply_payloads(
                        old(self).chunk_buffer@,
                        base,
                        updates@,
                    )
                } else {
                    &&& result == Err::<(), StorageError>(StorageError::CapacityExhausted)
                    &&& *final(self) == *old(self)
                }
            }),
    {
        let entry_index = match self.ensure_slot(chunk_position) {
            Ok(i) => i,
            Err(e) => {
                return Err(e);
            },
        };
        let ghost s1 = *self;
        proof {
            assert(entry_index < self.assigned@.len());
            assert(self.assigned@[entry_index as int].slot < self.capacity);
            lemma_slot_segment_in_bounds(
                self.assigned@[entry_index as int].slot as int,
                self.capacity as int,
            );
        }
        let slot = self.assigned[entry_index].slot;
        let base = (slot as usize) * SLOT_VOLUME;
        let mut j: usize = 0;
        while j < updates.len()
            invariant
                j <= updates@.len(),
                forall|i: int|
                    0 <= i < updates@.len() ==> (#[trigger] updates@[i]).block_index < SLOT_VOLUME,
                s1.wf(),
                entry_index < s1.assigned@.len(),
                s1.assigned@[entry_index as int].slot == slot,
                slot < s1.capacity,
                base == slot as int * SLOT_VOLUME,
                self.capacity == s1.capacity,
                self.assigned@ == s1.assigned@,
                self.chunk_holes@ == s1.chunk_holes@,
                self.chunk_blocks_map@ == s1.chunk_blocks_map@,
                self.index_buffer@ == s1.index_buffer@,
                self.occupied@.len() == s1.occupied@.len(),
                self.chunk_buffer@.len() == s1.chunk_buffer@.len(),
                self.occupied@ == spec_apply_occupancy(
                    s1.occupied@,
                    base as int,
                    updates@.take(j as int),
                ),
                self.chunk_buffer@ == spec_apply_payloads(
                    s1.chunk_buffer@,
                    base as int,
                    updates@.take(j as int),
                ),
            decreases updates@.len() - j,
        {
            let u = updates[j];
            proof {
                assert(base + SLOT_VOLUME <= self.occupied@.len()) by {
                    lemma_slot_segment_in_bounds(slot as int, s1.capacity as int);
                }
            }
            let target = base + u.block_index as usize;
            match u.block {
                Some(b) => {
                    self.chunk_buffer.set(target, b);
                    self.occupied.set(target, true);
                },
                None => {
                    self.occupied.set(target, false);
                },
            }
            proof {
                assert(updates@.take(j as int + 1).drop_last() =~= updates@.take(j as int));
                assert(updates@.take(j as int + 1).last() == updates@[j as int]);
            }
            j = j + 1;
        }
        proof {
            assert(updates@.take(updates@.len() as int) =~= updates@);
            // occupancy writes stay within the assigned slot's segment, so
            // free slots' segments are still clear
            assert forall|s: u32, b: int|
                spec_hole(self.chunk_holes@, s) && 0 <= b < SLOT_VOLUME implies !(
            #[trigger] self.occupied@[s as int * SLOT_VOLUME + b]) by {
                assert(spec_slot_assigned(s1.assigned@, slot)) by {
                    assert(s1.assigned@[entry_index as int].slot == slot);
                }
                assert(s < s1.capacity) by {
                    let i = choose|i: int|
                        0 <= i < s1.chunk_holes@.len() && s1.chunk_holes@[i] == s;
                    assert(s1.chunk_holes@[i] < s1.capacity);
                }
                assert(s != slot);
                let idx = s as int * SLOT_VOLUME + b;
                lemma_distinct_slot_segments_disjoint(s as int, slot as int, b);
                lemma_apply_occupancy_frame(s1.occupied@, base as int, updates@, idx);
            }
            assert forall|i: int|
                0 <= i < self.assigned@.len() implies self.chunk_blocks_map@.contains_key(
                #[trigger] self.assigned_key(i),
            ) && self.chunk_blocks_map@[self.assigned_key(i)] == i by {
                assert(self.assigned_key(i) == s1.assigned_key(i));
                assert(s1.chunk_blocks_map@.contains_key(s1.assigned_key(i)));
            }
            assert forall|k: u64|
                self.chunk_blocks_map@.contains_key(k) implies 0 <= (
            #[trigger] self.chunk_blocks_map@[k]) < self.assigned@.len() && self.assigned_key(
                self.chunk_blocks_map@[k] as int,
            ) == k by {
                assert(s1.chunk_blocks_map@.contains_key(k));
                assert(self.assigned_key(s1.chunk_blocks_map@[k] as int) == s1.assigned_key(
                    s1.chunk_blocks_map@[k] as int,
                ));
            }
        }
        Ok(())
    }
}

/// The index entries of slot `s` for the first `n` voxel positions, in
/// increasing position order: one entry per occupied position.
pub open spec fn spec_slot_pairs_upto(occ: Seq<bool>, s: u32, n: int) -> Seq<IndexEntry>
    decreases n,
{
    if n <= 0 {
        Seq::<IndexEntry>::empty()
    } else {
        spec_slot_pairs_upto(occ, s, n - 1) + (if occ[s as int * SLOT_VOLUME + (n - 1)] {
            seq![IndexEntry { chunk_slot: s, block_index: (n - 1) as u32 }]
        } else {
            Seq::<IndexEntry>::empty()
        })
    }
}

/// The index entries of slot `s`: one per occupied voxel position.
pub open spec fn spec_slot_pairs(occ: Seq<bool>, s: u32) -> Seq<IndexEntry> {
    spec_slot_pairs_upto(occ, s, SLOT_VOLUME as int)
}

/// The index entries of the first `m` assigned chunks, concatenated in
/// assignment order.
pub open spec fn spec_index_pairs_upto(occ: Seq<bool>, assigned: Seq<ChunkSlot>, m: int) -> Seq<
    IndexEntry,
>
    decreases m,
{
    if m <= 0 {
        Seq::<IndexEntry>::empty()
    } else {
        spec_index_pairs_upto(occ, assigned, m - 1) + spec_slot_pairs(occ, assigned[m - 1].slot)
    }
}

/// Every index entry the storage's current state calls for: one `(slot,
/// position)` pair per occupied voxel position of every assigned chunk.
pub open spec fn spec_index_pairs(s: GpuChunkStorage) -> Seq<IndexEntry> {
    spec_index_pairs_upto(s.occupied@, s.assigned@, s.assigned@.len() as int)
}

/// A slot yields at most one index entry per voxel position.
proof fn lemma_slot_pairs_upto_len(occ: Seq<bool>, s: u32, n: int)
    requires
        0 <= n,
    ensures
        spec_slot_pairs_upto(occ, s, n).len() <= n,
    decreases n,
{
    if n > 0 {
        lemma_slot_pairs_upto_len(occ, s, n - 1);
    }
}

/// The first `m` assigned chunks yield at most `m * SLOT_VOLUME` entries.
proof fn lemma_index_pairs_upto_len(occ: Seq<bool>, assigned: Seq<ChunkSlot>, m: int)
    requires
        0 <= m,
    ensures
        spec_index_pairs_upto(occ, assigned, m).len() <= m * SLOT_VOLUME,
    decreases m,
{
    if m > 0 {
        lemma_index_pairs_upto_len(occ, assigned, m - 1);
        lemma_slot_pairs_upto_len(occ, assigned[m - 1].slot, SLOT_VOLUME as int);
    }
}

impl GpuChunkStorage {
    /// Rebuilds the packed index from scratch: writes one `(slot, position)`
    /// entry per occupied voxel position of every assigned chunk,
    /// contiguously from the start of the index buffer, and returns how many
    /// entries were written. That count sizes the draw dispatch.
    pub fn upload_indices(&mut self) -> (count: usize)
        requires
            old(self).wf(),
        ensures
            final(self).wf(),
            final(self).capacity == old(self).capacity,
            final(self).chunk_buffer@ == old(self).chunk_buffer@,
            final(self).occupied@ == old(self).occupied@,
            final(self).assigned@ == old(self).assigned@,
            final(self).chunk_holes@ == old(self).chunk_holes@,
            final(self).chunk_blocks_map@ == old(self).chunk_blocks_map@,
            final(self).index_buffer@.len() == old(self).index_buffer@.len(),
            count == spec_index_pairs(*old(self)).len(),
            final(self).index_buffer@.take(count as int) == spec_index_pairs(*old(self)),
    {
        let ghost occ = self.occupied@;
        let ghost assigned0 = self.assigned@;
        let mut count: usize = 0;
        let n = self.assigned.len();
        let mut i: usize = 0;
        while i < n
            invariant
                i <= n,
                n == self.assigned@.len(),
                old(self).wf(),
                self.capacity == old(self).capacity,
                self.chunk_buffer@ == old(self).chunk_buffer@,
                self.occupied@ == old(self).occupied@,
                self.assigned@ == old(self).assigned@,
                self.chunk_holes@ == old(self).chunk_holes@,
                self.chunk_blocks_map@ == old(self).chunk_blocks_map@,
                self.index_buffer@.len() == old(self).index_buffer@.len(),
                occ == self.occupied@,
                assigned0 == self.assigned@,
                count == spec_index_pairs_upto(occ, assigned0, i as int).len(),
                count <= i * SLOT_VOLUME,
                self.index_buffer@.take(count as int) == spec_index_pairs_upto(
                    occ,
                    assigned0,
                    i as int,
                ),
            decreases n - i,
        {
            let slot = self.assigned[i].slot;
            let base = (slot as usize) * SLOT_VOLUME;
            proof {
                assert(self.assigned@[i as int].slot < self.capacity);
                lemma_slot_segment_in_bounds(slot as int, self.capacity as int);
            }
            let mut b: usize = 0;
            while b < SLOT_VOLUME
                invariant
                    b <= SLOT_VOLUME,
                    i < n,
                    n == self.assigned@.len(),
                    old(self).wf(),
                    self.capacity == old(self).capacity,
                    self.chunk_buffer@ == old(self).chunk_buffer@,
                    self.occupied@ == old(self).occupied@,
                    self.assigned@ == old(self).assigned@,
                    self.chunk_holes@ == old(self).chunk_holes@,
                    self.chunk_blocks_map@ == old(self).chunk_blocks_map@,
                    self.index_buffer@.len() == old(self).index_buffer@.len(),
                    occ == self.occupied@,
                    assigned0 == self.assigned@,
                    slot == self.assigned@[i as int].slot,
                    slot < self.capacity,
                    base == slot as int * SLOT_VOLUME,
                    base + SLOT_VOLUME <= occ.len(),
                    count == spec_index_pairs_upto(occ, assigned0, i as int).len()
                        + spec_slot_pairs_upto(occ, slot, b as int).len(),
                    count <= i * SLOT_VOLUME + b,
                    self.index_buffer@.take(count as int) == spec_index_pairs_upto(
                        occ,
                        assigned0,
                        i as int,
                    ) + spec_slot_pairs_upto(occ, slot, b as int),
                decreases SLOT_VOLUME - b,
            {
                if self.occupied[base + b] {
                    proof {
                        assert(count < self.capacity * SLOT_VOLUME) by {
                            assert(i as int * SLOT_VOLUME + b < (i as int + 1) * SLOT_VOLUME);
                            assert(i as int + 1 <= self.capacity);
                            lemma_slot_segment_in_bounds(i as int, self.capacity as int);
                        }
                    }
                    let ghost ib0 = self.index_buffer@;
                    let ghost prev = spec_index_pairs_upto(occ, assigned0, i as int)
                        + spec_slot_pairs_upto(occ, slot, b as int);
                    let entry = IndexEntry { chunk_slot: slot, block_index: b as u32 };
                    self.index_buffer.set(count, entry);
                    count = count + 1;
                    proof {
                        assert(spec_slot_pairs_upto(occ, slot, b as int + 1) =~= spec_slot_pairs_upto(
                            occ,
                            slot,
                            b as int,
                        ).push(entry));
                        assert(spec_index_pairs_upto(occ, assigned0, i as int)
                            + spec_slot_pairs_upto(occ, slot, b as int + 1) =~= prev.push(entry));
                        assert(self.index_buffer@.take(count as int) =~= ib0.take(
                            count as int - 1,
                        ).push(entry));
                        assert(self.index_buffer@.take(count as int) =~= spec_index_pairs_upto(
                            occ,
                            assigned0,
                            i as int,
                        ) + spec_slot_pairs_upto(occ, slot, b as int + 1));
                    }
                } else {
                    proof {
                        assert(spec_index_pairs_upto(occ, assigned0, i as int)
                            + spec_slot_pairs_upto(occ, slot, b as int + 1)
                            =~= spec_index_pairs_upto(occ, assigned0, i as int)
                            + spec_slot_pairs_upto(occ, slot, b as int));
                    }
                }
                b = b + 1;
            }
            proof {
                assert(spec_index_pairs_upto(occ, assigned0, i as int + 1)
                    =~= spec_index_pairs_upto(occ, assigned0, i as int) + spec_slot_pairs(
                    occ,
                    slot,
                ));
                lemma_index_pairs_upto_len(occ, assigned0, i as int + 1);
            }
            i = i + 1;
        }
        proof {
            assert forall|i: int|
                0 <= i < self.assigned@.len() implies self.chunk_blocks_map@.contains_key(
                #[trigger] self.assigned_key(i),
            ) && self.chunk_blocks_map@[self.assigned_key(i)] == i by {
                assert(self.assigned_key(i) == old(self).assigned_key(i));
                assert(old(self).chunk_blocks_map@.contains_key(old(self).assigned_key(i)));
            }
            assert forall|k: u64|
                self.chunk_blocks_map@.contains_key(k) implies 0 <= (
            #[trigger] self.chunk_blocks_map@[k]) < self.assigned@.len() && self.assigned_key(
                self.chunk_blocks_map@[k] as int,
            ) == k by {
                assert(old(self).chunk_blocks_map@.contains_key(k));
                assert(self.assigned_key(old(self).chunk_blocks_map@[k] as int) == old(
                    self,
                ).assigned_key(old(self).chunk_blocks_map@[k] as int));
            }
        }
        count
    }
}

/// Number of occupied positions among the first `n` of slot `s`.
pub open spec fn spec_slot_occupancy_upto(occ: Seq<bool>, s: u32, n: int) -> int
    decreases n,
{
    if n <= 0 {
        0
    } else {
        spec_slot_occupancy_upto(occ, s, n - 1) + (if occ[s as int * SLOT_VOLUME + (n - 1)] {
            1int
        } else {
            0int
        })
    }
}

/// Number of occupied positions of slot `s`: the cardinality of the chunk's
/// occupied set.
pub open spec fn spec_slot_occupancy(occ: Seq<bool>, s: u32) -> int {
    spec_slot_occupancy_upto(occ, s, SLOT_VOLUME as int)
}

/// Total occupancy of the first `m` assigned chunks.
pub open spec fn spec_total_occupancy_upto(occ: Seq<bool>, assigned: Seq<ChunkSlot>, m: int) -> int
    decreases m,
{
    if m <= 0 {
        0
    } else {
        spec_total_occupancy_upto(occ, assigned, m - 1) + spec_slot_occupancy(
            occ,
            assigned[m - 1].slot,
        )
    }
}

/// Total cardinality of the occupied sets of all assigned chunks.
pub open spec fn spec_total_occupancy(s: GpuChunkStorage) -> int {
    spec_total_occupancy_upto(s.occupied@, s.assigned@, s.assigned@.len() as int)
}

proof fn lemma_slot_pairs_len_is_occupancy(occ: Seq<bool>, s: u32, n: int)
    requires
        0 <= n,
    ensures
        spec_slot_pairs_upto(occ, s, n).len() == spec_slot_occupancy_upto(occ, s, n),
    decreases n,
{
    if n > 0 {
        lemma_slot_pairs_len_is_occupancy(occ, s, n - 1);
    }
}

proof fn lemma_index_pairs_len_is_total_occupancy(occ: Seq<bool>, assigned: Seq<ChunkSlot>, m: int)
    requires
        0 <= m,
    ensures
        spec_index_pairs_upto(occ, assigned, m).len() == spec_total_occupancy_upto(
            occ,
            assigned,
            m,
        ),
    decreases m,
{
    if m > 0 {
        lemma_index_pairs_len_is_total_occupancy(occ, assigned, m - 1);
        lemma_slot_pairs_len_is_occupancy(occ, assigned[m - 1].slot, SLOT_VOLUME as int);
    }
}

/// The rebuilt index holds exactly one entry per occupied voxel position:
/// the count `upload_indices` returns is the total cardinality of the
/// occupied sets of all assigned chunks.
pub proof fn lemma_index_count_is_total_occupancy(s: GpuChunkStorage)
    ensures
        spec_index_pairs(s).len() == spec_total_occupancy(s),
{
    lemma_index_pairs_len_is_total_occupancy(s.occupied@, s.assigned@, s.assigned@.len() as int);
}

proof fn lemma_slot_pairs_contains(occ: Seq<bool>, s: u32, n: int, e: IndexEntry)
    requires
        0 <= n <= SLOT_VOLUME,
    ensures
        spec_slot_pairs_upto(occ, s, n).contains(e) <==> (e.chunk_slot == s && e.block_index < n
            && occ[s as int * SLOT_VOLUME + e.block_index as int]),
    decreases n,
{
    if n > 0 {
        lemma_slot_pairs_contains(occ, s, n - 1, e);
        let prev = spec_slot_pairs_upto(occ, s, n - 1);
        let whole = spec_slot_pairs_upto(occ, s, n);
        if occ[s as int * SLOT_VOLUME + (n - 1)] {
            let entry = IndexEntry { chunk_slot: s, block_index: (n - 1) as u32 };
            assert(whole[whole.len() - 1] == entry);
            if whole.contains(e) {
                let j = choose|j: int| 0 <= j < whole.len() && whole[j] == e;
                if j < prev.len() {
                    assert(prev[j] == e);
                }
            }
            if e.chunk_slot == s && e.block_index < n && occ[s as int * SLOT_VOLUME
                + e.block_index as int] {
                if e.block_index < n - 1 {
                    let j = choose|j: int| 0 <= j < prev.len() && prev[j] == e;
                    assert(whole[j] == e);
                } else {
                    assert(e == entry);
                }
            }
        } else {
            assert(whole =~= prev);
        }
    }
}

proof fn lemma_index_pairs_contains(occ: Seq<bool>, assigned: Seq<ChunkSlot>, m: int, e: IndexEntry)
    requires
        0 <= m <= assigned.len(),
    ensures
        spec_index_pairs_upto(occ, assigned, m).contains(e) <==> exists|i: int|
            0 <= i < m && (#[trigger] assigned[i]).slot == e.chunk_slot && e.block_index
                < SLOT_VOLUME && occ[e.chunk_slot as int * SLOT_VOLUME + e.block_index as int],
    decreases m,
{
    if m > 0 {
        lemma_index_pairs_contains(occ, assigned, m - 1, e);
        lemma_slot_pairs_contains(occ, assigned[m - 1].slot, SLOT_VOLUME as int, e);
        let prev = spec_index_pairs_upto(occ, assigned, m - 1);
        let seg = spec_slot_pairs(occ, assigned[m - 1].slot);
        let whole = spec_index_pairs_upto(occ, assigned, m);
        if whole.contains(e) {
            let j = choose|j: int| 0 <= j < whole.len() && whole[j] == e;
            if j < prev.len() {
                assert(prev[j] == e);
            } else {
                assert(seg[j - prev.len()] == e);
            }
        }
        if exists|i: int|
            0 <= i < m && (#[trigger] assigned[i]).slot == e.chunk_slot && e.block_index
                < SLOT_VOLUME && occ[e.chunk_slot as int * SLOT_VOLUME + e.block_index as int] {
            let i = choose|i: int|
                0 <= i < m && (#[trigger] assigned[i]).slot == e.chunk_slot && e.block_index
                    < SLOT_VOLUME && occ[e.chunk_slot as int * SLOT_VOLUME
                    + e.block_index as int];
            if i < m - 1 {
                assert(prev.contains(e));
                let j = choose|j: int| 0 <= j < prev.len() && prev[j] == e;
                assert(whole[j] == e);
            } else {
                assert(seg.contains(e));
                let j = choose|j: int| 0 <= j < seg.len() && seg[j] == e;
                assert(whole[prev.len() + j] == e);
            }
        }
    }
}

/// The rebuilt index is a faithful projection of the current state: an entry
/// stands in it exactly when some assigned chunk holds that slot and that
/// voxel position is occupied — no stale and no missing entries.
pub proof fn lemma_index_pairs_faithful(s: GpuChunkStorage, e: IndexEntry)
    ensures
        spec_index_pairs(s).contains(e) <==> exists|i: int|
            0 <= i < s.assigned@.len() && (#[trigger] s.assigned@[i]).slot == e.chunk_slot
                && e.block_index < SLOT_VOLUME && s.occupied@[e.chunk_slot as int * SLOT_VOLUME
                + e.block_index as int],
{
    lemma_index_pairs_contains(s.occupied@, s.assigned@, s.assigned@.len() as int, e);
}

/// The rebuilt index depends only on the slot assignments and their
/// occupancy. Rebuilding neither of them, so a second rebuild with no update
/// in between writes the same entries and returns the same count.
pub proof fn lemma_rebuild_idempotent(s1: GpuChunkStorage, s2: GpuChunkStorage)
    requires
        s1.occupied@ == s2.occupied@,
        s1.assigned@ == s2.assigned@,
    ensures
        spec_index_pairs(s1) == spec_index_pairs(s2),
{
}

/// Once every slot is assigned, the free list is empty, so the first update
/// of yet another chunk must fail with `CapacityExhausted`.
pub proof fn lemma_full_storage_has_no_free_slot(s: GpuChunkStorage)
    requires
        s.wf(),
        s.assigned@.len() == s.capacity,
    ensures
        s.chunk_holes@.len() == 0,
{
}

} // verus!
