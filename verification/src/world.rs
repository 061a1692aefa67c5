//! Chunked world storage: chunk positions, dense chunk grids, and the world
//! map from position to chunk.

use vstd::prelude::*;

use crate::types::{BlockRegistry, BlockTypeId};
use std::collections::HashMap;

verus! {

broadcast use vstd::std_specs::hash::group_hash_axioms;

/// Horizontal extent of a chunk, in blocks, along x and along z.
pub const CHUNK_SIZE: usize = 16;

/// Vertical extent of a chunk, in blocks.
pub const CHUNK_HEIGHT: usize = 256;

/// Number of blocks in one chunk.
pub const CHUNK_VOLUME: usize = 65536;

/// Position of a chunk on the 16-block horizontal pitch.
#[derive(Debug, Clone, Copy, PartialEq, Eq, Hash, Structural)]
pub struct ChunkPosition {
    pub x: i32,
    pub z: i32,
}

/// The value of `v` read back as an unsigned 32-bit pattern, for `v` in the
/// signed 32-bit range.
pub open spec fn spec_u32_bits(v: int) -> int {
    if v < 0 {
        v + 0x1_0000_0000
    } else {
        v
    }
}

/// Injective packing of a chunk position into one map key.
pub open spec fn spec_pos_key(x: int, z: int) -> u64 {
    (spec_u32_bits(x) * 0x1_0000_0000 + spec_u32_bits(z)) as u64
}

impl ChunkPosition {
    /// The key under which this position is stored in chunk maps.
    pub fn key(&self) -> (k: u64)
        ensures
            k == spec_pos_key(self.x as int, self.z as int),
    {
        let xu: u64 = if self.x >= 0 {
            self.x as u64
        } else {
            (self.x as i64 + 0x1_0000_0000) as u64
        };
        let zu: u64 = if self.z >= 0 {
            self.z as u64
        } else {
            (self.z as i64 + 0x1_0000_0000) as u64
        };
        xu * 0x1_0000_0000 + zu
    }
}

/// Two distinct positions never share a key.
pub proof fn lemma_pos_key_injective(x1: int, z1: int, x2: int, z2: int)
    requires
        i32::MIN <= x1 <= i32::MAX,
        i32::MIN <= z1 <= i32::MAX,
        i32::MIN <= x2 <= i32::MAX,
        i32::MIN <= z2 <= i32::MAX,
        spec_pos_key(x1, z1) == spec_pos_key(x2, z2),
    ensures
        x1 == x2,
        z1 == z2,
{
    let a1 = spec_u32_bits(x1);
    let b1 = spec_u32_bits(z1);
    let a2 = spec_u32_bits(x2);
    let b2 = spec_u32_bits(z2);
    assert(0 <= a1 < 0x1_0000_0000);
    assert(0 <= b1 < 0x1_0000_0000);
    assert(0 <= a2 < 0x1_0000_0000);
    assert(0 <= b2 < 0x1_0000_0000);
    assert(a1 * 0x1_0000_0000 + b1 == a2 * 0x1_0000_0000 + b2);
    assert(a1 == a2 && b1 == b2) by (nonlinear_arith)
        requires
            0 <= a1 < 0x1_0000_0000,
            0 <= b1 < 0x1_0000_0000,
            0 <= a2 < 0x1_0000_0000,
            0 <= b2 < 0x1_0000_0000,
            a1 * 0x1_0000_0000 + b1 == a2 * 0x1_0000_0000 + b2,
    ;
}

/// Position of the block `(x, y, z)` in a chunk's dense block vector:
/// y-major, then x, then z.
pub open spec fn linear_index(x: int, y: int, z: int) -> int {
    y * 256 + x * 16 + z
}

/// Distinct in-bounds block coordinates land on distinct vector positions.
pub proof fn lemma_linear_index_injective(
    x1: int,
    y1: int,
    z1: int,
    x2: int,
    y2: int,
    z2: int,
)
    requires
        0 <= x1 < 16 && 0 <= y1 < 256 && 0 <= z1 < 16,
        0 <= x2 < 16 && 0 <= y2 < 256 && 0 <= z2 < 16,
        linear_index(x1, y1, z1) == linear_index(x2, y2, z2),
    ensures
        x1 == x2 && y1 == y2 && z1 == z2,
{
    let i = linear_index(x1, y1, z1);
    vstd::arithmetic::div_mod::lemma_fundamental_div_mod_converse(
        i,
        256,
        y1,
        x1 * 16 + z1,
    );
    vstd::arithmetic::div_mod::lemma_fundamental_div_mod_converse(
        i,
        256,
        y2,
        x2 * 16 + z2,
    );
    vstd::arithmetic::div_mod::lemma_fundamental_div_mod_converse(x1 * 16 + z1, 16, x1, z1);
    vstd::arithmetic::div_mod::lemma_fundamental_div_mod_converse(x2 * 16 + z2, 16, x2, z2);
}

/// Dense grid of 16 x 256 x 16 block type ids, all-air by default.
#[derive(Debug)]
pub struct Chunk {
    pub blocks: Vec<BlockTypeId>,
}

impl Clone for Chunk {
    /// An element-wise copy of the grid.
    fn clone(&self) -> (r: Self)
        ensures
            r.blocks@ == self.blocks@,
    {
        let n = self.blocks.len();
        let mut blocks: Vec<BlockTypeId> = Vec::new();
        let mut i: usize = 0;
        while i < n
            invariant
                i <= n,
                n == self.blocks@.len(),
                blocks@.len() == i,
                forall|j: int| 0 <= j < i ==> (#[trigger] blocks@[j]) == self.blocks@[j],
            decreases n - i,
        {
            blocks.push(self.blocks[i]);
            i = i + 1;
        }
        proof {
            assert(blocks@ =~= self.blocks@);
        }
        Chunk { blocks }
    }
}

impl Chunk {
    /// Well-formed: the vector covers the whole grid.
    pub open spec fn wf(self) -> bool {
        self.blocks@.len() == CHUNK_VOLUME
    }

    /// The block type id stored at `(x, y, z)`.
    pub open spec fn spec_block(self, x: int, y: int, z: int) -> BlockTypeId {
        self.blocks@[linear_index(x, y, z)]
    }

    pub fn get_block(&self, x: usize, y: usize, z: usize) -> (id: BlockTypeId)
        requires
            self.wf(),
            x < 16 && y < 256 && z < 16,
        ensures
            id == self.spec_block(x as int, y as int, z as int),
    {
        self.blocks[y * 256 + x * 16 + z]
    }

    pub fn set_block(&mut self, x: usize, y: usize, z: usize, id: BlockTypeId)
        requires
            old(self).wf(),
            x < 16 && y < 256 && z < 16,
        ensures
            final(self).wf(),
            final(self).blocks@ == old(self).blocks@.update(
                linear_index(x as int, y as int, z as int),
                id,
            ),
    {
        self.blocks.set(y * 256 + x * 16 + z, id);
    }
}

/// Every block id of the chunk lies below `n`.
pub open spec fn chunk_in_range(c: Chunk, n: int) -> bool {
    forall|j: int| 0 <= j < c.blocks@.len() ==> (#[trigger] c.blocks@[j]) < n
}

impl Default for Chunk {
    /// A chunk of nothing but air.
    fn default() -> (r: Self)
        ensures
            r.wf(),
            forall|j: int| 0 <= j < CHUNK_VOLUME ==> (#[trigger] r.blocks@[j]) == 0,
    {
        let mut blocks: Vec<BlockTypeId> = Vec::new();
        let mut i: usize = 0;
        while i < CHUNK_VOLUME
            invariant
                i <= CHUNK_VOLUME,
                blocks@.len() == i,
                forall|j: int| 0 <= j < i ==> (#[trigger] blocks@[j]) == 0,
            decreases CHUNK_VOLUME - i,
        {
            blocks.push(0);
            i = i + 1;
        }
        Chunk { blocks }
    }
}

/// The world: every loaded chunk, keyed by position, and the block registry.
pub struct World {
    pub chunks: HashMap<u64, Chunk>,
    /// The loaded chunk positions, in insertion order, one per key of
    /// `chunks`.
    pub loaded: Vec<ChunkPosition>,
    pub block_registry: BlockRegistry,
}

impl World {
    /// The key of the `i`-th loaded position.
    pub open spec fn loaded_key(self, i: int) -> u64 {
        spec_pos_key(self.loaded@[i].x as int, self.loaded@[i].z as int)
    }

    /// Well-formed: the registry is sound, `loaded` enumerates the chunk keys
    /// exactly once each, and every chunk is full-size with ids inside the
    /// registry.
    pub open spec fn wf(self) -> bool {
        &&& self.block_registry.wf()
        &&& forall|i: int|
            0 <= i < self.loaded@.len() ==> self.chunks@.contains_key(#[trigger] self.loaded_key(i))
        &&& forall|k: u64|
            self.chunks@.contains_key(k) ==> exists|i: int|
                0 <= i < self.loaded@.len() && self.loaded_key(i) == k
        &&& forall|i: int, j: int|
            0 <= i < j < self.loaded@.len() ==> self.loaded_key(i) != self.loaded_key(j)
        &&& forall|k: u64|
            self.chunks@.contains_key(k) ==> (#[trigger] self.chunks@[k]).wf() && chunk_in_range(
                self.chunks@[k],
                self.block_registry@.len() as int,
            )
    }

    /// An empty world over the given registry.
    pub fn new(block_registry: BlockRegistry) -> (r: Self)
        requires
            block_registry.wf(),
        ensures
            r.wf(),
            r.chunks@ == Map::<u64, Chunk>::empty(),
            r.loaded@ == Seq::<ChunkPosition>::empty(),
            r.block_registry == block_registry,
    {
        let r = World { chunks: HashMap::new(), loaded: Vec::new(), block_registry };
        proof {
            assert(r.chunks@ =~= Map::<u64, Chunk>::empty());
        }
        r
    }

    /// The chunk loaded at `position`, if any.
    pub fn get_chunk(&self, position: &ChunkPosition) -> (r: Option<&Chunk>)
        ensures
            ({
                let k = spec_pos_key(position.x as int, position.z as int);
                match r {
                    Some(c) => self.chunks@.contains_key(k) && *c == self.chunks@[k],
                    None => !self.chunks@.contains_key(k),
                }
            }),
    {
        let k = position.key();
        self.chunks.get(&k)
    }

    /// Load `chunk` at `position`, replacing what was there.
    pub fn insert_chunk(&mut self, position: ChunkPosition, chunk: Chunk)
        requires
            old(self).wf(),
            chunk.wf(),
            chunk_in_range(chunk, old(self).block_registry@.len() as int),
        ensures
            final(self).wf(),
            final(self).block_registry == old(self).block_registry,
            final(self).chunks@ == old(self).chunks@.insert(
                spec_pos_key(position.x as int, position.z as int),
                chunk,
            ),
            ({
                let k = spec_pos_key(position.x as int, position.z as int);
                if old(self).chunks@.contains_key(k) {
                    final(self).loaded@ == old(self).loaded@
                } else {
                    final(self).loaded@ == old(self).loaded@.push(position)
                }
            }),
    {
        let k = position.key();
        if !self.chunks.contains_key(&k) {
            self.loaded.push(position);
        }
        self.chunks.insert(k, chunk);
        proof {
            let n0 = old(self).loaded@.len() as int;
            if old(self).chunks@.contains_key(k) {
                assert forall|i: int| 0 <= i < self.loaded@.len() implies self.chunks@.contains_key(
                    #[trigger] self.loaded_key(i),
                ) by {
                    assert(self.loaded_key(i) == old(self).loaded_key(i));
                    assert(old(self).chunks@.contains_key(old(self).loaded_key(i)));
                }
                assert forall|kk: u64| self.chunks@.contains_key(kk) implies exists|i: int|
                    0 <= i < self.loaded@.len() && self.loaded_key(i) == kk by {
                    let i = choose|i: int|
                        0 <= i < n0 && old(self).loaded_key(i) == kk;
                    assert(self.loaded_key(i) == kk);
                }
                assert forall|i: int, j: int|
                    0 <= i < j < self.loaded@.len() implies self.loaded_key(i)
                    != self.loaded_key(j) by {
                    assert(self.loaded_key(i) == old(self).loaded_key(i));
                    assert(self.loaded_key(j) == old(self).loaded_key(j));
                }
            } else {
                assert(self.loaded_key(n0) == k);
                assert forall|i: int| 0 <= i < self.loaded@.len() implies self.chunks@.contains_key(
                    #[trigger] self.loaded_key(i),
                ) by {
                    if i < n0 {
                        assert(self.loaded_key(i) == old(self).loaded_key(i));
                        assert(old(self).chunks@.contains_key(old(self).loaded_key(i)));
                    }
                }
                assert forall|kk: u64| self.chunks@.contains_key(kk) implies exists|i: int|
                    0 <= i < self.loaded@.len() && self.loaded_key(i) == kk by {
                    if kk == k {
                        assert(self.loaded_key(n0) == kk);
                    } else {
                        let i = choose|i: int|
                            0 <= i < n0 && old(self).loaded_key(i) == kk;
                        assert(self.loaded_key(i) == kk);
                    }
                }
                assert forall|i: int, j: int|
                    0 <= i < j < self.loaded@.len() implies self.loaded_key(i)
                    != self.loaded_key(j) by {
                    if j < n0 {
                        assert(self.loaded_key(i) == old(self).loaded_key(i));
                        assert(self.loaded_key(j) == old(self).loaded_key(j));
                        assert(old(self).loaded_key(i) != old(self).loaded_key(j));
                    } else {
                        // the new key was absent, while every old position's
                        // key was present
                        assert(self.loaded_key(j) == k);
                        assert(self.loaded_key(i) == old(self).loaded_key(i));
                        assert(old(self).chunks@.contains_key(old(self).loaded_key(i)));
                        assert(!old(self).chunks@.contains_key(k));
                    }
                }
            }
        }
    }
}

impl World {
    /// The block at world coordinates `(x, y, z)`: the block of the loaded
    /// chunk covering that column, or air where no chunk is loaded.
    pub open spec fn spec_block_at(self, x: int, y: int, z: int) -> BlockTypeId {
        let k = spec_pos_key(x / 16, z / 16);
        if self.chunks@.contains_key(k) {
            self.chunks@[k].spec_block(x % 16, y, z % 16)
        } else {
            0
        }
    }

    /// The block type id at world coordinates `(x, y, z)`; air where no
    /// chunk is loaded.
    pub fn get_block(&self, x: i32, y: i32, z: i32) -> (id: BlockTypeId)
        requires
            self.wf(),
            0 <= y < 256,
        ensures
            id == self.spec_block_at(x as int, y as int, z as int),
    {
        let (cx, lx) = split_coord(x);
        let (cz, lz) = split_coord(z);
        match self.get_chunk(&ChunkPosition { x: cx, z: cz }) {
            Some(chunk) => chunk.get_block(lx, y as usize, lz),
            None => 0,
        }
    }

    /// Writes the block at world coordinates `(x, y, z)`, creating the
    /// covering chunk when none is loaded there; every other block of the
    /// world keeps its value.
    pub fn set_block(&mut self, x: i32, y: i32, z: i32, block_type_id: BlockTypeId)
        requires
            old(self).wf(),
            0 <= y < 256,
            block_type_id < old(self).block_registry@.len(),
        ensures
            final(self).wf(),
            final(self).block_registry == old(self).block_registry,
            forall|a: int, b: int, c: int|
                #![trigger final(self).spec_block_at(a, b, c)]
                i32::MIN <= a <= i32::MAX && 0 <= b < 256 && i32::MIN <= c <= i32::MAX
                    ==> final(self).spec_block_at(a, b, c) == (if a == x && b == y && c == z {
                    block_type_id
                } else {
                    old(self).spec_block_at(a, b, c)
                }),
    {
        let (cx, lx) = split_coord(x);
        let (cz, lz) = split_coord(z);
        let position = ChunkPosition { x: cx, z: cz };
        let mut chunk = match self.get_chunk(&position) {
            Some(c) => c.clone(),
            None => Chunk::default(),
        };
        proof {
            assert(chunk.wf());
            assert(chunk_in_range(chunk, old(self).block_registry@.len() as int)) by {
                let k = spec_pos_key(cx as int, cz as int);
                if old(self).chunks@.contains_key(k) {
                    assert(chunk_in_range(old(self).chunks@[k], old(
                        self,
                    ).block_registry@.len() as int));
                }
            }
        }
        chunk.set_block(lx, y as usize, lz, block_type_id);
        proof {
            assert(chunk_in_range(chunk, old(self).block_registry@.len() as int)) by {
                assert forall|j: int|
                    0 <= j < chunk.blocks@.len() implies (#[trigger] chunk.blocks@[j]) < old(
                    self,
                ).block_registry@.len() by {
                    if j != linear_index(lx as int, y as int, lz as int) {
                    }
                }
            }
        }
        self.insert_chunk(position, chunk);
        proof {
            let xi = x as int;
            let yi = y as int;
            let zi = z as int;
            let k = spec_pos_key(xi / 16, zi / 16);
            assert forall|a: int, b: int, c: int|
                i32::MIN <= a <= i32::MAX && 0 <= b < 256 && i32::MIN <= c
                    <= i32::MAX implies #[trigger] self.spec_block_at(a, b, c) == (if a == xi && b
                == yi && c == zi {
                block_type_id
            } else {
                old(self).spec_block_at(a, b, c)
            }) by {
                vstd::arithmetic::div_mod::lemma_mod_bound(a, 16);
                vstd::arithmetic::div_mod::lemma_mod_bound(c, 16);
                vstd::arithmetic::div_mod::lemma_div_is_ordered(i32::MIN as int, a, 16);
                vstd::arithmetic::div_mod::lemma_div_is_ordered(a, i32::MAX as int, 16);
                vstd::arithmetic::div_mod::lemma_div_is_ordered(i32::MIN as int, c, 16);
                vstd::arithmetic::div_mod::lemma_div_is_ordered(c, i32::MAX as int, 16);
                let ka = spec_pos_key(a / 16, c / 16);
                if ka == k {
                    lemma_pos_key_injective(a / 16, c / 16, xi / 16, zi / 16);
                    vstd::arithmetic::div_mod::lemma_fundamental_div_mod(a, 16);
                    vstd::arithmetic::div_mod::lemma_fundamental_div_mod(c, 16);
                    vstd::arithmetic::div_mod::lemma_fundamental_div_mod(xi, 16);
                    vstd::arithmetic::div_mod::lemma_fundamental_div_mod(zi, 16);
                    if a == xi && b == yi && c == zi {
                    } else {
                        assert(linear_index(a % 16, b, c % 16) != linear_index(
                            xi % 16,
                            yi,
                            zi % 16,
                        )) by {
                            if linear_index(a % 16, b, c % 16) == linear_index(
                                xi % 16,
                                yi,
                                zi % 16,
                            ) {
                                lemma_linear_index_injective(
                                    a % 16,
                                    b,
                                    c % 16,
                                    xi % 16,
                                    yi,
                                    zi % 16,
                                );
                            }
                        }
                    }
                }
            }
        }
    }
}

/// Splits a world coordinate into its chunk coordinate and its offset
/// within the chunk.
fn split_coord(v: i32) -> (r: (i32, usize))
    ensures
        r.0 as int == (v as int) / 16,
        r.1 as int == (v as int) % 16,
        r.1 < 16,
{
    let b = (v as i64 + 0x8000_0000) as u64;
    let q = ((b / 16) as i64 - 0x0800_0000) as i32;
    let m = (b % 16) as usize;
    proof {
        let vi = v as int;
        vstd::arithmetic::div_mod::lemma_hoist_over_denominator(vi, 0x0800_0000, 16nat);
        assert(vi / 16 + 0x0800_0000 == (vi + 0x8000_0000) / 16);
        vstd::arithmetic::div_mod::lemma_mod_multiples_vanish(0x0800_0000, vi, 16);
        assert((16 * 0x0800_0000 + vi) % 16 == vi % 16);
        assert(vi + 0x8000_0000 == 16 * 0x0800_0000 + vi);
        vstd::arithmetic::div_mod::lemma_mod_bound(vi, 16);
        vstd::arithmetic::div_mod::lemma_div_pos_is_pos(vi + 0x8000_0000, 16);
        vstd::arithmetic::div_mod::lemma_div_is_ordered(
            vi + 0x8000_0000,
            0xFFFF_FFFF,
            16,
        );
    }
    (q, m)
}

/// Whether `(a, b, c)` lies in the half-open box `[min, max)`.
pub open spec fn in_cuboid(min: Seq<i32>, max: Seq<i32>, a: int, b: int, c: int) -> bool {
    &&& min[0] <= a < max[0]
    &&& min[1] <= b < max[1]
    &&& min[2] <= c < max[2]
}

/// Whether `(a, b, c)` lies in the filled region of the sphere around
/// `center` of radius `radius`: within the half-open bounding box and within
/// the squared radius.
pub open spec fn in_sphere(center: Seq<i32>, radius: int, a: int, b: int, c: int) -> bool {
    let dx = a - center[0];
    let dy = b - center[1];
    let dz = c - center[2];
    &&& center[0] - radius <= a < center[0] + radius
    &&& center[1] - radius <= b < center[1] + radius
    &&& center[2] - radius <= c < center[2] + radius
    &&& dx * dx + dy * dy + dz * dz <= radius * radius
}

proof fn lemma_square_bounds(a: int, r: int)
    requires
        -r <= a <= r,
        0 <= r <= 26754,
    ensures
        0 <= a * a <= r * r,
        r * r <= 715_776_516,
{
    assert(0 <= a * a <= r * r && r * r <= 26754 * 26754) by (nonlinear_arith)
        requires
            -r <= a <= r,
            0 <= r <= 26754,
    ;
}

impl World {
    /// Fills the half-open box `[min, max)` with blocks of `block_type_id`;
    /// every block outside the box keeps its value.
    #[verifier::loop_isolation(false)]
    pub fn fill_cuboid(&mut self, min: [i32; 3], max: [i32; 3], block_type_id: BlockTypeId)
        requires
            old(self).wf(),
            block_type_id < old(self).block_registry@.len(),
            min@[1] < max@[1] ==> 0 <= min@[1] && max@[1] <= 256,
        ensures
            final(self).wf(),
            final(self).block_registry == old(self).block_registry,
            forall|a: int, b: int, c: int|
                #![trigger final(self).spec_block_at(a, b, c)]
                i32::MIN <= a <= i32::MAX && 0 <= b < 256 && i32::MIN <= c <= i32::MAX
                    ==> final(self).spec_block_at(a, b, c) == (if in_cuboid(min@, max@, a, b, c) {
                    block_type_id
                } else {
                    old(self).spec_block_at(a, b, c)
                }),
    {
        let mut x = min[0];
        while x < max[0]
            invariant
                min@[0] <= x <= max@[0] || x == min@[0],
                self.wf(),
                self.block_registry == old(self).block_registry,
                forall|a: int, b: int, c: int|
                    #![trigger self.spec_block_at(a, b, c)]
                    i32::MIN <= a <= i32::MAX && 0 <= b < 256 && i32::MIN <= c <= i32::MAX
                        ==> self.spec_block_at(a, b, c) == (if in_cuboid(min@, max@, a, b, c) && a
                        < x {
                        block_type_id
                    } else {
                        old(self).spec_block_at(a, b, c)
                    }),
            decreases max@[0] - x,
        {
            let mut y = min[1];
            while y < max[1]
                invariant
                    min@[1] <= y <= max@[1] || y == min@[1],
                    x < max@[0],
                    self.wf(),
                    self.block_registry == old(self).block_registry,
                    forall|a: int, b: int, c: int|
                        #![trigger self.spec_block_at(a, b, c)]
                        i32::MIN <= a <= i32::MAX && 0 <= b < 256 && i32::MIN <= c <= i32::MAX
                            ==> self.spec_block_at(a, b, c) == (if in_cuboid(min@, max@, a, b, c)
                            && (a < x || (a == x && b < y)) {
                            block_type_id
                        } else {
                            old(self).spec_block_at(a, b, c)
                        }),
                decreases max@[1] - y,
            {
                let mut z = min[2];
                while z < max[2]
                    invariant
                        min@[2] <= z <= max@[2] || z == min@[2],
                        x < max@[0],
                        min@[1] <= y < max@[1],
                        self.wf(),
                        self.block_registry == old(self).block_registry,
                        forall|a: int, b: int, c: int|
                            #![trigger self.spec_block_at(a, b, c)]
                            i32::MIN <= a <= i32::MAX && 0 <= b < 256 && i32::MIN <= c <= i32::MAX
                                ==> self.spec_block_at(a, b, c) == (if in_cuboid(
                                min@,
                                max@,
                                a,
                                b,
                                c,
                            ) && (a < x || (a == x && (b < y || (b == y && c < z)))) {
                                block_type_id
                            } else {
                                old(self).spec_block_at(a, b, c)
                            }),
                    decreases max@[2] - z,
                {
                    self.set_block(x, y, z, block_type_id);
                    z = z + 1;
                }
                y = y + 1;
            }
            x = x + 1;
        }
    }

    /// Fills the ball of radius `radius` around `center` with blocks of
    /// `block_type_id`; every block outside it keeps its value.
    #[verifier::loop_isolation(false)]
    pub fn fill_sphere(&mut self, center: [i32; 3], radius: i32, block_type_id: BlockTypeId)
        requires
            old(self).wf(),
            block_type_id < old(self).block_registry@.len(),
            0 <= radius <= 26754,
            radius > 0 ==> 0 <= center@[1] - radius && center@[1] + radius <= 256,
            radius > 0 ==> i32::MIN <= center@[0] - radius && center@[0] + radius <= i32::MAX,
            radius > 0 ==> i32::MIN <= center@[2] - radius && center@[2] + radius <= i32::MAX,
        ensures
            final(self).wf(),
            final(self).block_registry == old(self).block_registry,
            forall|a: int, b: int, c: int|
                #![trigger final(self).spec_block_at(a, b, c)]
                i32::MIN <= a <= i32::MAX && 0 <= b < 256 && i32::MIN <= c <= i32::MAX
                    ==> final(self).spec_block_at(a, b, c) == (if in_sphere(
                    center@,
                    radius as int,
                    a,
                    b,
                    c,
                ) {
                    block_type_id
                } else {
                    old(self).spec_block_at(a, b, c)
                }),
    {
        if radius == 0 {
            return ;
        }
        let x_end = center[0] + radius;
        let y_end = center[1] + radius;
        let z_end = center[2] + radius;
        let mut x = center[0] - radius;
        while x < x_end
            invariant
                center@[0] - radius <= x <= x_end,
                self.wf(),
                self.block_registry == old(self).block_registry,
                forall|a: int, b: int, c: int|
                    #![trigger self.spec_block_at(a, b, c)]
                    i32::MIN <= a <= i32::MAX && 0 <= b < 256 && i32::MIN <= c <= i32::MAX
                        ==> self.spec_block_at(a, b, c) == (if in_sphere(
                        center@,
                        radius as int,
                        a,
                        b,
                        c,
                    ) && a < x {
                        block_type_id
                    } else {
                        old(self).spec_block_at(a, b, c)
                    }),
            decreases x_end - x,
        {
            let mut y = center[1] - radius;
            while y < y_end
                invariant
                    center@[1] - radius <= y <= y_end,
                    center@[0] - radius <= x < x_end,
                    self.wf(),
                    self.block_registry == old(self).block_registry,
                    forall|a: int, b: int, c: int|
                        #![trigger self.spec_block_at(a, b, c)]
                        i32::MIN <= a <= i32::MAX && 0 <= b < 256 && i32::MIN <= c <= i32::MAX
                            ==> self.spec_block_at(a, b, c) == (if in_sphere(
                            center@,
                            radius as int,
                            a,
                            b,
                            c,
                        ) && (a < x || (a == x && b < y)) {
                            block_type_id
                        } else {
                            old(self).spec_block_at(a, b, c)
                        }),
                decreases y_end - y,
            {
                let mut z = center[2] - radius;
                while z < z_end
                    invariant
                        center@[2] - radius <= z <= z_end,
                        center@[0] - radius <= x < x_end,
                        center@[1] - radius <= y < y_end,
                        self.wf(),
                        self.block_registry == old(self).block_registry,
                        forall|a: int, b: int, c: int|
                            #![trigger self.spec_block_at(a, b, c)]
                            i32::MIN <= a <= i32::MAX && 0 <= b < 256 && i32::MIN <= c <= i32::MAX
                                ==> self.spec_block_at(a, b, c) == (if in_sphere(
                                center@,
                                radius as int,
                                a,
                                b,
                                c,
                            ) && (a < x || (a == x && (b < y || (b == y && c < z)))) {
                                block_type_id
                            } else {
                                old(self).spec_block_at(a, b, c)
                            }),
                    decreases z_end - z,
                {
                    let dx = x - center[0];
                    let dy = y - center[1];
                    let dz = z - center[2];
                    proof {
                        lemma_square_bounds(dx as int, radius as int);
                        lemma_square_bounds(dy as int, radius as int);
                        lemma_square_bounds(dz as int, radius as int);
                    }
                    if dx * dx + dy * dy + dz * dz <= radius * radius {
                        self.set_block(x, y, z, block_type_id);
                    }
                    z = z + 1;
                }
                y = y + 1;
            }
            x = x + 1;
        }
    }
}

} // verus!
