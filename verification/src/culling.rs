//! Face-visibility culling: which faces of which blocks can ever be seen,
//! including chunk boundaries, the world's vertical bounds, and unloaded
//! neighboring chunks.

use vstd::prelude::*;

use crate::types::{spec_transparent, BlockTypeId, Direction};
use crate::world::{chunk_in_range, spec_pos_key, Chunk, ChunkPosition, World, CHUNK_VOLUME};
use std::collections::HashMap;

verus! {

broadcast use vstd::std_specs::hash::group_hash_axioms;

/// One visible face: local block position within the chunk, the direction
/// the face points in, and the block's type.
#[derive(Debug, Clone, Copy, PartialEq, Eq, Hash)]
pub struct VisibleFace {
    pub position: (u32, u32, u32),
    pub direction: Direction,
    pub block_type_id: BlockTypeId,
}

/// The face of the block at `(x, y, z)` pointing in `d`.
pub open spec fn spec_face(x: int, y: int, z: int, d: Direction, id: int) -> VisibleFace {
    VisibleFace {
        position: (x as u32, y as u32, z as u32),
        direction: d,
        block_type_id: id as usize,
    }
}

/// All six faces of the block at `(x, y, z)`, in the fixed direction order.
pub open spec fn spec_all_faces(x: int, y: int, z: int, id: int) -> Seq<VisibleFace> {
    seq![
        spec_face(x, y, z, Direction::Up, id),
        spec_face(x, y, z, Direction::Down, id),
        spec_face(x, y, z, Direction::North, id),
        spec_face(x, y, z, Direction::South, id),
        spec_face(x, y, z, Direction::East, id),
        spec_face(x, y, z, Direction::West, id),
    ]
}

/// Whether the face of an opaque block at in-chunk coordinates `(x, y, z)`
/// pointing in `d` is visible. At the vertical world bounds the face is
/// always visible; across a horizontal chunk boundary an unloaded neighbor
/// occludes, and a loaded one decides by the transparency of its block at
/// the wrapped coordinate; inside the chunk the neighbor block decides.
pub open spec fn spec_face_visible(
    w: World,
    c: Chunk,
    cp: ChunkPosition,
    x: int,
    y: int,
    z: int,
    d: Direction,
) -> bool {
    let o = d.offset();
    if (y == 0 && d is Down) || (y == 255 && d is Up) {
        true
    } else {
        let nx = x + o.0;
        let ny = y + o.1;
        let nz = z + o.2;
        if nx < 0 || nx >= 16 || nz < 0 || nz >= 16 {
            let nk = spec_pos_key(cp.x + o.0, cp.z + o.2);
            if w.chunks@.contains_key(nk) {
                spec_transparent(
                    w.block_registry@,
                    w.chunks@[nk].spec_block((nx + 16) % 16, y, (nz + 16) % 16) as int,
                )
            } else {
                false
            }
        } else {
            spec_transparent(w.block_registry@, c.spec_block(nx, ny, nz) as int)
        }
    }
}

/// The face of the block at `(x, y, z)` in direction `d`, as a sequence:
/// a singleton if visible, else empty.
pub open spec fn spec_face_seq(
    w: World,
    c: Chunk,
    cp: ChunkPosition,
    x: int,
    y: int,
    z: int,
    id: int,
    d: Direction,
) -> Seq<VisibleFace> {
    if spec_face_visible(w, c, cp, x, y, z, d) {
        seq![spec_face(x, y, z, d, id)]
    } else {
        Seq::empty()
    }
}

/// The visible faces the block of type `id` at `(x, y, z)` contributes, in
/// direction order: none for air, all six for a transparent block, and for
/// an opaque block exactly those its surroundings leave visible.
pub open spec fn spec_block_faces(
    w: World,
    c: Chunk,
    cp: ChunkPosition,
    x: int,
    y: int,
    z: int,
    id: int,
) -> Seq<VisibleFace> {
    if id == 0 {
        Seq::<VisibleFace>::empty()
    } else if spec_transparent(w.block_registry@, id) {
        spec_all_faces(x, y, z, id)
    } else {
        spec_face_seq(w, c, cp, x, y, z, id, Direction::Up) + spec_face_seq(
            w,
            c,
            cp,
            x,
            y,
            z,
            id,
            Direction::Down,
        ) + spec_face_seq(w, c, cp, x, y, z, id, Direction::North) + spec_face_seq(
            w,
            c,
            cp,
            x,
            y,
            z,
            id,
            Direction::South,
        ) + spec_face_seq(w, c, cp, x, y, z, id, Direction::East) + spec_face_seq(
            w,
            c,
            cp,
            x,
            y,
            z,
            id,
            Direction::West,
        )
    }
}

impl VisibleFace {
    /// All six faces of one block, in the fixed direction order.
    pub fn all_faces(position: (u32, u32, u32), block_type_id: BlockTypeId) -> (r: Vec<
        VisibleFace,
    >)
        ensures
            r@ == spec_all_faces(
                position.0 as int,
                position.1 as int,
                position.2 as int,
                block_type_id as int,
            ),
    {
        let mut r: Vec<VisibleFace> = Vec::new();
        r.push(VisibleFace { position, direction: Direction::Up, block_type_id });
        r.push(VisibleFace { position, direction: Direction::Down, block_type_id });
        r.push(VisibleFace { position, direction: Direction::North, block_type_id });
        r.push(VisibleFace { position, direction: Direction::South, block_type_id });
        r.push(VisibleFace { position, direction: Direction::East, block_type_id });
        r.push(VisibleFace { position, direction: Direction::West, block_type_id });
        proof {
            assert(r@ =~= spec_all_faces(
                position.0 as int,
                position.1 as int,
                position.2 as int,
                block_type_id as int,
            ));
        }
        r
    }
}

/// Whether the face in direction `direction` of an opaque block at
/// `(x, y, z)` of `chunk` is visible.
fn face_visible(
    world: &World,
    chunk: &Chunk,
    chunk_position: ChunkPosition,
    x: u32,
    y: u32,
    z: u32,
    direction: Direction,
) -> (r: bool)
    requires
        world.wf(),
        chunk.wf(),
        chunk_in_range(*chunk, world.block_registry@.len() as int),
        x < 16 && y < 256 && z < 16,
        i32::MIN < chunk_position.x < i32::MAX,
        i32::MIN < chunk_position.z < i32::MAX,
    ensures
        r == spec_face_visible(
            *world,
            *chunk,
            chunk_position,
            x as int,
            y as int,
            z as int,
            direction,
        ),
{
    let (dx, dy, dz) = direction.to_offset();
    if (y == 0 && direction == Direction::Down) || (y == 255 && direction == Direction::Up) {
        return true;
    }
    let nx = x as i32 + dx;
    let ny = y as i32 + dy;
    let nz = z as i32 + dz;
    if nx < 0 || nx >= 16 || nz < 0 || nz >= 16 {
        let neighbor_position = ChunkPosition {
            x: chunk_position.x + dx,
            z: chunk_position.z + dz,
        };
        match world.get_chunk(&neighbor_position) {
            Some(neighbor_chunk) => {
                let wx = (((nx + 16) as u32) % 16) as usize;
                let wz = (((nz + 16) as u32) % 16) as usize;
                let neighbor_id = neighbor_chunk.get_block(wx, y as usize, wz);
                world.block_registry.is_block_transparent(neighbor_id)
            },
            None => false,
        }
    } else {
        let neighbor_id = chunk.get_block(nx as usize, ny as usize, nz as usize);
        world.block_registry.is_block_transparent(neighbor_id)
    }
}

/// Appends the face of the block at `(x, y, z)` in direction `d` when that
/// face is visible.
fn push_face_if_visible(
    faces: &mut Vec<VisibleFace>,
    world: &World,
    chunk: &Chunk,
    chunk_position: ChunkPosition,
    x: u32,
    y: u32,
    z: u32,
    block_type_id: BlockTypeId,
    direction: Direction,
)
    requires
        world.wf(),
        chunk.wf(),
        chunk_in_range(*chunk, world.block_registry@.len() as int),
        x < 16 && y < 256 && z < 16,
        i32::MIN < chunk_position.x < i32::MAX,
        i32::MIN < chunk_position.z < i32::MAX,
    ensures
        final(faces)@ == old(faces)@ + spec_face_seq(
            *world,
            *chunk,
            chunk_position,
            x as int,
            y as int,
            z as int,
            block_type_id as int,
            direction,
        ),
{
    if face_visible(world, chunk, chunk_position, x, y, z, direction) {
        faces.push(VisibleFace { position: (x, y, z), direction, block_type_id });
    }
    proof {
        assert(faces@ =~= old(faces)@ + spec_face_seq(
            *world,
            *chunk,
            chunk_position,
            x as int,
            y as int,
            z as int,
            block_type_id as int,
            direction,
        ));
    }
}

/// The visible faces contributed by one block of type `block_type_id` at
/// `block_position` of `chunk`: none for air, all six for a transparent
/// block, and for an opaque block each of the six directions checked against
/// its neighbor, the vertical world bounds, and the neighboring chunks.
pub fn check_visible_faces_for_block(
    block_type_id: BlockTypeId,
    world: &World,
    chunk: &Chunk,
    chunk_position: ChunkPosition,
    block_position: (u32, u32, u32),
) -> (r: Vec<VisibleFace>)
    requires
        world.wf(),
        chunk.wf(),
        chunk_in_range(*chunk, world.block_registry@.len() as int),
        block_type_id < world.block_registry@.len(),
        block_position.0 < 16 && block_position.1 < 256 && block_position.2 < 16,
        i32::MIN < chunk_position.x < i32::MAX,
        i32::MIN < chunk_position.z < i32::MAX,
    ensures
        r@ == spec_block_faces(
            *world,
            *chunk,
            chunk_position,
            block_position.0 as int,
            block_position.1 as int,
            block_position.2 as int,
            block_type_id as int,
        ),
{
    if block_type_id == 0 {
        return Vec::new();
    }
    if world.block_registry.is_block_transparent(block_type_id) {
        return VisibleFace::all_faces(block_position, block_type_id);
    }
    let (x, y, z) = block_position;
    let mut visible_faces: Vec<VisibleFace> = Vec::new();
    push_face_if_visible(
        &mut visible_faces,
        world,
        chunk,
        chunk_position,
        x,
        y,
        z,
        block_type_id,
        Direction::Up,
    );
    push_face_if_visible(
        &mut visible_faces,
        world,
        chunk,
        chunk_position,
        x,
        y,
        z,
        block_type_id,
        Direction::Down,
    );
    push_face_if_visible(
        &mut visible_faces,
        world,
        chunk,
        chunk_position,
        x,
        y,
        z,
        block_type_id,
        Direction::North,
    );
    push_face_if_visible(
        &mut visible_faces,
        world,
        chunk,
        chunk_position,
        x,
        y,
        z,
        block_type_id,
        Direction::South,
    );
    push_face_if_visible(
        &mut visible_faces,
        world,
        chunk,
        chunk_position,
        x,
        y,
        z,
        block_type_id,
        Direction::East,
    );
    push_face_if_visible(
        &mut visible_faces,
        world,
        chunk,
        chunk_position,
        x,
        y,
        z,
        block_type_id,
        Direction::West,
    );
    proof {
        assert(visible_faces@ =~= spec_block_faces(
            *world,
            *chunk,
            chunk_position,
            x as int,
            y as int,
            z as int,
            block_type_id as int,
        ));
    }
    visible_faces
}

/// The faces of the first `n` blocks of the chunk, in storage order
/// (y-major, then x, then z), concatenated.
pub open spec fn spec_chunk_faces_upto(w: World, c: Chunk, cp: ChunkPosition, n: int) -> Seq<
    VisibleFace,
>
    decreases n,
{
    if n <= 0 {
        Seq::<VisibleFace>::empty()
    } else {
        let i = n - 1;
        spec_chunk_faces_upto(w, c, cp, i) + spec_block_faces(
            w,
            c,
            cp,
            (i % 256) / 16,
            i / 256,
            i % 16,
            c.blocks@[i] as int,
        )
    }
}

/// Every visible face of the chunk at `cp`, blocks taken in storage order.
pub open spec fn spec_chunk_faces(w: World, c: Chunk, cp: ChunkPosition) -> Seq<VisibleFace> {
    spec_chunk_faces_upto(w, c, cp, CHUNK_VOLUME as int)
}

/// Decoding the storage position of in-bounds block coordinates gives those
/// coordinates back.
proof fn lemma_linear_index_decode(x: int, y: int, z: int)
    requires
        0 <= x < 16 && 0 <= y < 256 && 0 <= z < 16,
    ensures
        ({
            let i = y * 256 + x * 16 + z;
            &&& 0 <= i < CHUNK_VOLUME
            &&& i / 256 == y
            &&& (i % 256) / 16 == x
            &&& i % 16 == z
        }),
{
    let i = y * 256 + x * 16 + z;
    vstd::arithmetic::div_mod::lemma_fundamental_div_mod_converse(i, 256, y, x * 16 + z);
    vstd::arithmetic::div_mod::lemma_fundamental_div_mod_converse(x * 16 + z, 16, x, z);
    assert(i == (16 * y) * 16 + (x * 16 + z));
    vstd::arithmetic::div_mod::lemma_fundamental_div_mod_converse(i, 16, 16 * y + x, z);
}

/// The visible faces of `chunk`, taken as standing at `chunk_position` in
/// `world`, over every block of the chunk in storage order.
#[verifier::loop_isolation(false)]
pub fn cull_faces_for_chunk(world: &World, chunk: &Chunk, chunk_position: ChunkPosition) -> (r:
    Vec<VisibleFace>)
    requires
        world.wf(),
        chunk.wf(),
        chunk_in_range(*chunk, world.block_registry@.len() as int),
        i32::MIN < chunk_position.x < i32::MAX,
        i32::MIN < chunk_position.z < i32::MAX,
    ensures
        r@ == spec_chunk_faces(*world, *chunk, chunk_position),
{
    let mut r: Vec<VisibleFace> = Vec::new();
    let mut y: usize = 0;
    while y < 256
        invariant
            y <= 256,
            r@ == spec_chunk_faces_upto(*world, *chunk, chunk_position, y as int * 256),
        decreases 256 - y,
    {
        let mut x: usize = 0;
        while x < 16
            invariant
                x <= 16,
                y < 256,
                r@ == spec_chunk_faces_upto(
                    *world,
                    *chunk,
                    chunk_position,
                    y as int * 256 + x as int * 16,
                ),
            decreases 16 - x,
        {
            let mut z: usize = 0;
            while z < 16
                invariant
                    z <= 16,
                    x < 16,
                    y < 256,
                    r@ == spec_chunk_faces_upto(
                        *world,
                        *chunk,
                        chunk_position,
                        y as int * 256 + x as int * 16 + z as int,
                    ),
                decreases 16 - z,
            {
                let block_type_id = chunk.get_block(x, y, z);
                proof {
                    lemma_linear_index_decode(x as int, y as int, z as int);
                    assert(chunk.blocks@[y as int * 256 + x as int * 16 + z as int]
                        < world.block_registry@.len());
                }
                let mut faces = check_visible_faces_for_block(
                    block_type_id,
                    world,
                    chunk,
                    chunk_position,
                    (x as u32, y as u32, z as u32),
                );
                r.append(&mut faces);
                z = z + 1;
            }
            x = x + 1;
        }
        y = y + 1;
    }
    r
}

/// Every loaded position's coordinates stay clear of the extreme values, so
/// that a neighboring chunk position can always be formed.
pub open spec fn positions_in_bounds(w: World) -> bool {
    forall|i: int|
        0 <= i < w.loaded@.len() ==> {
            let p = #[trigger] w.loaded@[i];
            i32::MIN < p.x < i32::MAX && i32::MIN < p.z < i32::MAX
        }
}

/// The visible faces of every loaded chunk of the world, one entry per
/// chunk, keyed by the chunk position's key.
pub fn cull_faces(world: &World) -> (r: HashMap<u64, Vec<VisibleFace>>)
    requires
        world.wf(),
        positions_in_bounds(*world),
    ensures
        forall|k: u64| #[trigger]
            r@.contains_key(k) <==> world.chunks@.contains_key(k),
        forall|i: int|
            0 <= i < world.loaded@.len() ==> {
                let k = #[trigger] world.loaded_key(i);
                &&& r@.contains_key(k)
                &&& r@[k]@ == spec_chunk_faces(*world, world.chunks@[k], world.loaded@[i])
            },
{
    let mut r: HashMap<u64, Vec<VisibleFace>> = HashMap::new();
    let n = world.loaded.len();
    let mut i: usize = 0;
    proof {
        assert(r@ =~= Map::<u64, Vec<VisibleFace>>::empty());
    }
    while i < n
        invariant
            i <= n,
            n == world.loaded@.len(),
            world.wf(),
            positions_in_bounds(*world),
            forall|k: u64| #[trigger]
                r@.contains_key(k) <==> exists|j: int|
                    0 <= j < i && world.loaded_key(j) == k,
            forall|j: int|
                0 <= j < i ==> {
                    let k = #[trigger] world.loaded_key(j);
                    &&& r@.contains_key(k)
                    &&& r@[k]@ == spec_chunk_faces(*world, world.chunks@[k], world.loaded@[j])
                },
        decreases n - i,
    {
        let position = world.loaded[i];
        proof {
            assert(world.chunks@.contains_key(world.loaded_key(i as int)));
        }
        match world.get_chunk(&position) {
            Some(chunk) => {
                let faces = cull_faces_for_chunk(world, chunk, position);
                let k = position.key();
                r.insert(k, faces);
                proof {
                    assert forall|j: int| 0 <= j < i + 1 implies {
                        let kj = #[trigger] world.loaded_key(j);
                        &&& r@.contains_key(kj)
                        &&& r@[kj]@ == spec_chunk_faces(
                            *world,
                            world.chunks@[kj],
                            world.loaded@[j],
                        )
                    } by {
                        if j < i {
                            assert(world.loaded_key(j) != world.loaded_key(i as int));
                        }
                    }
                }
            },
            None => {
                proof {
                    assert(false);
                }
            },
        }
        i = i + 1;
    }
    proof {
        assert forall|k: u64| #[trigger]
            r@.contains_key(k) <==> world.chunks@.contains_key(k) by {
            if r@.contains_key(k) {
                let j = choose|j: int| 0 <= j < n && world.loaded_key(j) == k;
                assert(world.chunks@.contains_key(world.loaded_key(j)));
            }
            if world.chunks@.contains_key(k) {
                let j = choose|j: int|
                    0 <= j < world.loaded@.len() && world.loaded_key(j) == k;
                assert(r@.contains_key(world.loaded_key(j)));
            }
        }
    }
    r
}

/// Whether `k` is the key of one of the listed positions.
pub open spec fn spec_listed_key(ps: Seq<ChunkPosition>, k: u64) -> bool {
    exists|i: int|
        0 <= i < ps.len() && spec_pos_key((#[trigger] ps[i]).x as int, ps[i].z as int) == k
}

/// Recomputes the visible faces of each listed chunk and overwrites its
/// entry in `visible_faces`; entries of other chunks stay as they were.
pub fn update_visible_faces(
    world: &World,
    visible_faces: &mut HashMap<u64, Vec<VisibleFace>>,
    chunk_positions: &Vec<ChunkPosition>,
)
    requires
        world.wf(),
        forall|i: int|
            0 <= i < chunk_positions@.len() ==> {
                let p = #[trigger] chunk_positions@[i];
                &&& world.chunks@.contains_key(spec_pos_key(p.x as int, p.z as int))
                &&& i32::MIN < p.x < i32::MAX
                &&& i32::MIN < p.z < i32::MAX
            },
    ensures
        forall|i: int|
            0 <= i < chunk_positions@.len() ==> {
                let p = #[trigger] chunk_positions@[i];
                let k = spec_pos_key(p.x as int, p.z as int);
                &&& final(visible_faces)@.contains_key(k)
                &&& final(visible_faces)@[k]@ == spec_chunk_faces(*world, world.chunks@[k], p)
            },
        forall|k: u64|
            #![trigger final(visible_faces)@.contains_key(k)]
            !spec_listed_key(chunk_positions@, k) ==> {
                &&& final(visible_faces)@.contains_key(k) == old(visible_faces)@.contains_key(k)
                &&& (old(visible_faces)@.contains_key(k) ==> final(visible_faces)@[k] == old(
                    visible_faces,
                )@[k])
            },
{
    let n = chunk_positions.len();
    let mut i: usize = 0;
    while i < n
        invariant
            i <= n,
            n == chunk_positions@.len(),
            world.wf(),
            forall|j: int|
                0 <= j < chunk_positions@.len() ==> {
                    let p = #[trigger] chunk_positions@[j];
                    &&& world.chunks@.contains_key(spec_pos_key(p.x as int, p.z as int))
                    &&& i32::MIN < p.x < i32::MAX
                    &&& i32::MIN < p.z < i32::MAX
                },
            forall|j: int|
                0 <= j < i ==> {
                    let p = #[trigger] chunk_positions@[j];
                    let k = spec_pos_key(p.x as int, p.z as int);
                    &&& visible_faces@.contains_key(k)
                    &&& visible_faces@[k]@ == spec_chunk_faces(*world, world.chunks@[k], p)
                },
            forall|k: u64|
                #![trigger visible_faces@.contains_key(k)]
                !spec_listed_key(chunk_positions@, k) ==> {
                    &&& visible_faces@.contains_key(k) == old(visible_faces)@.contains_key(k)
                    &&& (old(visible_faces)@.contains_key(k) ==> visible_faces@[k] == old(
                        visible_faces,
                    )@[k])
                },
        decreases n - i,
    {
        let position = chunk_positions[i];
        match world.get_chunk(&position) {
            Some(chunk) => {
                let faces = cull_faces_for_chunk(world, chunk, position);
                let k = position.key();
                visible_faces.insert(k, faces);
                proof {
                    assert forall|kk: u64|
                        #![trigger visible_faces@.contains_key(kk)]
                        !spec_listed_key(chunk_positions@, kk) implies {
                        &&& visible_faces@.contains_key(kk) == old(visible_faces)@.contains_key(kk)
                        &&& (old(visible_faces)@.contains_key(kk) ==> visible_faces@[kk] == old(
                            visible_faces,
                        )@[kk])
                    } by {
                        assert(spec_listed_key(chunk_positions@, k)) by {
                            assert(chunk_positions@[i as int] == position);
                        }
                        assert(kk != k);
                    }
                    assert forall|j: int| 0 <= j < i + 1 implies {
                        let p = #[trigger] chunk_positions@[j];
                        let kj = spec_pos_key(p.x as int, p.z as int);
                        &&& visible_faces@.contains_key(kj)
                        &&& visible_faces@[kj]@ == spec_chunk_faces(*world, world.chunks@[kj], p)
                    } by {
                        let p = chunk_positions@[j];
                        let kj = spec_pos_key(p.x as int, p.z as int);
                        if kj == k {
                            // the same key was just rewritten; both positions
                            // name the same chunk
                            crate::world::lemma_pos_key_injective(
                                p.x as int,
                                p.z as int,
                                position.x as int,
                                position.z as int,
                            );
                        }
                    }
                }
            },
            None => {
                proof {
                    assert(false);
                }
            },
        }
        i = i + 1;
    }
}

proof fn lemma_air_chunk_faces_upto_empty(w: World, c: Chunk, cp: ChunkPosition, n: int)
    requires
        0 <= n <= CHUNK_VOLUME,
        forall|j: int| 0 <= j < n ==> (#[trigger] c.blocks@[j]) == 0,
    ensures
        spec_chunk_faces_upto(w, c, cp, n) == Seq::<VisibleFace>::empty(),
    decreases n,
{
    if n > 0 {
        lemma_air_chunk_faces_upto_empty(w, c, cp, n - 1);
        assert(spec_chunk_faces_upto(w, c, cp, n) =~= Seq::<VisibleFace>::empty());
    }
}

/// A chunk holding nothing but air contributes no visible face at all.
pub proof fn lemma_air_chunk_no_faces(w: World, c: Chunk, cp: ChunkPosition)
    requires
        forall|j: int| 0 <= j < CHUNK_VOLUME ==> (#[trigger] c.blocks@[j]) == 0,
    ensures
        spec_chunk_faces(w, c, cp) == Seq::<VisibleFace>::empty(),
{
    lemma_air_chunk_faces_upto_empty(w, c, cp, CHUNK_VOLUME as int);
}

/// An opaque block strictly inside a chunk, all six neighbors opaque — the
/// interior of a large solid cuboid — contributes no visible face.
pub proof fn lemma_interior_block_hidden(
    w: World,
    c: Chunk,
    cp: ChunkPosition,
    x: int,
    y: int,
    z: int,
    id: int,
)
    requires
        0 < x < 15,
        0 < y < 255,
        0 < z < 15,
        !spec_transparent(w.block_registry@, id),
        !spec_transparent(w.block_registry@, c.spec_block(x, y + 1, z) as int),
        !spec_transparent(w.block_registry@, c.spec_block(x, y - 1, z) as int),
        !spec_transparent(w.block_registry@, c.spec_block(x, y, z - 1) as int),
        !spec_transparent(w.block_registry@, c.spec_block(x, y, z + 1) as int),
        !spec_transparent(w.block_registry@, c.spec_block(x + 1, y, z) as int),
        !spec_transparent(w.block_registry@, c.spec_block(x - 1, y, z) as int),
    ensures
        spec_block_faces(w, c, cp, x, y, z, id) == Seq::<VisibleFace>::empty(),
{
    assert(!spec_face_visible(w, c, cp, x, y, z, Direction::Up));
    assert(!spec_face_visible(w, c, cp, x, y, z, Direction::Down));
    assert(!spec_face_visible(w, c, cp, x, y, z, Direction::North));
    assert(!spec_face_visible(w, c, cp, x, y, z, Direction::South));
    assert(!spec_face_visible(w, c, cp, x, y, z, Direction::East));
    assert(!spec_face_visible(w, c, cp, x, y, z, Direction::West));
    assert(spec_block_faces(w, c, cp, x, y, z, id) =~= Seq::<VisibleFace>::empty());
}

/// A transparent non-air block contributes all six faces, whatever its
/// neighbors hold.
pub proof fn lemma_transparent_block_all_faces(
    w: World,
    c: Chunk,
    cp: ChunkPosition,
    x: int,
    y: int,
    z: int,
    id: int,
)
    requires
        id != 0,
        spec_transparent(w.block_registry@, id),
    ensures
        spec_block_faces(w, c, cp, x, y, z, id) == spec_all_faces(x, y, z, id),
        spec_block_faces(w, c, cp, x, y, z, id).len() == 6,
{
}

/// An air block contributes no face, whatever its surroundings hold.
pub proof fn lemma_air_block_no_faces(
    w: World,
    c: Chunk,
    cp: ChunkPosition,
    x: int,
    y: int,
    z: int,
)
    ensures
        spec_block_faces(w, c, cp, x, y, z, 0) == Seq::<VisibleFace>::empty(),
{
}

/// An opaque block at the world's ceiling always shows its Up face, and one
/// at the floor its Down face, whatever chunks are loaded around it.
pub proof fn lemma_world_boundary_faces_visible(
    w: World,
    c: Chunk,
    cp: ChunkPosition,
    x: int,
    y: int,
    z: int,
    id: int,
)
    requires
        !spec_transparent(w.block_registry@, id),
    ensures
        y == 255 ==> spec_block_faces(w, c, cp, x, y, z, id).contains(
            spec_face(x, y, z, Direction::Up, id),
        ),
        y == 0 ==> spec_block_faces(w, c, cp, x, y, z, id).contains(
            spec_face(x, y, z, Direction::Down, id),
        ),
{
    let whole = spec_block_faces(w, c, cp, x, y, z, id);
    if y == 255 {
        assert(spec_face_visible(w, c, cp, x, y, z, Direction::Up));
        assert(whole[0] == spec_face(x, y, z, Direction::Up, id));
    }
    if y == 0 {
        assert(spec_face_visible(w, c, cp, x, y, z, Direction::Down));
        let up = spec_face_seq(w, c, cp, x, y, z, id, Direction::Up);
        assert(whole[up.len() as int] == spec_face(x, y, z, Direction::Down, id));
    }
}

/// An opaque block on the chunk's western edge, air on its five in-chunk
/// sides and the western neighbor chunk not loaded, shows exactly the five
/// faces away from that edge: the unloaded neighbor occludes.
pub proof fn lemma_unloaded_neighbor_edge(
    w: World,
    c: Chunk,
    cp: ChunkPosition,
    y: int,
    z: int,
    id: int,
)
    requires
        0 < y < 255,
        0 < z < 15,
        !spec_transparent(w.block_registry@, id),
        !w.chunks@.contains_key(spec_pos_key(cp.x - 1, cp.z as int)),
        spec_transparent(w.block_registry@, c.spec_block(0, y + 1, z) as int),
        spec_transparent(w.block_registry@, c.spec_block(0, y - 1, z) as int),
        spec_transparent(w.block_registry@, c.spec_block(0, y, z - 1) as int),
        spec_transparent(w.block_registry@, c.spec_block(0, y, z + 1) as int),
        spec_transparent(w.block_registry@, c.spec_block(1, y, z) as int),
    ensures
        spec_block_faces(w, c, cp, 0, y, z, id) == seq![
            spec_face(0, y, z, Direction::Up, id),
            spec_face(0, y, z, Direction::Down, id),
            spec_face(0, y, z, Direction::North, id),
            spec_face(0, y, z, Direction::South, id),
            spec_face(0, y, z, Direction::East, id),
        ],
        spec_block_faces(w, c, cp, 0, y, z, id).len() == 5,
        !spec_block_faces(w, c, cp, 0, y, z, id).contains(
            spec_face(0, y, z, Direction::West, id),
        ),
{
    assert(spec_face_visible(w, c, cp, 0, y, z, Direction::Up));
    assert(spec_face_visible(w, c, cp, 0, y, z, Direction::Down));
    assert(spec_face_visible(w, c, cp, 0, y, z, Direction::North));
    assert(spec_face_visible(w, c, cp, 0, y, z, Direction::South));
    assert(spec_face_visible(w, c, cp, 0, y, z, Direction::East));
    assert(!spec_face_visible(w, c, cp, 0, y, z, Direction::West));
    let five = seq![
        spec_face(0, y, z, Direction::Up, id),
        spec_face(0, y, z, Direction::Down, id),
        spec_face(0, y, z, Direction::North, id),
        spec_face(0, y, z, Direction::South, id),
        spec_face(0, y, z, Direction::East, id),
    ];
    assert(spec_block_faces(w, c, cp, 0, y, z, id) =~= five);
    if spec_block_faces(w, c, cp, 0, y, z, id).contains(spec_face(0, y, z, Direction::West, id)) {
        let j = choose|j: int|
            0 <= j < five.len() && five[j] == spec_face(0, y, z, Direction::West, id);
        assert(five[j].direction != Direction::West);
    }
}

/// Loading the western neighbor chunk, the edge face tracks the transparency
/// of the neighbor's block at the mirrored position: the block then shows
/// six faces when that block is see-through and five when it is not.
pub proof fn lemma_loaded_neighbor_edge(
    w: World,
    c: Chunk,
    cp: ChunkPosition,
    y: int,
    z: int,
    id: int,
)
    requires
        0 < y < 255,
        0 < z < 15,
        !spec_transparent(w.block_registry@, id),
        w.chunks@.contains_key(spec_pos_key(cp.x - 1, cp.z as int)),
        spec_transparent(w.block_registry@, c.spec_block(0, y + 1, z) as int),
        spec_transparent(w.block_registry@, c.spec_block(0, y - 1, z) as int),
        spec_transparent(w.block_registry@, c.spec_block(0, y, z - 1) as int),
        spec_transparent(w.block_registry@, c.spec_block(0, y, z + 1) as int),
        spec_transparent(w.block_registry@, c.spec_block(1, y, z) as int),
    ensures
        ({
            let neighbor = w.chunks@[spec_pos_key(cp.x - 1, cp.z as int)];
            let open = spec_transparent(w.block_registry@, neighbor.spec_block(15, y, z) as int);
            &&& spec_face_visible(w, c, cp, 0, y, z, Direction::West) == open
            &&& spec_block_faces(w, c, cp, 0, y, z, id).len() == (if open {
                6int
            } else {
                5int
            })
        }),
{
    assert(spec_face_visible(w, c, cp, 0, y, z, Direction::Up));
    assert(spec_face_visible(w, c, cp, 0, y, z, Direction::Down));
    assert(spec_face_visible(w, c, cp, 0, y, z, Direction::North));
    assert(spec_face_visible(w, c, cp, 0, y, z, Direction::South));
    assert(spec_face_visible(w, c, cp, 0, y, z, Direction::East));
    let o = Direction::West.offset();
    assert((-1int + 16) % 16 == 15);
    assert((z + 16) % 16 == z);
}

} // verus!

