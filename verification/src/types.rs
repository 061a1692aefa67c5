//! Block-level data model: directions, block types, and the block registry.

use vstd::prelude::*;

verus! {

/// Identifier of a block type; `0` is reserved for air.
pub type BlockTypeId = usize;

/// Index into the texture table kept by the rendering layer.
pub type TextureId = usize;

/// One of the six axis-aligned faces of a block.
#[derive(Debug, Clone, Copy, PartialEq, Eq, Hash, Structural)]
pub enum Direction {
    Up,
    Down,
    North,
    South,
    East,
    West,
}

impl Direction {
    /// The unit offset of this direction as `(x, y, z)` deltas.
    pub open spec fn offset(self) -> (int, int, int) {
        match self {
            Direction::Up => (0, 1, 0),
            Direction::Down => (0, -1, 0),
            Direction::North => (0, 0, -1),
            Direction::South => (0, 0, 1),
            Direction::East => (1, 0, 0),
            Direction::West => (-1, 0, 0),
        }
    }

    pub fn to_offset(&self) -> (r: (i32, i32, i32))
        ensures
            r.0 == self.offset().0,
            r.1 == self.offset().1,
            r.2 == self.offset().2,
    {
        match self {
            Direction::Up => (0, 1, 0),
            Direction::Down => (0, -1, 0),
            Direction::North => (0, 0, -1),
            Direction::South => (0, 0, 1),
            Direction::East => (1, 0, 0),
            Direction::West => (-1, 0, 0),
        }
    }
}

/// Per-direction texture assignment of a block type. A direction without an
/// assignment (air has none) carries `None`.
#[derive(Debug, Clone)]
pub struct BlockTextures {
    pub up: Option<TextureId>,
    pub down: Option<TextureId>,
    pub north: Option<TextureId>,
    pub south: Option<TextureId>,
    pub east: Option<TextureId>,
    pub west: Option<TextureId>,
}

impl BlockTextures {
    /// The texture assigned to the face pointing in `d`.
    pub open spec fn for_direction(self, d: Direction) -> Option<TextureId> {
        match d {
            Direction::Up => self.up,
            Direction::Down => self.down,
            Direction::North => self.north,
            Direction::South => self.south,
            Direction::East => self.east,
            Direction::West => self.west,
        }
    }

    /// The same texture on all six faces.
    pub fn uniform(texture_id: TextureId) -> (r: Self)
        ensures
            forall|d: Direction| r.for_direction(d) == Some(texture_id),
    {
        BlockTextures {
            up: Some(texture_id),
            down: Some(texture_id),
            north: Some(texture_id),
            south: Some(texture_id),
            east: Some(texture_id),
            west: Some(texture_id),
        }
    }
}

impl Default for BlockTextures {
    /// No face carries a texture.
    fn default() -> (r: Self)
        ensures
            forall|d: Direction| r.for_direction(d) is None,
    {
        BlockTextures { up: None, down: None, north: None, south: None, east: None, west: None }
    }
}

/// Immutable description of one block type.
#[derive(Debug, Clone)]
pub struct BlockType {
    pub name: String,
    pub textures: BlockTextures,
    pub transparent: bool,
}

#[verifier::external_type_specification]
#[verifier::external_body]
#[verifier::reject_recursive_types(K)]
#[verifier::reject_recursive_types(V)]
#[verifier::reject_recursive_types(S)]
pub struct ExIndexMap<K, V, S>(indexmap::IndexMap<K, V, S>);

/// The entries of a block-type table, in insertion order: pairs of key
/// (the block's name) and block type.
pub uninterp spec fn block_table(
    m: indexmap::IndexMap<String, BlockType, std::collections::hash_map::RandomState>,
) -> Seq<(Seq<char>, BlockType)>;

/// Whether some entry of `t` carries the key `name`.
pub open spec fn table_contains_name(t: Seq<(Seq<char>, BlockType)>, name: Seq<char>) -> bool {
    exists|i: int| 0 <= i < t.len() && t[i].0 == name
}

/// The position of the entry of `t` that carries the key `name`.
pub open spec fn table_index_of(t: Seq<(Seq<char>, BlockType)>, name: Seq<char>) -> int {
    choose|i: int| 0 <= i < t.len() && t[i].0 == name
}

/// Relies on indexmap::IndexMap::new: creates an empty map.
#[verifier::external_body]
fn block_map_new() -> (m: indexmap::IndexMap<String, BlockType>)
    ensures
        block_table(m) == Seq::<(Seq<char>, BlockType)>::empty(),
{
    indexmap::IndexMap::new()
}

/// Relies on indexmap::IndexMap::len: the number of entries.
#[verifier::external_body]
fn block_map_len(m: &indexmap::IndexMap<String, BlockType>) -> (n: usize)
    ensures
        n == block_table(*m).len(),
{
    m.len()
}

/// Relies on indexmap::IndexMap::insert: a key not yet present is appended
/// last in order and `None` comes back; a present key keeps its place and its
/// key, its value is replaced, and the old value comes back.
#[verifier::external_body]
fn block_map_insert(
    m: &mut indexmap::IndexMap<String, BlockType>,
    name: String,
    block_type: BlockType,
) -> (prev: Option<BlockType>)
    ensures
        ({
            let t0 = block_table(*old(m));
            let t1 = block_table(*final(m));
            if table_contains_name(t0, name@) {
                let i = table_index_of(t0, name@);
                t1 == t0.update(i, (t0[i].0, block_type)) && prev == Some(t0[i].1)
            } else {
                t1 == t0.push((name@, block_type)) && prev == Option::<BlockType>::None
            }
        }),
{
    m.insert(name, block_type)
}

/// Relies on indexmap::IndexMap::get_index: the entry at a position in
/// insertion order, or `None` past the end.
#[verifier::external_body]
fn block_map_get_index(m: &indexmap::IndexMap<String, BlockType>, index: usize) -> (r: Option<
    &BlockType,
>)
    ensures
        match r {
            Some(block_type) => index < block_table(*m).len() && *block_type == block_table(
                *m,
            )[index as int].1,
            None => index >= block_table(*m).len(),
        },
{
    m.get_index(index).map(|(_, v)| v)
}

/// Insertion-ordered table of block types, keyed by name. The entry at
/// position `0` is always air, and air is always transparent.
#[derive(Debug)]
pub struct BlockRegistry {
    block_types: indexmap::IndexMap<String, BlockType>,
}

impl View for BlockRegistry {
    type V = Seq<(Seq<char>, BlockType)>;

    closed spec fn view(&self) -> Seq<(Seq<char>, BlockType)> {
        block_table(self.block_types)
    }
}

/// Whether the block type `id` is see-through. Air (`0`) is always
/// transparent, whatever the registry holds.
pub open spec fn spec_transparent(reg: Seq<(Seq<char>, BlockType)>, id: int) -> bool {
    id == 0 || reg[id].1.transparent
}

impl BlockRegistry {
    /// Well-formed: at least the air entry, air transparent, names unique.
    pub open spec fn wf(&self) -> bool {
        &&& self@.len() >= 1
        &&& self@[0].1.transparent
        &&& forall|i: int, j: int|
            0 <= i < j < self@.len() ==> self@[i].0 != self@[j].0
    }

    /// A registry of the three built-in block types: air, stone and grass,
    /// with stone and grass opaque and textured uniformly.
    pub fn new() -> (r: Self)
        ensures
            r.wf(),
            r@.len() == 3,
            r@[0].0 == "air"@ && r@[0].1.transparent,
            r@[1].0 == "stone"@ && !r@[1].1.transparent,
            r@[2].0 == "grass"@ && !r@[2].1.transparent,
    {
        let mut block_types = block_map_new();
        proof {
            reveal_strlit("air");
            reveal_strlit("stone");
            reveal_strlit("grass");
        }
        block_map_insert(
            &mut block_types,
            "air".to_owned(),
            BlockType {
                name: "air".to_owned(),
                transparent: true,
                textures: BlockTextures::default(),
            },
        );
        block_map_insert(
            &mut block_types,
            "stone".to_owned(),
            BlockType {
                name: "stone".to_owned(),
                transparent: false,
                textures: BlockTextures::uniform(0),
            },
        );
        // "stone" and "grass" are the same length; point at a differing
        // character so the solver sees the two names apart.
        assert(("stone"@)[0] != ("grass"@)[0]);
        block_map_insert(
            &mut block_types,
            "grass".to_owned(),
            BlockType {
                name: "grass".to_owned(),
                transparent: false,
                textures: BlockTextures::uniform(1),
            },
        );
        BlockRegistry { block_types }
    }

    /// The number of registered block types.
    pub fn len(&self) -> (n: usize)
        ensures
            n == self@.len(),
    {
        block_map_len(&self.block_types)
    }

    /// The block type registered at position `id`, if any.
    pub fn block_type_at(&self, id: BlockTypeId) -> (r: Option<&BlockType>)
        ensures
            match r {
                Some(block_type) => id < self@.len() && *block_type == self@[id as int].1,
                None => id >= self@.len(),
            },
    {
        block_map_get_index(&self.block_types, id)
    }

    /// Registers one more block type under its name, behind every type
    /// registered so far.
    pub fn register(&mut self, block_type: BlockType)
        requires
            old(self).wf(),
            !table_contains_name(old(self)@, block_type.name@),
        ensures
            final(self).wf(),
            final(self)@ == old(self)@.push((block_type.name@, block_type)),
    {
        let ghost t0 = self@;
        let name = block_type.name.clone();
        proof {
            assert(name@ == block_type.name@);
        }
        block_map_insert(&mut self.block_types, name, block_type);
    }

    /// Whether blocks of type `id` let the face behind them be seen.
    pub fn is_block_transparent(&self, block_type_id: BlockTypeId) -> (r: bool)
        requires
            self.wf(),
            block_type_id < self@.len(),
        ensures
            r == spec_transparent(self@, block_type_id as int),
    {
        if block_type_id == 0 {
            true
        } else {
            match self.block_type_at(block_type_id) {
                Some(block_type) => block_type.transparent,
                None => false,  // unreachable: the id is within the table
            }
        }
    }
}

impl Default for BlockRegistry {
    /// A registry holding only the air entry.
    fn default() -> (r: Self)
        ensures
            r.wf(),
            r@.len() == 1,
            r@[0].0 == "air"@ && r@[0].1.transparent,
    {
        let mut block_types = block_map_new();
        block_map_insert(
            &mut block_types,
            "air".to_owned(),
            BlockType {
                name: "air".to_owned(),
                transparent: true,
                textures: BlockTextures::default(),
            },
        );
        BlockRegistry { block_types }
    }
}

} // verus!
