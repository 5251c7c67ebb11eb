use vstd::prelude::*;

verus! {

/// What kind of block occupies a cell.
#[derive(Clone, Copy, Debug, PartialEq, Eq, Structural)]
pub enum BlockType {
    // special blocks
    /// No block.
    Air,
    /// An unbreakable block.
    Bedrock,
    /// Stands for cells outside any existing chunk.
    Void,
    // environment
    Grass,
    Dirt,
    Sand,
    Stone,
    Cobblestone,
}

/// The numeric id under which a block kind is saved: special blocks take
/// 0-20, food 21-100, building blocks 101-300 and environment blocks 301-1000.
pub open spec fn block_id(t: BlockType) -> u16 {
    match t {
        BlockType::Air => 0,
        BlockType::Bedrock => 1,
        BlockType::Void => 2,
        BlockType::Grass => 301,
        BlockType::Dirt => 302,
        BlockType::Sand => 320,
        BlockType::Stone => 400,
        BlockType::Cobblestone => 401,
    }
}

/// The ids that name a block kind.
pub open spec fn is_block_id(id: u16) -> bool {
    id == 0 || id == 1 || id == 2 || id == 301 || id == 302 || id == 320 || id == 400 || id
        == 401
}

/// The colour of a block kind as red, green, blue and alpha bytes.
pub open spec fn block_colour_bytes(t: BlockType) -> (u8, u8, u8, u8) {
    match t {
        BlockType::Air => (175, 250, 250, 50),
        BlockType::Bedrock => (50, 50, 50, 255),
        BlockType::Void => (0, 0, 0, 0),
        BlockType::Grass => (75, 150, 50, 255),
        BlockType::Dirt => (75, 50, 0, 255),
        BlockType::Sand => (200, 200, 50, 255),
        BlockType::Stone => (100, 100, 100, 255),
        BlockType::Cobblestone => (150, 150, 150, 255),
    }
}

impl BlockType {
    /// Whether blocks of this kind move (and so need their geometry recomputed).
    pub fn is_dynamic(&self) -> (r: bool)
        ensures
            r <==> *self == BlockType::Sand,
    {
        match self {
            BlockType::Air => false,
            BlockType::Bedrock => false,
            BlockType::Void => false,
            BlockType::Grass => false,
            BlockType::Dirt => false,
            BlockType::Sand => true,
            BlockType::Stone => false,
            BlockType::Cobblestone => false,
        }
    }

    /// The same question as `is_dynamic`, under its older name.
    pub fn IsDynamic(&self) -> (r: bool)
        ensures
            r <==> *self == BlockType::Sand,
    {
        self.is_dynamic()
    }

    /// Whether one can see through blocks of this kind; a wall of a chunk
    /// that touches void is not drawn, so void counts as opaque.
    pub fn is_transparent(&self) -> (r: bool)
        ensures
            r <==> *self == BlockType::Air,
    {
        match self {
            BlockType::Air => true,
            BlockType::Bedrock => false,
            BlockType::Void => false,
            BlockType::Grass => false,
            BlockType::Dirt => false,
            BlockType::Sand => false,
            BlockType::Stone => false,
            BlockType::Cobblestone => false,
        }
    }

    /// The colour of this kind of block, one byte per channel; the renderer
    /// divides each by 255.
    pub fn colour_bytes(&self) -> (r: (u8, u8, u8, u8))
        ensures
            r == block_colour_bytes(*self),
    {
        match self {
            BlockType::Air => (175, 250, 250, 50),
            BlockType::Bedrock => (50, 50, 50, 255),
            BlockType::Void => (0, 0, 0, 0),
            BlockType::Grass => (75, 150, 50, 255),
            BlockType::Dirt => (75, 50, 0, 255),
            BlockType::Sand => (200, 200, 50, 255),
            BlockType::Stone => (100, 100, 100, 255),
            BlockType::Cobblestone => (150, 150, 150, 255),
        }
    }

    /// The id this kind is saved under.
    pub fn to_int(&self) -> (r: u16)
        ensures
            r == block_id(*self),
    {
        match self {
            BlockType::Air => 0,
            BlockType::Bedrock => 1,
            BlockType::Void => 2,
            BlockType::Grass => 301,
            BlockType::Dirt => 302,
            BlockType::Sand => 320,
            BlockType::Stone => 400,
            BlockType::Cobblestone => 401,
        }
    }

    /// The kind saved under `id`; an id that names no kind is not accepted.
    pub fn from_int(id: u16) -> (r: Self)
        requires
            is_block_id(id),
        ensures
            block_id(r) == id,
    {
        match id {
            0 => BlockType::Air,
            1 => BlockType::Bedrock,
            2 => BlockType::Void,
            301 => BlockType::Grass,
            302 => BlockType::Dirt,
            320 => BlockType::Sand,
            400 => BlockType::Stone,
            _ => BlockType::Cobblestone,
        }
    }
}

/// The kind saved under `id`, or `None` when `id` names no kind.
pub fn block_type_for_id(id: u16) -> (r: Option<BlockType>)
    ensures
        r is Some <==> is_block_id(id),
        r matches Some(t) ==> block_id(t) == id,
{
    if id == 0 || id == 1 || id == 2 || id == 301 || id == 302 || id == 320 || id == 400 || id
        == 401 {
        Some(BlockType::from_int(id))
    } else {
        None
    }
}

/// Saving a kind under its id and reading the id back gives the same kind:
/// every kind has a valid id and no two kinds share one.
pub proof fn block_id_round_trip(t: BlockType, u: BlockType)
    ensures
        is_block_id(block_id(t)),
        block_id(t) == block_id(u) ==> t == u,
{
}

/// The kind saved under `id`, for an id that names a kind.
pub open spec fn kind_of_id(id: u16) -> BlockType {
    if id == 0 {
        BlockType::Air
    } else if id == 1 {
        BlockType::Bedrock
    } else if id == 2 {
        BlockType::Void
    } else if id == 301 {
        BlockType::Grass
    } else if id == 302 {
        BlockType::Dirt
    } else if id == 320 {
        BlockType::Sand
    } else if id == 400 {
        BlockType::Stone
    } else {
        BlockType::Cobblestone
    }
}

/// A kind is the kind saved under its id.
pub proof fn kind_of_block_id(t: BlockType)
    ensures
        kind_of_id(block_id(t)) == t,
{
}

} // verus!
