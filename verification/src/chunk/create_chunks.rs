//! The rules for creating the terrain of a chunk that has never been
//! created before.
use vstd::prelude::*;
use crate::block::Block;
use crate::block_type::BlockType;
use crate::chunk::chunk_functions::cell;

verus! {

/// Two grids of blocks with the same dimensions at every level.
pub open spec fn same_shape(a: Seq<Vec<Vec<Block>>>, b: Seq<Vec<Vec<Block>>>) -> bool {
    &&& a.len() == b.len()
    &&& forall|x: int| 0 <= x < a.len() ==> #[trigger] a[x]@.len() == b[x]@.len()
    &&& forall|x: int, y: int|
        0 <= x < a.len() && 0 <= y < a[x]@.len() ==> #[trigger] a[x]@[y]@.len() == b[x]@[y]@.len()
}

/// A grid that has at least `sx` columns, `height` layers in each of them,
/// and `sz` cells in each of those layers.
pub open spec fn grid_covers(grid: Seq<Vec<Vec<Block>>>, sx: int, height: int, sz: int) -> bool {
    &&& grid.len() >= sx
    &&& forall|x: int| 0 <= x < sx ==> #[trigger] grid[x]@.len() >= height
    &&& forall|x: int, y: int| 0 <= x < sx && 0 <= y < height ==> #[trigger] grid[x]@[y]@.len() >= sz
}

/// The kind of block that a newly created chunk has in layer `y`, for
/// `0 <= y < half_chunk_y`: bedrock at the bottom, stone up to three layers
/// below the halfway layer, then two layers of dirt, then one of grass.
/// Each rule overwrites the ones before it, so with `half_chunk_y == 3` the
/// bottom layer is dirt.
pub open spec fn generated_layer_type(y: int, half_chunk_y: int) -> BlockType {
    if y == half_chunk_y - 1 {
        BlockType::Grass
    } else if half_chunk_y - 3 <= y < half_chunk_y - 1 {
        BlockType::Dirt
    } else if 1 <= y < half_chunk_y - 3 {
        BlockType::Stone
    } else {
        BlockType::Bedrock
    }
}

/// The layers of new terrain, whatever their height: the bottom layer is
/// bedrock (when there is room for more than dirt and grass), the layers
/// above it up to three below the halfway layer are stone, then come two
/// layers of dirt and the layer below the halfway layer is grass.
pub proof fn terrain_layers(y: int, half_chunk_y: int)
    requires
        half_chunk_y >= 3,
        0 <= y < half_chunk_y,
    ensures
        y == 0 && half_chunk_y > 3 ==> generated_layer_type(y, half_chunk_y) == BlockType::Bedrock,
        1 <= y < half_chunk_y - 3 ==> generated_layer_type(y, half_chunk_y) == BlockType::Stone,
        half_chunk_y - 3 <= y < half_chunk_y - 1 ==> generated_layer_type(y, half_chunk_y) == BlockType::Dirt,
        y == half_chunk_y - 1 ==> generated_layer_type(y, half_chunk_y) == BlockType::Grass,
{
}

/// `b` with its kind replaced by `t`.
pub open spec fn with_type(b: Block, t: BlockType) -> Block {
    Block { block_type: t, position: b.position, touching_air: b.touching_air }
}

/// The cell `[x][y][z]` of grid `g` after terrain generation.
pub open spec fn generated_cell(
    g: Seq<Vec<Vec<Block>>>,
    chunk_sizes: (usize, usize, usize),
    half_chunk_y: usize,
    x: int,
    y: int,
    z: int,
) -> Block {
    if x < chunk_sizes.0 && y < half_chunk_y && z < chunk_sizes.2 {
        with_type(cell(g, x, y, z), generated_layer_type(y, half_chunk_y as int))
    } else {
        cell(g, x, y, z)
    }
}

/// Creates the terrain of a new chunk in its temporary grid: for every
/// column `x < chunk_sizes.0` and row `z < chunk_sizes.2`, layer 0 becomes
/// bedrock, layers `1 .. half_chunk_y - 3` stone, layers
/// `half_chunk_y - 3 .. half_chunk_y - 1` dirt and layer `half_chunk_y - 1`
/// grass. Everything else in the grid, and the positions and flags of the
/// changed blocks, stay as they were.
pub fn generate_chunk(
    temp_chunk_vec: &mut Vec<Vec<Vec<Block>>>,
    chunk_sizes: (usize, usize, usize),
    half_chunk_y: usize,
)
    requires
        half_chunk_y >= 3,
        grid_covers(old(temp_chunk_vec)@, chunk_sizes.0 as int, half_chunk_y as int, chunk_sizes.2 as int),
    ensures
        same_shape(final(temp_chunk_vec)@, old(temp_chunk_vec)@),
        forall|x: int, y: int, z: int|
            0 <= x < old(temp_chunk_vec)@.len() && 0 <= y < old(temp_chunk_vec)@[x]@.len() && 0 <= z
                < old(temp_chunk_vec)@[x]@[y]@.len() ==> #[trigger] cell(final(temp_chunk_vec)@, x, y, z)
                == generated_cell(old(temp_chunk_vec)@, chunk_sizes, half_chunk_y, x, y, z),
        forall|x: int, y: int, z: int|
            0 <= x < chunk_sizes.0 && 0 <= y < half_chunk_y && 0 <= z < chunk_sizes.2 ==> {
                let t = (#[trigger] cell(final(temp_chunk_vec)@, x, y, z)).block_type;
                &&& (y == 0 && half_chunk_y > 3 ==> t == BlockType::Bedrock)
                &&& (1 <= y < half_chunk_y - 3 ==> t == BlockType::Stone)
                &&& (half_chunk_y - 3 <= y < half_chunk_y - 1 ==> t == BlockType::Dirt)
                &&& (y == half_chunk_y - 1 ==> t == BlockType::Grass)
            },
{
    let ghost g0 = temp_chunk_vec@;
    let mut x: usize = 0;
    while x < chunk_sizes.0
        invariant
            half_chunk_y >= 3,
            grid_covers(g0, chunk_sizes.0 as int, half_chunk_y as int, chunk_sizes.2 as int),
            x <= chunk_sizes.0,
            same_shape(temp_chunk_vec@, g0),
            forall|i: int, j: int, k: int|
                0 <= i < g0.len() && 0 <= j < g0[i]@.len() && 0 <= k < g0[i]@[j]@.len()
                    ==> #[trigger] cell(temp_chunk_vec@, i, j, k) == (if i < x {
                    generated_cell(g0, chunk_sizes, half_chunk_y, i, j, k)
                } else {
                    cell(g0, i, j, k)
                }),
        decreases chunk_sizes.0 - x,
    {
        let mut y: usize = 0;
        while y < half_chunk_y
            invariant
                half_chunk_y >= 3,
                grid_covers(g0, chunk_sizes.0 as int, half_chunk_y as int, chunk_sizes.2 as int),
                x < chunk_sizes.0,
                y <= half_chunk_y,
                same_shape(temp_chunk_vec@, g0),
                forall|i: int, j: int, k: int|
                    0 <= i < g0.len() && 0 <= j < g0[i]@.len() && 0 <= k < g0[i]@[j]@.len()
                        ==> #[trigger] cell(temp_chunk_vec@, i, j, k) == (if i < x || (i == x && j
                        < y) {
                        generated_cell(g0, chunk_sizes, half_chunk_y, i, j, k)
                    } else {
                        cell(g0, i, j, k)
                    }),
            decreases half_chunk_y - y,
        {
            let t: BlockType = if y == half_chunk_y - 1 {
                BlockType::Grass
            } else if half_chunk_y - 3 <= y && y < half_chunk_y - 1 {
                BlockType::Dirt
            } else if 1 <= y && y < half_chunk_y - 3 {
                BlockType::Stone
            } else {
                BlockType::Bedrock
            };
            let mut z: usize = 0;
            while z < chunk_sizes.2
                invariant
                    half_chunk_y >= 3,
                    grid_covers(g0, chunk_sizes.0 as int, half_chunk_y as int, chunk_sizes.2 as int),
                    x < chunk_sizes.0,
                    y < half_chunk_y,
                    z <= chunk_sizes.2,
                    t == generated_layer_type(y as int, half_chunk_y as int),
                    same_shape(temp_chunk_vec@, g0),
                    forall|i: int, j: int, k: int|
                        0 <= i < g0.len() && 0 <= j < g0[i]@.len() && 0 <= k < g0[i]@[j]@.len()
                            ==> #[trigger] cell(temp_chunk_vec@, i, j, k) == (if i < x || (i == x
                            && j < y) || (i == x && j == y && k < z) {
                            generated_cell(g0, chunk_sizes, half_chunk_y, i, j, k)
                        } else {
                            cell(g0, i, j, k)
                        }),
                decreases chunk_sizes.2 - z,
            {
                let ghost before = temp_chunk_vec@;
                temp_chunk_vec[x][y][z].block_type = t;
                assert forall|i: int, j: int, k: int|
                    0 <= i < g0.len() && 0 <= j < g0[i]@.len() && 0 <= k < g0[i]@[j]@.len()
                        implies #[trigger] cell(temp_chunk_vec@, i, j, k) == (if i < x || (i == x
                        && j < y) || (i == x && j == y && k <= z) {
                        generated_cell(g0, chunk_sizes, half_chunk_y, i, j, k)
                    } else {
                        cell(g0, i, j, k)
                    }) by {
                    assert(cell(before, i, j, k) == (if i < x || (i == x && j < y) || (i == x && j
                        == y && k < z) {
                        generated_cell(g0, chunk_sizes, half_chunk_y, i, j, k)
                    } else {
                        cell(g0, i, j, k)
                    }));
                }
                z = z + 1;
            }
            y = y + 1;
        }
        x = x + 1;
    }
}

} // verus!
