//! The text a chunk is saved in. Starting at cell (0, 0, 0), each line
//! holds the block ids of one row of increasing `x`, each followed by a
//! space; the next line is the next `z`; after the last row of a layer an
//! empty line follows and `y` increases.
use vstd::prelude::*;
use std::collections::HashMap;
use crate::block::Block;
use crate::block_type::{BlockType, block_id, is_block_id};
use crate::chunk::map_values;
use crate::chunk::chunk_functions::rem_euclid_i32;
use crate::chunk::chunk_gpu_functions::in_chunk;
use crate::chunk::chunk_functions::{grid_has_sizes, cell, chunk_positions_fit};
use crate::keys::{block_key, position_key, lemma_block_key_injective};
use crate::types::Position;
use vstd::utf8::valid_utf8;
use crate::text::{
    decimal, push_decimal, text_lines, line_words, spaces_normalized, normalize_spaces, is_utf8,
    lemma_ascii_text, parse_u16, split_lines, split_words,
    parse_u16_word, views, word_split, is_space, is_digit, newline_pieces, lemma_decimal,
    lemma_parse_u16_decimal, lemma_words_append_word, lemma_words_append_space, lemma_pieces_append,
    lemma_pieces_newline,
};

verus! {

broadcast use vstd::std_specs::hash::group_hash_axioms;

/// The block kind in cell `[x][y][z]` of a grid of kinds.
pub open spec fn kind_at(g: Seq<Vec<Vec<BlockType>>>, x: int, y: int, z: int) -> BlockType {
    g[x]@[y]@[z]
}

/// A grid of kinds indexed `[x][y][z]` with these dimensions.
pub open spec fn kinds_have_sizes(g: Seq<Vec<Vec<BlockType>>>, chunk_sizes: (usize, usize, usize)) -> bool {
    &&& g.len() == chunk_sizes.0
    &&& forall|x: int| 0 <= x < chunk_sizes.0 ==> #[trigger] g[x]@.len() == chunk_sizes.1
    &&& forall|x: int, y: int|
        0 <= x < chunk_sizes.0 && 0 <= y < chunk_sizes.1 ==> #[trigger] g[x]@[y]@.len()
            == chunk_sizes.2
}

/// The first `n` cells of row `(y, z)`: each block id and a space.
pub open spec fn row_text(g: Seq<Vec<Vec<BlockType>>>, y: int, z: int, n: int) -> Seq<u8>
    decreases n,
{
    if n <= 0 {
        Seq::empty()
    } else {
        row_text(g, y, z, n - 1) + decimal(block_id(kind_at(g, n - 1, y, z)) as nat) + seq![32u8]
    }
}

/// The first `m` rows of layer `y`, each on its own line.
pub open spec fn layer_text(g: Seq<Vec<Vec<BlockType>>>, chunk_sizes: (usize, usize, usize), y: int, m: int) -> Seq<u8>
    decreases m,
{
    if m <= 0 {
        Seq::empty()
    } else {
        layer_text(g, chunk_sizes, y, m - 1) + row_text(g, y, m - 1, chunk_sizes.0 as int) + seq![10u8]
    }
}

/// The first `k` layers, each followed by an empty line.
pub open spec fn layers_text(g: Seq<Vec<Vec<BlockType>>>, chunk_sizes: (usize, usize, usize), k: int) -> Seq<u8>
    decreases k,
{
    if k <= 0 {
        Seq::empty()
    } else {
        layers_text(g, chunk_sizes, k - 1) + layer_text(g, chunk_sizes, k - 1, chunk_sizes.2 as int)
            + seq![10u8]
    }
}

/// The saved text of a chunk whose cells hold the kinds of `g`.
pub open spec fn chunk_text(g: Seq<Vec<Vec<BlockType>>>, chunk_sizes: (usize, usize, usize)) -> Seq<u8> {
    layers_text(g, chunk_sizes, chunk_sizes.1 as int)
}

/// The cell of its chunk that a block lies in: its `x` and `z` taken
/// modulo the chunk's width and depth, and its `y` shifted up by half the
/// chunk's height.
pub open spec fn cell_of_block(b: Block, chunk_sizes: (usize, usize, usize)) -> (int, int, int) {
    (
        b.position.x as int % chunk_sizes.0 as int,
        b.position.y + chunk_sizes.1 as int / 2,
        b.position.z as int % chunk_sizes.2 as int,
    )
}

/// Dimensions for which blocks can be placed into cells: a positive width
/// and depth that fit `i32`, and a height that fits `i16`.
pub open spec fn placeable_sizes(chunk_sizes: (usize, usize, usize)) -> bool {
    &&& 1 <= chunk_sizes.0 <= i32::MAX
    &&& chunk_sizes.1 <= i16::MAX
    &&& 1 <= chunk_sizes.2 <= i32::MAX
}

/// Every block of the map lies within the chunk's height.
pub open spec fn blocks_within_height(m: Map<u128, Block>, chunk_sizes: (usize, usize, usize)) -> bool {
    forall|k: u128|
        m.dom().contains(k) ==> 0 <= #[trigger] m[k].position.y + chunk_sizes.1 as int / 2
            < chunk_sizes.1
}

/// What a grid of kinds built from the blocks of `m` holds in cell `c`:
/// air where no block lies, else the kind of one of the blocks that lie
/// there.
pub open spec fn placed_kind(m: Map<u128, Block>, chunk_sizes: (usize, usize, usize), c: (int, int, int), t: BlockType) -> bool {
    if exists|k: u128| m.dom().contains(k) && cell_of_block(m[k], chunk_sizes) == c {
        exists|k: u128| m.dom().contains(k) && cell_of_block(m[k], chunk_sizes) == c && #[trigger] m[k].block_type == t
    } else {
        t == BlockType::Air
    }
}

/// The grid of kinds of a chunk, from its map of blocks: each block's kind
/// in the cell it lies in, air elsewhere. When two blocks lie in one cell,
/// the one the map hands out last stays.
pub fn chunk_block_types(blocks: &HashMap<u128, Block>, chunk_sizes: (usize, usize, usize)) -> (kinds: Vec<Vec<Vec<BlockType>>>)
    requires
        placeable_sizes(chunk_sizes),
        blocks_within_height(blocks@, chunk_sizes),
    ensures
        kinds_have_sizes(kinds@, chunk_sizes),
        forall|x: int, y: int, z: int|
            in_chunk(chunk_sizes, x, y, z) ==> placed_kind(blocks@, chunk_sizes, (x, y, z), #[trigger] kind_at(kinds@, x, y, z)),
{
    let sx = chunk_sizes.0;
    let sy = chunk_sizes.1;
    let sz = chunk_sizes.2;
    let mut kinds: Vec<Vec<Vec<BlockType>>> = Vec::new();
    let mut x: usize = 0;
    while x < sx
        invariant
            sx == chunk_sizes.0,
            sy == chunk_sizes.1,
            sz == chunk_sizes.2,
            x <= sx,
            kinds@.len() == x,
            forall|i: int| 0 <= i < x ==> #[trigger] kinds@[i]@.len() == sy,
            forall|i: int, j: int| 0 <= i < x && 0 <= j < sy ==> #[trigger] kinds@[i]@[j]@.len() == sz,
            forall|i: int, j: int, k: int|
                0 <= i < x && 0 <= j < sy && 0 <= k < sz ==> #[trigger] kind_at(kinds@, i, j, k) == BlockType::Air,
        decreases sx - x,
    {
        let mut layer: Vec<Vec<BlockType>> = Vec::new();
        let mut y: usize = 0;
        while y < sy
            invariant
                sy == chunk_sizes.1,
                sz == chunk_sizes.2,
                y <= sy,
                layer@.len() == y,
                forall|j: int| 0 <= j < y ==> #[trigger] layer@[j]@.len() == sz,
                forall|j: int, k: int| 0 <= j < y && 0 <= k < sz ==> #[trigger] layer@[j]@[k] == BlockType::Air,
            decreases sy - y,
        {
            let mut row: Vec<BlockType> = Vec::new();
            let mut z: usize = 0;
            while z < sz
                invariant
                    sz == chunk_sizes.2,
                    z <= sz,
                    row@.len() == z,
                    forall|k: int| 0 <= k < z ==> #[trigger] row@[k] == BlockType::Air,
                decreases sz - z,
            {
                row.push(BlockType::Air);
                z = z + 1;
            }
            layer.push(row);
            y = y + 1;
        }
        let ghost before = kinds@;
        let ghost new_layer = layer@;
        kinds.push(layer);
        proof {
            assert forall|i: int, j: int, k: int|
                0 <= i < x + 1 && 0 <= j < sy && 0 <= k < sz implies #[trigger] kind_at(kinds@, i, j, k) == BlockType::Air by {
                if i < x {
                    assert(kinds@[i] == before[i]);
                    assert(kind_at(before, i, j, k) == BlockType::Air);
                } else {
                    assert(kinds@[i]@ == new_layer);
                    assert(new_layer[j]@[k] == BlockType::Air);
                }
            }
        }
        x = x + 1;
    }
    let list: Vec<Block> = map_values(blocks);
    let ghost ks: Seq<u128> = choose|ks: Seq<u128>| {
        &&& ks.no_duplicates()
        &&& ks.to_set() == blocks@.dom()
        &&& ks.len() == list@.len()
        &&& forall|i: int| 0 <= i < ks.len() ==> #[trigger] list@[i] == blocks@[ks[i]]
    };
    let half: i16 = sy as i16 / 2;
    let mut i: usize = 0;
    while i < list.len()
        invariant
            placeable_sizes(chunk_sizes),
            blocks_within_height(blocks@, chunk_sizes),
            sx == chunk_sizes.0,
            sy == chunk_sizes.1,
            sz == chunk_sizes.2,
            half == sy as int / 2,
            ks.no_duplicates(),
            ks.to_set() == blocks@.dom(),
            ks.len() == list@.len(),
            forall|j: int| 0 <= j < ks.len() ==> #[trigger] list@[j] == blocks@[ks[j]],
            i <= list@.len(),
            kinds_have_sizes(kinds@, chunk_sizes),
            forall|a: int, b: int, c: int|
                in_chunk(chunk_sizes, a, b, c) ==> if exists|j: int| 0 <= j < i && cell_of_block(#[trigger] list@[j], chunk_sizes) == (a, b, c) {
                    exists|j: int| 0 <= j < i && cell_of_block(list@[j], chunk_sizes) == (a, b, c) && #[trigger] list@[j].block_type == kind_at(kinds@, a, b, c)
                } else {
                    kind_at(kinds@, a, b, c) == BlockType::Air
                },
        decreases list@.len() - i,
    {
        let block: Block = list[i];
        proof {
            assert(ks.to_set().contains(ks[i as int]));
            assert(blocks@.dom().contains(ks[i as int]));
        }
        let rel_x: i32 = rem_euclid_i32(block.position.x, sx as i32);
        let rel_y: i16 = block.position.y + half;
        let rel_z: i32 = rem_euclid_i32(block.position.z, sz as i32);
        let ghost before = kinds@;
        kinds[rel_x as usize][rel_y as usize][rel_z as usize] = block.block_type;
        proof {
            let c0 = cell_of_block(block, chunk_sizes);
            assert(c0 == (rel_x as int, rel_y as int, rel_z as int));
            assert forall|a: int, b: int, c: int|
                in_chunk(chunk_sizes, a, b, c) implies if exists|j: int| 0 <= j < i + 1 && cell_of_block(#[trigger] list@[j], chunk_sizes) == (a, b, c) {
                    exists|j: int| 0 <= j < i + 1 && cell_of_block(list@[j], chunk_sizes) == (a, b, c) && #[trigger] list@[j].block_type == kind_at(kinds@, a, b, c)
                } else {
                    kind_at(kinds@, a, b, c) == BlockType::Air
                } by {
                if (a, b, c) == c0 {
                    assert(cell_of_block(list@[i as int], chunk_sizes) == (a, b, c));
                    assert(list@[i as int].block_type == kind_at(kinds@, a, b, c));
                } else {
                    assert(kind_at(kinds@, a, b, c) == kind_at(before, a, b, c));
                    if exists|j: int| 0 <= j < i + 1 && cell_of_block(#[trigger] list@[j], chunk_sizes) == (a, b, c) {
                        let j = choose|j: int| 0 <= j < i + 1 && cell_of_block(#[trigger] list@[j], chunk_sizes) == (a, b, c);
                        assert(j < i);
                        assert(exists|j: int| 0 <= j < i && cell_of_block(#[trigger] list@[j], chunk_sizes) == (a, b, c));
                    }
                }
            }
        }
        i = i + 1;
    }
    proof {
        assert forall|x: int, y: int, z: int|
            in_chunk(chunk_sizes, x, y, z) implies placed_kind(blocks@, chunk_sizes, (x, y, z), #[trigger] kind_at(kinds@, x, y, z)) by {
            let c = (x, y, z);
            if exists|k: u128| blocks@.dom().contains(k) && cell_of_block(blocks@[k], chunk_sizes) == c {
                let k = choose|k: u128| blocks@.dom().contains(k) && cell_of_block(blocks@[k], chunk_sizes) == c;
                assert(ks.to_set().contains(k));
                let j0 = choose|j: int| 0 <= j < ks.len() && ks[j] == k;
                assert(cell_of_block(list@[j0], chunk_sizes) == c);
                let j = choose|j: int| 0 <= j < i && cell_of_block(list@[j], chunk_sizes) == c && #[trigger] list@[j].block_type == kind_at(kinds@, x, y, z);
                assert(ks.to_set().contains(ks[j]));
                assert(blocks@[ks[j]].block_type == kind_at(kinds@, x, y, z));
            } else {
                if exists|j: int| 0 <= j < i && cell_of_block(#[trigger] list@[j], chunk_sizes) == c {
                    let j = choose|j: int| 0 <= j < i && cell_of_block(#[trigger] list@[j], chunk_sizes) == c;
                    assert(ks.to_set().contains(ks[j]));
                    assert(blocks@.dom().contains(ks[j]) && cell_of_block(blocks@[ks[j]], chunk_sizes) == c);
                }
            }
        }
    }
    kinds
}

/// Where a reader of a chunk's saved text stands after some lines: the
/// layer and row the next line goes to, whether the next line is skipped
/// (the empty line after a layer), whether the whole chunk was read, whether
/// the text was found malformed, and the block ids read so far by cell.
pub struct ChunkReadState {
    pub y: int,
    pub z: int,
    pub skip: bool,
    pub done: bool,
    pub failed: bool,
    pub cells: Map<(int, int, int), u16>,
}

/// The state before the first line.
pub open spec fn chunk_read_start() -> ChunkReadState {
    ChunkReadState { y: 0, z: 0, skip: false, done: false, failed: false, cells: Map::empty() }
}

/// Every word of a line reads as the id of a block kind, and there are no
/// more of them than cells in a row.
pub open spec fn row_words_valid(words: Seq<Seq<u8>>, chunk_sizes: (usize, usize, usize)) -> bool {
    &&& words.len() <= chunk_sizes.0
    &&& forall|i: int|
        0 <= i < words.len() ==> (#[trigger] parse_u16(words[i])) is Some && is_block_id(
            parse_u16(words[i])->Some_0,
        )
}

/// The cells after the words of a line are read into row `(y, z)`, the
/// `i`-th word into cell `x = i`.
pub open spec fn write_row(cells: Map<(int, int, int), u16>, words: Seq<Seq<u8>>, y: int, z: int) -> Map<(int, int, int), u16>
    decreases words.len(),
{
    if words.len() == 0 {
        cells
    } else {
        write_row(cells, words.drop_last(), y, z).insert(
            (words.len() - 1, y, z),
            parse_u16(words.last())->Some_0,
        )
    }
}

/// Reading one more line of a chunk's saved text. A line with words
/// fails the read unless every word is a block id, there are at most as
/// many as cells in a row, and the row it goes to lies in the chunk.
pub open spec fn chunk_read_step(st: ChunkReadState, line: Seq<u8>, chunk_sizes: (usize, usize, usize)) -> ChunkReadState {
    let words = line_words(spaces_normalized(line));
    if st.failed || st.done {
        st
    } else if !valid_utf8(line) {
        ChunkReadState { failed: true, ..st }
    } else if st.skip {
        ChunkReadState { skip: false, ..st }
    } else if words.len() > 0 && !(row_words_valid(words, chunk_sizes) && 0 <= st.y
        < chunk_sizes.1 && 0 <= st.z < chunk_sizes.2) {
        ChunkReadState { failed: true, ..st }
    } else if st.z + 1 == chunk_sizes.2 {
        ChunkReadState {
            y: st.y + 1,
            z: 0,
            skip: true,
            done: st.y + 1 == chunk_sizes.1,
            cells: write_row(st.cells, words, st.y, st.z),
            ..st
        }
    } else {
        ChunkReadState { z: st.z + 1, cells: write_row(st.cells, words, st.y, st.z), ..st }
    }
}

/// Reading the lines in order from `st`.
pub open spec fn chunk_read_from(st: ChunkReadState, lines: Seq<Seq<u8>>, chunk_sizes: (usize, usize, usize)) -> ChunkReadState
    decreases lines.len(),
{
    if lines.len() == 0 {
        st
    } else {
        chunk_read_step(chunk_read_from(st, lines.drop_last(), chunk_sizes), lines.last(), chunk_sizes)
    }
}

/// The result of reading a chunk's saved text.
pub open spec fn chunk_read(text: Seq<u8>, chunk_sizes: (usize, usize, usize)) -> ChunkReadState {
    chunk_read_from(chunk_read_start(), text_lines(text), chunk_sizes)
}

/// Every byte is ASCII.
pub open spec fn is_ascii_text(text: Seq<u8>) -> bool {
    forall|i: int| 0 <= i < text.len() ==> #[trigger] text[i] < 128
}

/// The block ids that a list of writes puts in each cell; a later write to
/// a cell replaces an earlier one.
pub open spec fn cells_of(writes: Seq<((usize, usize, usize), BlockType)>) -> Map<(int, int, int), u16>
    decreases writes.len(),
{
    if writes.len() == 0 {
        Map::empty()
    } else {
        let w = writes.last();
        cells_of(writes.drop_last()).insert((w.0.0 as int, w.0.1 as int, w.0.2 as int), block_id(w.1))
    }
}

/// Why a chunk's saved text could not be read.
#[derive(Clone, Copy, Debug, PartialEq, Eq, Structural)]
pub enum ChunkFileError {
    /// A word is not a block id, or a row holds too many words, or there
    /// are rows beyond the chunk.
    Malformed,
}

proof fn lemma_read_from_push(st: ChunkReadState, lines: Seq<Seq<u8>>, line: Seq<u8>, chunk_sizes: (usize, usize, usize))
    ensures
        chunk_read_from(st, lines.push(line), chunk_sizes) == chunk_read_step(chunk_read_from(st, lines, chunk_sizes), line, chunk_sizes),
{
    assert(lines.push(line).drop_last() =~= lines);
}

proof fn lemma_failed_stays(st: ChunkReadState, lines: Seq<Seq<u8>>, chunk_sizes: (usize, usize, usize))
    requires
        st.failed,
    ensures
        chunk_read_from(st, lines, chunk_sizes) == st,
    decreases lines.len(),
{
    if lines.len() > 0 {
        lemma_failed_stays(st, lines.drop_last(), chunk_sizes);
    }
}

proof fn lemma_read_from_append(st: ChunkReadState, a: Seq<Seq<u8>>, b: Seq<Seq<u8>>, chunk_sizes: (usize, usize, usize))
    ensures
        chunk_read_from(st, a + b, chunk_sizes) == chunk_read_from(chunk_read_from(st, a, chunk_sizes), b, chunk_sizes),
    decreases b.len(),
{
    if b.len() == 0 {
        assert(a + b =~= a);
    } else {
        lemma_read_from_append(st, a, b.drop_last(), chunk_sizes);
        assert((a + b).drop_last() =~= a + b.drop_last());
    }
}

/// Once the read fails, the rest of the text does not matter.
proof fn lemma_fails_from(ls: Seq<Seq<u8>>, i: int, chunk_sizes: (usize, usize, usize))
    requires
        0 <= i <= ls.len(),
        chunk_read_from(chunk_read_start(), ls.take(i), chunk_sizes).failed,
    ensures
        chunk_read_from(chunk_read_start(), ls, chunk_sizes).failed,
{
    lemma_read_from_append(chunk_read_start(), ls.take(i), ls.skip(i), chunk_sizes);
    assert(ls.take(i) + ls.skip(i) =~= ls);
    lemma_failed_stays(chunk_read_from(chunk_read_start(), ls.take(i), chunk_sizes), ls.skip(i), chunk_sizes);
}

proof fn lemma_cells_of_push(writes: Seq<((usize, usize, usize), BlockType)>, w: ((usize, usize, usize), BlockType))
    ensures
        cells_of(writes.push(w)) == cells_of(writes).insert((w.0.0 as int, w.0.1 as int, w.0.2 as int), block_id(w.1)),
{
    assert(writes.push(w).drop_last() =~= writes);
}

proof fn lemma_write_row_take(cells: Map<(int, int, int), u16>, words: Seq<Seq<u8>>, y: int, z: int, x: int)
    requires
        0 <= x < words.len(),
    ensures
        write_row(cells, words.take(x + 1), y, z) == write_row(cells, words.take(x), y, z).insert(
            (x, y, z),
            parse_u16(words[x])->Some_0,
        ),
{
    assert(words.take(x + 1).drop_last() =~= words.take(x));
}

/// Reads the saved text of a chunk: the cell writes it makes, in order.
/// Lines after the last layer are ignored; a line of a row that is too
/// long, a word that is not a block id, or a row beyond the chunk make the
/// text unreadable.
pub fn parse_chunk_text(text: &Vec<u8>, chunk_sizes: (usize, usize, usize)) -> (r: Result<Vec<((usize, usize, usize), BlockType)>, ChunkFileError>)
    ensures
        r is Ok <==> !chunk_read(text@, chunk_sizes).failed,
        r matches Ok(writes) ==> cells_of(writes@) == chunk_read(text@, chunk_sizes).cells,
        r matches Ok(writes) ==> forall|k: int|
            0 <= k < writes@.len() ==> in_chunk(
                chunk_sizes,
                (#[trigger] writes@[k]).0.0 as int,
                writes@[k].0.1 as int,
                writes@[k].0.2 as int,
            ),
{
    let lines: Vec<Vec<u8>> = split_lines(text);
    let ghost ls = text_lines(text@);
    proof {
        assert(views(lines@) == ls);
        assert(ls.take(0) =~= Seq::<Seq<u8>>::empty());
    }
    let mut writes: Vec<((usize, usize, usize), BlockType)> = Vec::new();
    let mut y: usize = 0;
    let mut z: usize = 0;
    let mut skip: bool = false;
    let mut done: bool = false;
    let mut i: usize = 0;
    while i < lines.len()
        invariant
            ls == text_lines(text@),
            views(lines@) == ls,
            i <= lines@.len(),
            ({
                let st = chunk_read_from(chunk_read_start(), ls.take(i as int), chunk_sizes);
                &&& !st.failed
                &&& st.y == y
                &&& st.z == z
                &&& st.skip == skip
                &&& st.done == done
                &&& st.cells == cells_of(writes@)
            }),
            forall|k: int|
                0 <= k < writes@.len() ==> in_chunk(
                    chunk_sizes,
                    (#[trigger] writes@[k]).0.0 as int,
                    writes@[k].0.1 as int,
                    writes@[k].0.2 as int,
                ),
            z <= i,
            y <= i,
        decreases lines@.len() - i,
    {
        let ghost st = chunk_read_from(chunk_read_start(), ls.take(i as int), chunk_sizes);
        proof {
            assert(ls.take(i + 1) =~= ls.take(i as int).push(ls[i as int]));
            lemma_read_from_push(chunk_read_start(), ls.take(i as int), ls[i as int], chunk_sizes);
            assert(lines@[i as int]@ == ls[i as int]);
        }
        if done {
        } else if !is_utf8(&lines[i]) {
            proof {
                lemma_fails_from(ls, i + 1, chunk_sizes);
            }
            return Err(ChunkFileError::Malformed);
        } else if skip {
            skip = false;
        } else {
            let plain: Vec<u8> = normalize_spaces(&lines[i]);
            let words: Vec<Vec<u8>> = split_words(&plain);
            let ghost ws = line_words(spaces_normalized(ls[i as int]));
            proof {
                assert(views(words@) == ws);
            }
            if words.len() > 0 && (words.len() > chunk_sizes.0 || y >= chunk_sizes.1 || z >= chunk_sizes.2) {
                proof {
                    lemma_fails_from(ls, i + 1, chunk_sizes);
                }
                return Err(ChunkFileError::Malformed);
            }
            let mut x: usize = 0;
            proof {
                assert(ws.take(0) =~= Seq::<Seq<u8>>::empty());
            }
            while x < words.len()
                invariant
                    ls == text_lines(text@),
                    i < ls.len(),
                    st == chunk_read_from(chunk_read_start(), ls.take(i as int), chunk_sizes),
                    !st.failed && !st.done && !st.skip,
                    st.y == y,
                    st.z == z,
                    chunk_read_from(chunk_read_start(), ls.take(i + 1), chunk_sizes) == chunk_read_step(st, ls[i as int], chunk_sizes),
                    ws == line_words(spaces_normalized(ls[i as int])),
                    views(words@) == ws,
                    x <= ws.len(),
                    forall|k: int|
                        0 <= k < writes@.len() ==> in_chunk(
                            chunk_sizes,
                            (#[trigger] writes@[k]).0.0 as int,
                            writes@[k].0.1 as int,
                            writes@[k].0.2 as int,
                        ),
                    ws.len() <= chunk_sizes.0 || ws.len() == 0,
                    y < chunk_sizes.1 || ws.len() == 0,
                    z < chunk_sizes.2 || ws.len() == 0,
                    forall|k: int|
                        0 <= k < x ==> (#[trigger] parse_u16(ws[k])) is Some && is_block_id(
                            parse_u16(ws[k])->Some_0,
                        ),
                    cells_of(writes@) == write_row(st.cells, ws.take(x as int), y as int, z as int),
                decreases ws.len() - x,
            {
                proof {
                    assert(words@[x as int]@ == ws[x as int]);
                }
                let id: Option<u16> = parse_u16_word(&words[x]);
                let kind: Option<BlockType> = match id {
                    Some(v) => crate::block_type::block_type_for_id(v),
                    None => None,
                };
                match kind {
                    Some(t) => {
                        proof {
                            lemma_cells_of_push(writes@, ((x, y, z), t));
                            lemma_write_row_take(st.cells, ws, y as int, z as int, x as int);
                        }
                        writes.push(((x, y, z), t));
                    },
                    None => {
                        proof {
                            assert(!row_words_valid(ws, chunk_sizes));
                            lemma_fails_from(ls, i + 1, chunk_sizes);
                        }
                        return Err(ChunkFileError::Malformed);
                    },
                }
                x = x + 1;
            }
            proof {
                assert(ws.take(x as int) =~= ws);
            }
            if z + 1 == chunk_sizes.2 {
                y = y + 1;
                z = 0;
                skip = true;
                done = y == chunk_sizes.1;
            } else {
                z = z + 1;
            }
        }
        i = i + 1;
    }
    proof {
        assert(ls.take(i as int) =~= ls);
    }
    Ok(writes)
}

/// `b` with its kind replaced.
pub open spec fn with_kind(b: Block, t: BlockType) -> Block {
    Block { block_type: t, ..b }
}

/// Makes the cell writes of a read: each written cell takes the kind
/// written, and nothing else about the blocks changes.
pub fn apply_cell_writes(
    temp_chunk_vec: &mut Vec<Vec<Vec<Block>>>,
    writes: &Vec<((usize, usize, usize), BlockType)>,
    chunk_sizes: (usize, usize, usize),
)
    requires
        grid_has_sizes(old(temp_chunk_vec)@, chunk_sizes),
        forall|k: int|
            0 <= k < writes@.len() ==> in_chunk(
                chunk_sizes,
                (#[trigger] writes@[k]).0.0 as int,
                writes@[k].0.1 as int,
                writes@[k].0.2 as int,
            ),
    ensures
        grid_has_sizes(final(temp_chunk_vec)@, chunk_sizes),
        forall|x: int, y: int, z: int|
            in_chunk(chunk_sizes, x, y, z) ==> {
                let c = #[trigger] cell(final(temp_chunk_vec)@, x, y, z);
                &&& c == with_kind(cell(old(temp_chunk_vec)@, x, y, z), c.block_type)
                &&& if cells_of(writes@).contains_key((x, y, z)) {
                    block_id(c.block_type) == cells_of(writes@)[(x, y, z)]
                } else {
                    c == cell(old(temp_chunk_vec)@, x, y, z)
                }
            },
{
    let ghost g0 = temp_chunk_vec@;
    let mut i: usize = 0;
    while i < writes.len()
        invariant
            grid_has_sizes(g0, chunk_sizes),
            grid_has_sizes(temp_chunk_vec@, chunk_sizes),
            i <= writes@.len(),
            forall|k: int|
                0 <= k < writes@.len() ==> in_chunk(
                    chunk_sizes,
                    (#[trigger] writes@[k]).0.0 as int,
                    writes@[k].0.1 as int,
                    writes@[k].0.2 as int,
                ),
            forall|x: int, y: int, z: int|
                in_chunk(chunk_sizes, x, y, z) ==> {
                    let c = #[trigger] cell(temp_chunk_vec@, x, y, z);
                    &&& c == with_kind(cell(g0, x, y, z), c.block_type)
                    &&& if cells_of(writes@.take(i as int)).contains_key((x, y, z)) {
                        block_id(c.block_type) == cells_of(writes@.take(i as int))[(x, y, z)]
                    } else {
                        c == cell(g0, x, y, z)
                    }
                },
        decreases writes@.len() - i,
    {
        let ((x, y, z), t) = writes[i];
        proof {
            assert(writes@.take(i + 1) =~= writes@.take(i as int).push(writes@[i as int]));
            lemma_cells_of_push(writes@.take(i as int), writes@[i as int]);
            assert(in_chunk(chunk_sizes, x as int, y as int, z as int));
        }
        let ghost before = temp_chunk_vec@;
        temp_chunk_vec[x][y][z].block_type = t;
        proof {
            assert forall|a: int, b: int, c: int| in_chunk(chunk_sizes, a, b, c) implies {
                let cl = #[trigger] cell(temp_chunk_vec@, a, b, c);
                &&& cl == with_kind(cell(g0, a, b, c), cl.block_type)
                &&& if cells_of(writes@.take(i + 1)).contains_key((a, b, c)) {
                    block_id(cl.block_type) == cells_of(writes@.take(i + 1))[(a, b, c)]
                } else {
                    cl == cell(g0, a, b, c)
                }
            } by {
                let old_cell = cell(before, a, b, c);
                assert(old_cell == with_kind(cell(g0, a, b, c), old_cell.block_type));
                if a == x && b == y && c == z {
                    assert(cell(temp_chunk_vec@, a, b, c) == with_kind(old_cell, t));
                    assert(cells_of(writes@.take(i + 1)) == cells_of(writes@.take(i as int)).insert(
                        (x as int, y as int, z as int),
                        block_id(t),
                    ));
                } else {
                    assert(cell(temp_chunk_vec@, a, b, c) == old_cell);
                    assert((a, b, c) != (x as int, y as int, z as int));
                }
            }
        }
        i = i + 1;
    }
    proof {
        assert(writes@.take(i as int) =~= writes@);
    }
}

/// Whether the blocks of a chunk can be placed into the cells of a chunk
/// of these dimensions, as saving it requires.
pub fn can_save_chunk(blocks: &HashMap<u128, Block>, chunk_sizes: (usize, usize, usize)) -> (ok: bool)
    ensures
        ok == (placeable_sizes(chunk_sizes) && blocks_within_height(blocks@, chunk_sizes)),
{
    if !(1 <= chunk_sizes.0 && chunk_sizes.0 <= 0x7fff_ffff && chunk_sizes.1 <= 0x7fff && 1 <= chunk_sizes.2
        && chunk_sizes.2 <= 0x7fff_ffff) {
        return false;
    }
    let list: Vec<Block> = map_values(blocks);
    let ghost ks: Seq<u128> = choose|ks: Seq<u128>| {
        &&& ks.no_duplicates()
        &&& ks.to_set() == blocks@.dom()
        &&& ks.len() == list@.len()
        &&& forall|i: int| 0 <= i < ks.len() ==> #[trigger] list@[i] == blocks@[ks[i]]
    };
    let half: i32 = (chunk_sizes.1 / 2) as i32;
    let height: i32 = chunk_sizes.1 as i32;
    let mut i: usize = 0;
    while i < list.len()
        invariant
            ks.no_duplicates(),
            ks.to_set() == blocks@.dom(),
            ks.len() == list@.len(),
            forall|j: int| 0 <= j < ks.len() ==> #[trigger] list@[j] == blocks@[ks[j]],
            half == chunk_sizes.1 as int / 2,
            height == chunk_sizes.1,
            chunk_sizes.1 <= 0x7fff,
            i <= list@.len(),
            forall|j: int| 0 <= j < i ==> 0 <= #[trigger] list@[j].position.y + chunk_sizes.1 as int / 2 < chunk_sizes.1,
        decreases list@.len() - i,
    {
        let y: i32 = list[i].position.y as i32 + half;
        if y < 0 || y >= height {
            proof {
                assert(ks.to_set().contains(ks[i as int]));
                assert(blocks@.dom().contains(ks[i as int]));
                assert(blocks@[ks[i as int]] == list@[i as int]);
            }
            return false;
        }
        i = i + 1;
    }
    proof {
        assert forall|k: u128| blocks@.dom().contains(k) implies 0 <= #[trigger] blocks@[k].position.y + chunk_sizes.1 as int / 2
            < chunk_sizes.1 by {
            assert(ks.to_set().contains(k));
            let j = choose|j: int| 0 <= j < ks.len() && ks[j] == k;
            assert(list@[j] == blocks@[ks[j]]);
        }
    }
    true
}

/// Writes the saved text of a chunk from the kinds of its cells.
pub fn write_chunk_text(kinds: &Vec<Vec<Vec<BlockType>>>, chunk_sizes: (usize, usize, usize)) -> (text: Vec<u8>)
    requires
        kinds_have_sizes(kinds@, chunk_sizes),
    ensures
        text@ == chunk_text(kinds@, chunk_sizes),
{
    let ghost g = kinds@;
    let mut data: Vec<u8> = Vec::new();
    let mut y: usize = 0;
    while y < chunk_sizes.1
        invariant
            g == kinds@,
            kinds_have_sizes(g, chunk_sizes),
            y <= chunk_sizes.1,
            data@ == layers_text(g, chunk_sizes, y as int),
        decreases chunk_sizes.1 - y,
    {
        let mut z: usize = 0;
        while z < chunk_sizes.2
            invariant
                g == kinds@,
                kinds_have_sizes(g, chunk_sizes),
                y < chunk_sizes.1,
                z <= chunk_sizes.2,
                data@ == layers_text(g, chunk_sizes, y as int) + layer_text(g, chunk_sizes, y as int, z as int),
            decreases chunk_sizes.2 - z,
        {
            let mut x: usize = 0;
            while x < chunk_sizes.0
                invariant
                    g == kinds@,
                    kinds_have_sizes(g, chunk_sizes),
                    y < chunk_sizes.1,
                    z < chunk_sizes.2,
                    x <= chunk_sizes.0,
                    data@ == layers_text(g, chunk_sizes, y as int) + layer_text(g, chunk_sizes, y as int, z as int)
                        + row_text(g, y as int, z as int, x as int),
                decreases chunk_sizes.0 - x,
            {
                let id: u16 = kinds[x][y][z].to_int();
                let ghost before = data@;
                push_decimal(&mut data, id as u64);
                data.push(32);
                proof {
                    assert(data@ =~= layers_text(g, chunk_sizes, y as int) + layer_text(g, chunk_sizes, y as int, z as int)
                        + row_text(g, y as int, z as int, x + 1));
                }
                x = x + 1;
            }
            data.push(10);
            proof {
                assert(data@ =~= layers_text(g, chunk_sizes, y as int) + layer_text(g, chunk_sizes, y as int, z + 1));
            }
            z = z + 1;
        }
        data.push(10);
        proof {
            assert(data@ =~= layers_text(g, chunk_sizes, y + 1));
        }
        y = y + 1;
    }
    data
}


/// The words of row `(y, z)`: the decimal ids of its first `n` cells.
pub open spec fn row_words(g: Seq<Vec<Vec<BlockType>>>, y: int, z: int, n: int) -> Seq<Seq<u8>> {
    Seq::new(n as nat, |x: int| decimal(block_id(kind_at(g, x, y, z)) as nat))
}

/// The lines of the first `m` rows of layer `y`.
pub open spec fn rows_lines(g: Seq<Vec<Vec<BlockType>>>, chunk_sizes: (usize, usize, usize), y: int, m: int) -> Seq<Seq<u8>>
    decreases m,
{
    if m <= 0 {
        Seq::empty()
    } else {
        rows_lines(g, chunk_sizes, y, m - 1).push(row_text(g, y, m - 1, chunk_sizes.0 as int))
    }
}

/// The lines of the first `k` layers, each followed by an empty line.
pub open spec fn layers_lines(g: Seq<Vec<Vec<BlockType>>>, chunk_sizes: (usize, usize, usize), k: int) -> Seq<Seq<u8>>
    decreases k,
{
    if k <= 0 {
        Seq::empty()
    } else {
        (layers_lines(g, chunk_sizes, k - 1) + rows_lines(g, chunk_sizes, k - 1, chunk_sizes.2 as int)).push(
            Seq::empty(),
        )
    }
}

/// The ids of the cells before row `(y, z)`.
pub open spec fn cells_before(g: Seq<Vec<Vec<BlockType>>>, chunk_sizes: (usize, usize, usize), y: int, z: int) -> Map<(int, int, int), u16> {
    Map::new(
        |c: (int, int, int)| in_chunk(chunk_sizes, c.0, c.1, c.2) && (c.1 < y || (c.1 == y && c.2 < z)),
        |c: (int, int, int)| block_id(kind_at(g, c.0, c.1, c.2)),
    )
}

/// The ids of every cell of the chunk.
pub open spec fn all_cells(g: Seq<Vec<Vec<BlockType>>>, chunk_sizes: (usize, usize, usize)) -> Map<(int, int, int), u16> {
    Map::new(
        |c: (int, int, int)| in_chunk(chunk_sizes, c.0, c.1, c.2),
        |c: (int, int, int)| block_id(kind_at(g, c.0, c.1, c.2)),
    )
}

/// The reader at the start of row `(y, z)`.
pub open spec fn at_row(g: Seq<Vec<Vec<BlockType>>>, chunk_sizes: (usize, usize, usize), y: int, z: int) -> ChunkReadState {
    ChunkReadState { y, z, skip: false, done: false, failed: false, cells: cells_before(g, chunk_sizes, y, z) }
}

/// The reader after the last row of layer `y`.
pub open spec fn after_layer(g: Seq<Vec<Vec<BlockType>>>, chunk_sizes: (usize, usize, usize), y: int) -> ChunkReadState {
    ChunkReadState {
        y: y + 1,
        z: 0,
        skip: true,
        done: y + 1 == chunk_sizes.1,
        failed: false,
        cells: cells_before(g, chunk_sizes, y + 1, 0),
    }
}

proof fn lemma_row_text(g: Seq<Vec<Vec<BlockType>>>, y: int, z: int, n: int)
    requires
        n >= 0,
    ensures
        forall|i: int| 0 <= i < row_text(g, y, z, n).len() ==> (#[trigger] row_text(g, y, z, n)[i] == 32
            || is_digit(row_text(g, y, z, n)[i])),
        word_split(row_text(g, y, z, n)) == (row_words(g, y, z, n), false),
    decreases n,
{
    if n == 0 {
        assert(row_words(g, y, z, 0) =~= Seq::<Seq<u8>>::empty());
    } else {
        lemma_row_text(g, y, z, n - 1);
        let prev = row_text(g, y, z, n - 1);
        let d = decimal(block_id(kind_at(g, n - 1, y, z)) as nat);
        lemma_decimal(block_id(kind_at(g, n - 1, y, z)) as nat);
        assert forall|i: int| 0 <= i < d.len() implies !is_space(#[trigger] d[i]) by {
            assert(is_digit(d[i]));
        }
        lemma_words_append_word(prev, d);
        lemma_words_append_space(prev + d, 32);
        assert(row_text(g, y, z, n) =~= (prev + d).push(32));
        assert(row_words(g, y, z, n - 1).push(d) =~= row_words(g, y, z, n));
        assert forall|i: int| 0 <= i < row_text(g, y, z, n).len() implies (#[trigger] row_text(g, y, z, n)[i] == 32
            || is_digit(row_text(g, y, z, n)[i])) by {
            if i < prev.len() {
                assert(row_text(g, y, z, n)[i] == prev[i]);
            } else if i < prev.len() + d.len() {
                assert(row_text(g, y, z, n)[i] == d[i - prev.len()]);
                assert(is_digit(d[i - prev.len()]));
            }
        }
    }
}

/// A line without newlines, then a newline, adds a piece.
proof fn lemma_pieces_line(q: Seq<u8>, x: Seq<Seq<u8>>, l: Seq<u8>)
    requires
        newline_pieces(q) == x.push(Seq::<u8>::empty()),
        forall|i: int| 0 <= i < l.len() ==> #[trigger] l[i] != 10,
    ensures
        newline_pieces(q + l + seq![10u8]) == x.push(l).push(Seq::<u8>::empty()),
{
    lemma_pieces_append(q, l);
    assert(x.push(Seq::<u8>::empty()).update(x.len() as int, Seq::<u8>::empty() + l) =~= x.push(l));
    lemma_pieces_newline(q + l);
    assert(q + l + seq![10u8] =~= (q + l).push(10));
}

proof fn lemma_layers_pieces(g: Seq<Vec<Vec<BlockType>>>, chunk_sizes: (usize, usize, usize), k: int)
    requires
        k >= 0,
    ensures
        newline_pieces(layers_text(g, chunk_sizes, k)) == layers_lines(g, chunk_sizes, k).push(Seq::<u8>::empty()),
        forall|i: int| 0 <= i < layers_text(g, chunk_sizes, k).len() ==> #[trigger] layers_text(g, chunk_sizes, k)[i] < 128,
    decreases k,
{
    if k == 0 {
        assert(newline_pieces(Seq::<u8>::empty()) =~= seq![Seq::<u8>::empty()]);
        assert(Seq::<Seq<u8>>::empty().push(Seq::<u8>::empty()) =~= seq![Seq::<u8>::empty()]);
    } else {
        lemma_layers_pieces(g, chunk_sizes, k - 1);
        let base = layers_text(g, chunk_sizes, k - 1);
        lemma_layer_pieces(g, chunk_sizes, k - 1, chunk_sizes.2 as int, base, layers_lines(g, chunk_sizes, k - 1));
        let q = base + layer_text(g, chunk_sizes, k - 1, chunk_sizes.2 as int);
        lemma_pieces_newline(q);
        assert(layers_text(g, chunk_sizes, k) =~= q.push(10));
    }
}

proof fn lemma_layer_pieces(
    g: Seq<Vec<Vec<BlockType>>>,
    chunk_sizes: (usize, usize, usize),
    y: int,
    m: int,
    base: Seq<u8>,
    x: Seq<Seq<u8>>,
)
    requires
        m >= 0,
        newline_pieces(base) == x.push(Seq::<u8>::empty()),
        forall|i: int| 0 <= i < base.len() ==> #[trigger] base[i] < 128,
    ensures
        newline_pieces(base + layer_text(g, chunk_sizes, y, m)) == (x + rows_lines(g, chunk_sizes, y, m)).push(
            Seq::<u8>::empty(),
        ),
        forall|i: int| 0 <= i < (base + layer_text(g, chunk_sizes, y, m)).len() ==> #[trigger] (base + layer_text(g, chunk_sizes, y, m))[i] < 128,
    decreases m,
{
    if m == 0 {
        assert(base + layer_text(g, chunk_sizes, y, 0) =~= base);
        assert(x + rows_lines(g, chunk_sizes, y, 0) =~= x);
    } else {
        lemma_layer_pieces(g, chunk_sizes, y, m - 1, base, x);
        let q = base + layer_text(g, chunk_sizes, y, m - 1);
        let l = row_text(g, y, m - 1, chunk_sizes.0 as int);
        lemma_row_text(g, y, m - 1, chunk_sizes.0 as int);
        assert forall|i: int| 0 <= i < l.len() implies #[trigger] l[i] != 10 by {
            assert(l[i] == 32 || is_digit(l[i]));
        }
        lemma_pieces_line(q, x + rows_lines(g, chunk_sizes, y, m - 1), l);
        assert(base + layer_text(g, chunk_sizes, y, m) =~= q + l + seq![10u8]);
        assert((x + rows_lines(g, chunk_sizes, y, m - 1)).push(l) =~= x + rows_lines(g, chunk_sizes, y, m));
        assert forall|i: int| 0 <= i < (base + layer_text(g, chunk_sizes, y, m)).len() implies #[trigger] (base + layer_text(g, chunk_sizes, y, m))[i] < 128 by {
            let t = base + layer_text(g, chunk_sizes, y, m);
            if i < q.len() {
                assert(t[i] == q[i]);
            } else if i < q.len() + l.len() {
                assert(t[i] == l[i - q.len()]);
                assert(l[i - q.len()] == 32 || is_digit(l[i - q.len()]));
            }
        }
    }
}

proof fn lemma_write_row_words(
    g: Seq<Vec<Vec<BlockType>>>,
    cells: Map<(int, int, int), u16>,
    y: int,
    z: int,
    n: int,
)
    requires
        n >= 0,
    ensures
        write_row(cells, row_words(g, y, z, n), y, z) == Map::new(
            |c: (int, int, int)| cells.contains_key(c) || (0 <= c.0 < n && c.1 == y && c.2 == z),
            |c: (int, int, int)| if 0 <= c.0 < n && c.1 == y && c.2 == z {
                block_id(kind_at(g, c.0, c.1, c.2))
            } else {
                cells[c]
            },
        ),
    decreases n,
{
    if n == 0 {
        assert(row_words(g, y, z, 0) =~= Seq::<Seq<u8>>::empty());
        assert(cells =~= Map::new(
            |c: (int, int, int)| cells.contains_key(c) || (0 <= c.0 < 0 && c.1 == y && c.2 == z),
            |c: (int, int, int)| if 0 <= c.0 < 0 && c.1 == y && c.2 == z {
                block_id(kind_at(g, c.0, c.1, c.2))
            } else {
                cells[c]
            },
        ));
    } else {
        lemma_write_row_words(g, cells, y, z, n - 1);
        assert(row_words(g, y, z, n).drop_last() =~= row_words(g, y, z, n - 1));
        lemma_parse_u16_decimal(block_id(kind_at(g, n - 1, y, z)));
        assert(write_row(cells, row_words(g, y, z, n), y, z) =~= Map::new(
            |c: (int, int, int)| cells.contains_key(c) || (0 <= c.0 < n && c.1 == y && c.2 == z),
            |c: (int, int, int)| if 0 <= c.0 < n && c.1 == y && c.2 == z {
                block_id(kind_at(g, c.0, c.1, c.2))
            } else {
                cells[c]
            },
        ));
    }
}

proof fn lemma_read_row(g: Seq<Vec<Vec<BlockType>>>, chunk_sizes: (usize, usize, usize), y: int, z: int)
    requires
        0 <= y < chunk_sizes.1,
        0 <= z < chunk_sizes.2,
    ensures
        chunk_read_step(at_row(g, chunk_sizes, y, z), row_text(g, y, z, chunk_sizes.0 as int), chunk_sizes) == if z + 1
            == chunk_sizes.2 {
            after_layer(g, chunk_sizes, y)
        } else {
            at_row(g, chunk_sizes, y, z + 1)
        },
{
    let sx = chunk_sizes.0 as int;
    lemma_row_text(g, y, z, sx);
    let words = row_words(g, y, z, sx);
    let t = row_text(g, y, z, sx);
    assert forall|i: int| 0 <= i < t.len() implies #[trigger] t[i] < 128 by {
        assert(t[i] == 32 || is_digit(t[i]));
    }
    lemma_ascii_text(t);
    assert(line_words(spaces_normalized(t)) == words);
    assert forall|i: int| 0 <= i < words.len() implies (#[trigger] parse_u16(words[i])) is Some && is_block_id(
        parse_u16(words[i])->Some_0,
    ) by {
        lemma_parse_u16_decimal(block_id(kind_at(g, i, y, z)));
    }
    lemma_write_row_words(g, cells_before(g, chunk_sizes, y, z), y, z, sx);
    if z + 1 == chunk_sizes.2 {
        assert(write_row(cells_before(g, chunk_sizes, y, z), words, y, z) =~= cells_before(g, chunk_sizes, y + 1, 0));
    } else {
        assert(write_row(cells_before(g, chunk_sizes, y, z), words, y, z) =~= cells_before(g, chunk_sizes, y, z + 1));
    }
}

proof fn lemma_read_rows(g: Seq<Vec<Vec<BlockType>>>, chunk_sizes: (usize, usize, usize), y: int, m: int)
    requires
        0 <= y < chunk_sizes.1,
        0 <= m <= chunk_sizes.2,
    ensures
        chunk_read_from(at_row(g, chunk_sizes, y, 0), rows_lines(g, chunk_sizes, y, m), chunk_sizes) == if m
            == chunk_sizes.2 && m > 0 {
            after_layer(g, chunk_sizes, y)
        } else {
            at_row(g, chunk_sizes, y, m)
        },
    decreases m,
{
    if m == 0 {
    } else {
        lemma_read_rows(g, chunk_sizes, y, m - 1);
        lemma_read_from_push(
            at_row(g, chunk_sizes, y, 0),
            rows_lines(g, chunk_sizes, y, m - 1),
            row_text(g, y, m - 1, chunk_sizes.0 as int),
            chunk_sizes,
        );
        lemma_read_row(g, chunk_sizes, y, m - 1);
    }
}

proof fn lemma_read_layers(g: Seq<Vec<Vec<BlockType>>>, chunk_sizes: (usize, usize, usize), k: int)
    requires
        chunk_sizes.2 >= 1,
        0 <= k <= chunk_sizes.1,
    ensures
        chunk_read_from(chunk_read_start(), layers_lines(g, chunk_sizes, k), chunk_sizes) == if k == chunk_sizes.1
            && k > 0 {
            after_layer(g, chunk_sizes, k - 1)
        } else {
            at_row(g, chunk_sizes, k, 0)
        },
    decreases k,
{
    if k == 0 {
        assert(cells_before(g, chunk_sizes, 0, 0) =~= Map::<(int, int, int), u16>::empty());
    } else {
        lemma_read_layers(g, chunk_sizes, k - 1);
        let prev = layers_lines(g, chunk_sizes, k - 1);
        let rows = rows_lines(g, chunk_sizes, k - 1, chunk_sizes.2 as int);
        lemma_read_from_append(chunk_read_start(), prev, rows, chunk_sizes);
        lemma_read_rows(g, chunk_sizes, k - 1, chunk_sizes.2 as int);
        lemma_read_from_push(chunk_read_start(), prev + rows, Seq::<u8>::empty(), chunk_sizes);
        if k < chunk_sizes.1 {
            assert(cells_before(g, chunk_sizes, k, 0) == cells_before(g, chunk_sizes, k, 0));
        }
    }
}

/// What a read gives back of a write: reading the saved text of a chunk
/// whose cells hold the kinds of `g` succeeds and finds every cell's block
/// id. Saved text is plain ASCII.
pub proof fn saved_chunk_reads_back(g: Seq<Vec<Vec<BlockType>>>, chunk_sizes: (usize, usize, usize))
    requires
        kinds_have_sizes(g, chunk_sizes),
        chunk_sizes.2 >= 1,
    ensures
        is_ascii_text(chunk_text(g, chunk_sizes)),
        !chunk_read(chunk_text(g, chunk_sizes), chunk_sizes).failed,
        chunk_read(chunk_text(g, chunk_sizes), chunk_sizes).cells == all_cells(g, chunk_sizes),
{
    let k = chunk_sizes.1 as int;
    lemma_layers_pieces(g, chunk_sizes, k);
    assert(text_lines(chunk_text(g, chunk_sizes)) =~= layers_lines(g, chunk_sizes, k));
    lemma_read_layers(g, chunk_sizes, k);
    if k > 0 {
        assert(cells_before(g, chunk_sizes, k, 0) =~= all_cells(g, chunk_sizes));
    } else {
        assert(cells_before(g, chunk_sizes, 0, 0) =~= all_cells(g, chunk_sizes));
    }
}


/// Every block of `m` is stored under the key of its own position.
pub open spec fn keyed_by_position(m: Map<u128, Block>) -> bool {
    forall|k: u128| m.dom().contains(k) ==> position_key(#[trigger] m[k].position) == k
}

/// Every block of `m` lies in the chunk with id `chunk_id`, within its height.
pub open spec fn blocks_in_chunk(m: Map<u128, Block>, chunk_id: (i32, i32), chunk_sizes: (usize, usize, usize)) -> bool {
    forall|k: u128|
        m.dom().contains(k) ==> {
            let p = #[trigger] m[k].position;
            &&& chunk_id.0 * chunk_sizes.0 <= p.x < chunk_id.0 * chunk_sizes.0 + chunk_sizes.0
            &&& 0 <= p.y + chunk_sizes.1 as int / 2 < chunk_sizes.1
            &&& chunk_id.1 * chunk_sizes.2 <= p.z < chunk_id.1 * chunk_sizes.2 + chunk_sizes.2
        }
}

/// The world position of cell `(x, y, z)` of the chunk with id `chunk_id`.
pub open spec fn cell_position(chunk_id: (i32, i32), chunk_sizes: (usize, usize, usize), x: int, y: int, z: int) -> Position {
    Position {
        x: (chunk_id.0 * chunk_sizes.0 + x) as i32,
        y: (y - chunk_sizes.1 as int / 2) as i16,
        z: (chunk_id.1 * chunk_sizes.2 + z) as i32,
    }
}

/// The kind of the block of `m` stored under the key of the world position
/// of cell `(x, y, z)`, air when there is none.
pub open spec fn kind_by_key(m: Map<u128, Block>, chunk_id: (i32, i32), chunk_sizes: (usize, usize, usize), x: int, y: int, z: int) -> BlockType {
    let k = position_key(cell_position(chunk_id, chunk_sizes, x, y, z)) as u128;
    if m.dom().contains(k) {
        m[k].block_type
    } else {
        BlockType::Air
    }
}

/// A coordinate of a chunk of size `s` starting at `start` taken modulo `s`.
proof fn lemma_offset_mod(start_id: int, s: int, r: int)
    requires
        s > 0,
        0 <= r < s,
    ensures
        (start_id * s + r) % s == r,
{
    vstd::arithmetic::div_mod::lemma_fundamental_div_mod_converse(start_id * s + r, s, start_id, r);
}

/// What a read gives back of a saved chunk, block by block: when the
/// chunk's blocks are stored under the keys of their positions and lie in
/// the chunk, reading its saved text (its blocks placed as `kinds`)
/// succeeds, and every cell gets the id of the kind of the block whose key
/// is that of the cell's world position, or of air when there is none.
pub proof fn saved_blocks_read_back(
    m: Map<u128, Block>,
    chunk_id: (i32, i32),
    chunk_sizes: (usize, usize, usize),
    kinds: Seq<Vec<Vec<BlockType>>>,
)
    requires
        placeable_sizes(chunk_sizes),
        chunk_positions_fit(chunk_id, chunk_sizes),
        keyed_by_position(m),
        blocks_in_chunk(m, chunk_id, chunk_sizes),
        kinds_have_sizes(kinds, chunk_sizes),
        forall|x: int, y: int, z: int|
            in_chunk(chunk_sizes, x, y, z) ==> placed_kind(m, chunk_sizes, (x, y, z), #[trigger] kind_at(kinds, x, y, z)),
    ensures
        !chunk_read(chunk_text(kinds, chunk_sizes), chunk_sizes).failed,
        forall|x: int, y: int, z: int|
            in_chunk(chunk_sizes, x, y, z) ==> chunk_read(chunk_text(kinds, chunk_sizes), chunk_sizes).cells[(x, y, z)]
                == block_id(#[trigger] kind_by_key(m, chunk_id, chunk_sizes, x, y, z)),
{
    saved_chunk_reads_back(kinds, chunk_sizes);
    let sx = chunk_sizes.0 as int;
    let sz = chunk_sizes.2 as int;
    assert forall|x: int, y: int, z: int| in_chunk(chunk_sizes, x, y, z) implies kind_at(kinds, x, y, z)
        == #[trigger] kind_by_key(m, chunk_id, chunk_sizes, x, y, z) by {
        let c = (x, y, z);
        let pos = cell_position(chunk_id, chunk_sizes, x, y, z);
        let key = position_key(pos);
        lemma_block_key_injective(pos, pos);
        lemma_offset_mod(chunk_id.0 as int, sx, x);
        lemma_offset_mod(chunk_id.1 as int, sz, z);
        assert(pos.x == chunk_id.0 * sx + x);
        assert(pos.y == y - chunk_sizes.1 as int / 2);
        assert(pos.z == chunk_id.1 * sz + z);
        assert(placed_kind(m, chunk_sizes, c, kind_at(kinds, x, y, z)));
        if exists|k: u128| m.dom().contains(k) && cell_of_block(m[k], chunk_sizes) == c {
            let k = choose|k: u128| m.dom().contains(k) && cell_of_block(m[k], chunk_sizes) == c
                && #[trigger] m[k].block_type == kind_at(kinds, x, y, z);
            let q = m[k].position;
            assert(position_key(q) == k);
            lemma_offset_mod(chunk_id.0 as int, sx, q.x - chunk_id.0 * sx);
            lemma_offset_mod(chunk_id.1 as int, sz, q.z - chunk_id.1 * sz);
            assert(q == pos);
            assert(k == key as u128);
        } else {
            if m.dom().contains(key as u128) {
                let q = m[key as u128].position;
                assert(position_key(q) == key);
                lemma_block_key_injective(q, pos);
                assert(cell_of_block(m[key as u128], chunk_sizes) == c);
            }
        }
    }
}

} // verus!
