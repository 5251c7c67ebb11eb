//! The files a world is saved in: where they live, the text of the file
//! that lists the created chunks, the text of a new world's files, and
//! the saving and reading of chunks.
use vstd::prelude::*;
use std::collections::HashSet;
use crate::block::Block;
use crate::chunk::Chunk;
use crate::chunk::chunk_functions::{grid_has_sizes, cell};
use crate::chunk::chunk_gpu_functions::in_chunk;
use crate::chunk_file::{
    ChunkFileError, chunk_read, chunk_text, chunk_block_types, write_chunk_text, parse_chunk_text,
    apply_cell_writes, kinds_have_sizes, kind_at, placed_kind, placeable_sizes,
    blocks_within_height, with_kind,
};
use crate::keys::{chunk_key_of, chunk_id_of_key};
use crate::text::{
    lemma_text_lines_join, lemma_words_append_word, lemma_words_append_space, lemma_decimal,
    lemma_parse_i32_decimal, word_split, is_space, is_digit,
    lemma_join_lines_push,
    decimal, signed_decimal, push_bytes, push_decimal, push_signed_decimal, join_lines,
    text_lines, line_words, parse_i32, split_lines, split_words, parse_i32_word, views, text_words,
    read_words, lemma_ascii_text,
};
use crate::world::{World, id_key, lemma_id_keys_injective};
use vstd::std_specs::iter::IteratorSpec;
use vstd::string::StringExecFns;

verus! {

broadcast use vstd::std_specs::hash::group_hash_axioms;

/// Where the game's files live.
pub struct FileSystem {
    /// The assets folder.
    pub assets_directory: String,
    /// The folder of the world being played.
    pub my_world_directory: String,
}

/// `Total Chunks Created : `
pub open spec fn total_label() -> Seq<u8> {
    seq![84u8, 111, 116, 97, 108, 32, 67, 104, 117, 110, 107, 115, 32, 67, 114, 101, 97, 116, 101, 100, 32, 58, 32]
}

/// `Chunk Sizes: (`
pub open spec fn sizes_label() -> Seq<u8> {
    seq![67u8, 104, 117, 110, 107, 32, 83, 105, 122, 101, 115, 58, 32, 40]
}

/// `Created Chunks: `, the heading of the list in a saved file.
pub open spec fn created_label() -> Seq<u8> {
    seq![67u8, 114, 101, 97, 116, 101, 100, 32, 67, 104, 117, 110, 107, 115, 58, 32]
}

/// `Created Chunks:`, the heading of the list in a new world's file.
pub open spec fn new_created_label() -> Seq<u8> {
    seq![67u8, 114, 101, 97, 116, 101, 100, 32, 67, 104, 117, 110, 107, 115, 58]
}

/// `Chunk Sizes: (x, y, z)`
pub open spec fn sizes_line(chunk_sizes: (usize, usize, usize)) -> Seq<u8> {
    sizes_label() + decimal(chunk_sizes.0 as nat) + seq![44u8, 32] + decimal(chunk_sizes.1 as nat) + seq![
        44u8,
        32,
    ] + decimal(chunk_sizes.2 as nat) + seq![41u8]
}

/// The line of a created chunk: its id `x z`.
pub open spec fn entry_line(id: (i32, i32)) -> Seq<u8> {
    signed_decimal(id.0 as int) + seq![32u8] + signed_decimal(id.1 as int)
}

/// The lines of the file listing the created chunks: their number, the
/// chunk dimensions, the heading, then one line per chunk.
pub open spec fn created_chunks_lines(ids: Seq<(i32, i32)>, chunk_sizes: (usize, usize, usize)) -> Seq<Seq<u8>> {
    seq![total_label() + decimal(ids.len()), sizes_line(chunk_sizes), created_label()] + ids.map_values(
        |id: (i32, i32)| entry_line(id),
    )
}

/// The saved text of the file listing the created chunks `ids`.
pub open spec fn created_chunks_text(ids: Seq<(i32, i32)>, chunk_sizes: (usize, usize, usize)) -> Seq<u8> {
    join_lines(created_chunks_lines(ids, chunk_sizes))
}

/// The text of that file in a new world: no chunk created yet.
pub open spec fn new_created_chunks_text(chunk_sizes: (usize, usize, usize)) -> Seq<u8> {
    join_lines(seq![total_label() + decimal(0), sizes_line(chunk_sizes), new_created_label()])
}

/// The chunk id on a line of the list: its first two words read as
/// `i32`s.
pub open spec fn created_entry(line: Seq<u8>) -> Option<(i32, i32)> {
    match text_words(line) {
        Some(w) => if w.len() >= 2 && parse_i32(w[0]) is Some && parse_i32(w[1]) is Some {
            Some((parse_i32(w[0])->Some_0, parse_i32(w[1])->Some_0))
        } else {
            None
        },
        None => None,
    }
}

/// What reading the file listing the created chunks gives: the last word
/// of the first line is their number; the next two lines are skipped; then
/// come that many lines, each with the id of one chunk. `None` when the
/// number is missing or malformed, a line is missing, or a line read is
/// not UTF-8 or holds no id. The two skipped lines are not looked at.
pub open spec fn created_chunks_read(text: Seq<u8>) -> Option<Seq<(i32, i32)>> {
    let ls = text_lines(text);
    if ls.len() == 0 || text_words(ls[0]) is None || text_words(ls[0])->Some_0.len() == 0 || parse_i32(
        text_words(ls[0])->Some_0.last(),
    ) is None {
        None
    } else {
        let total = parse_i32(text_words(ls[0])->Some_0.last())->Some_0 as int;
        if total <= 0 {
            Some(Seq::empty())
        } else if ls.len() < 3 + total {
            None
        } else if forall|i: int| 0 <= i < total ==> (#[trigger] created_entry(ls[3 + i])) is Some {
            Some(Seq::new(total as nat, |i: int| created_entry(ls[3 + i])->Some_0))
        } else {
            None
        }
    }
}

/// `ids` lists the chunks with keys in `keys`, each once.
pub open spec fn lists_keys(ids: Seq<(i32, i32)>, keys: Set<u64>) -> bool {
    &&& ids.map_values(|id: (i32, i32)| id_key(id)).no_duplicates()
    &&& ids.map_values(|id: (i32, i32)| id_key(id)).to_set() == keys
}

/// The `Important Info Goes Here: ` line of a new world's info file.
pub open spec fn world_info_text() -> Seq<u8> {
    seq![73u8, 109, 112, 111, 114, 116, 97, 110, 116, 32, 73, 110, 102, 111, 32, 71, 111, 101, 115, 32, 72, 101, 114, 101, 58, 32, 10]
}

/// A new world's statistics file: every statistic at 0.
pub open spec fn stats_text() -> Seq<u8> {
    seq![84u8, 105, 109, 101, 83, 112, 101, 110, 116, 58, 32, 48, 10, 68, 105, 115, 116, 97, 110, 99, 101, 84, 114, 97, 118, 101, 108, 108, 101, 100, 58, 32, 48, 10, 66, 108, 111, 99, 107, 115, 80, 108, 97, 99, 101, 100, 58, 32, 48, 10, 66, 108, 111, 99, 107, 115, 68, 101, 115, 116, 114, 111, 121, 101, 100, 58, 32, 48, 10, 68, 101, 97, 116, 104, 115, 58, 32, 48, 10, 68, 97, 109, 97, 103, 101, 84, 97, 107, 101, 110, 58, 32, 48, 10, 68, 97, 109, 97, 103, 101, 68, 101, 108, 116, 58, 32, 48, 10, 77, 111, 98, 115, 75, 105, 108, 108, 101, 100, 58, 32, 48, 10]
}

/// The name of a chunk's file: `x_z.txt`.
pub open spec fn chunk_file_name_of(id: (i32, i32)) -> Seq<u8> {
    signed_decimal(id.0 as int) + seq![95u8] + signed_decimal(id.1 as int) + seq![46u8, 116, 120, 116]
}

/// Why the file listing the created chunks could not be read.
#[derive(Clone, Copy, Debug, PartialEq, Eq, Structural)]
pub enum CreatedChunksError {
    /// The number of chunks is missing or malformed, a line is missing, or
    /// a line holds no chunk id.
    Malformed,
}

/// The keys of a set, each once.
pub fn set_keys(s: &HashSet<u64>) -> (ks: Vec<u64>)
    ensures
        ks@.no_duplicates(),
        ks@.to_set() == s@,
{
    let mut ks: Vec<u64> = Vec::new();
    let ghost all: Seq<u64> = s.iter().remaining().unref();
    for k in it: s.iter()
        invariant
            it.seq().unref() == all,
            all.to_set() == s@,
            all.no_duplicates(),
            ks@.len() == it.index(),
            forall|i: int| 0 <= i < ks@.len() ==> #[trigger] ks@[i] == all[i],
    {
        ks.push(*k);
    }
    proof {
        assert(ks@ =~= all);
    }
    ks
}

/// Appends `Chunk Sizes: (x, y, z)`.
fn push_sizes_line(out: &mut Vec<u8>, chunk_sizes: (usize, usize, usize))
    ensures
        final(out)@ == old(out)@ + sizes_line(chunk_sizes),
{
    push_bytes(out, &[67u8, 104, 117, 110, 107, 32, 83, 105, 122, 101, 115, 58, 32, 40]);
    push_decimal(out, chunk_sizes.0 as u64);
    push_bytes(out, &[44u8, 32]);
    push_decimal(out, chunk_sizes.1 as u64);
    push_bytes(out, &[44u8, 32]);
    push_decimal(out, chunk_sizes.2 as u64);
    push_bytes(out, &[41u8]);
    proof {
        assert(final(out)@ =~= old(out)@ + sizes_line(chunk_sizes));
    }
}

impl FileSystem {
    /// No folders known yet.
    pub fn new() -> (fs: FileSystem)
        ensures
            fs.assets_directory@ == Seq::<char>::empty(),
            fs.my_world_directory@ == Seq::<char>::empty(),
    {
        FileSystem { assets_directory: String::new(), my_world_directory: String::new() }
    }

    /// Records the assets folder and the folder of the world `world_name`,
    /// `data/Worlds/<world_name>` inside it. The files that belong in the
    /// world's folder are those of `new_created_chunks_file`,
    /// `new_world_info_file` and `new_stats_file`, and a `Chunks` folder.
    pub fn check_file_system(&mut self, assets_directory: String, world_name: &String)
        ensures
            final(self).assets_directory@ == assets_directory@,
            final(self).my_world_directory@ == assets_directory@ + "/data/Worlds/"@ + world_name@,
    {
        let mut world_directory: String = assets_directory.clone();
        world_directory.append("/data/Worlds/");
        world_directory.append(world_name.as_str());
        self.assets_directory = assets_directory;
        self.my_world_directory = world_directory;
    }

    /// `check_file_system` under its older name.
    pub fn CheckFileSystem(&mut self, assets_directory: String, world_name: &String)
        ensures
            final(self).assets_directory@ == assets_directory@,
            final(self).my_world_directory@ == assets_directory@ + "/data/Worlds/"@ + world_name@,
    {
        self.check_file_system(assets_directory, world_name)
    }

    /// The text of the file listing the created chunks in a new world.
    pub fn new_created_chunks_file(&self, chunk_sizes: (usize, usize, usize)) -> (text: Vec<u8>)
        ensures
            text@ == new_created_chunks_text(chunk_sizes),
    {
        let mut data: Vec<u8> = Vec::new();
        push_bytes(&mut data, &[84u8, 111, 116, 97, 108, 32, 67, 104, 117, 110, 107, 115, 32, 67, 114, 101, 97, 116, 101, 100, 32, 58, 32]);
        push_decimal(&mut data, 0);
        data.push(10);
        proof {
            lemma_join_lines_push(Seq::empty(), total_label() + decimal(0));
            assert(data@ =~= join_lines(seq![total_label() + decimal(0)]));
        }
        push_sizes_line(&mut data, chunk_sizes);
        data.push(10);
        proof {
            lemma_join_lines_push(seq![total_label() + decimal(0)], sizes_line(chunk_sizes));
            assert(seq![total_label() + decimal(0)].push(sizes_line(chunk_sizes)) =~= seq![total_label() + decimal(0), sizes_line(chunk_sizes)]);
            assert(data@ =~= join_lines(seq![total_label() + decimal(0), sizes_line(chunk_sizes)]));
        }
        push_bytes(&mut data, &[67u8, 114, 101, 97, 116, 101, 100, 32, 67, 104, 117, 110, 107, 115, 58]);
        data.push(10);
        proof {
            lemma_join_lines_push(seq![total_label() + decimal(0), sizes_line(chunk_sizes)], new_created_label());
            assert(seq![total_label() + decimal(0), sizes_line(chunk_sizes)].push(new_created_label()) =~= seq![total_label() + decimal(0), sizes_line(chunk_sizes), new_created_label()]);
            assert(data@ =~= new_created_chunks_text(chunk_sizes));
        }
        data
    }

    /// The text of a new world's info file.
    pub fn new_world_info_file(&self) -> (text: Vec<u8>)
        ensures
            text@ == world_info_text(),
    {
        let mut data: Vec<u8> = Vec::new();
        push_bytes(&mut data, &[73u8, 109, 112, 111, 114, 116, 97, 110, 116, 32, 73, 110, 102, 111, 32, 71, 111, 101, 115, 32, 72, 101, 114, 101, 58, 32, 10]);
        data
    }

    /// The text of a new world's statistics file.
    pub fn new_stats_file(&self) -> (text: Vec<u8>)
        ensures
            text@ == stats_text(),
    {
        let mut data: Vec<u8> = Vec::new();
        push_bytes(&mut data, &[84u8, 105, 109, 101, 83, 112, 101, 110, 116, 58, 32, 48, 10, 68, 105, 115, 116, 97, 110, 99, 101, 84, 114, 97, 118, 101, 108, 108, 101, 100, 58, 32, 48, 10, 66, 108, 111, 99, 107, 115, 80, 108, 97, 99, 101, 100, 58, 32, 48, 10, 66, 108, 111, 99, 107, 115, 68, 101, 115, 116, 114, 111, 121, 101, 100, 58, 32, 48, 10, 68, 101, 97, 116, 104, 115, 58, 32, 48, 10, 68, 97, 109, 97, 103, 101, 84, 97, 107, 101, 110, 58, 32, 48, 10, 68, 97, 109, 97, 103, 101, 68, 101, 108, 116, 58, 32, 48, 10, 77, 111, 98, 115, 75, 105, 108, 108, 101, 100, 58, 32, 48, 10]);
        data
    }

    /// The name of the file a chunk is saved in, inside the world's
    /// `Chunks` folder.
    pub fn chunk_file_name(&self, chunk_id: (i32, i32)) -> (name: Vec<u8>)
        ensures
            name@ == chunk_file_name_of(chunk_id),
    {
        let mut name: Vec<u8> = Vec::new();
        push_signed_decimal(&mut name, chunk_id.0);
        name.push(95);
        push_signed_decimal(&mut name, chunk_id.1);
        push_bytes(&mut name, &[46u8, 116, 120, 116]);
        proof {
            assert(name@ =~= chunk_file_name_of(chunk_id));
        }
        name
    }

    /// The saved text of a chunk that leaves the game: the kinds of its
    /// blocks placed in their cells, air in the cells without a block.
    pub fn save_chunk_to_file(&self, chunk: &Chunk, chunk_sizes: (usize, usize, usize)) -> (text: Vec<u8>)
        requires
            placeable_sizes(chunk_sizes),
            blocks_within_height(chunk.chunk_blocks@, chunk_sizes),
        ensures
            exists|kinds: Seq<Vec<Vec<crate::block_type::BlockType>>>|
                {
                    &&& kinds_have_sizes(kinds, chunk_sizes)
                    &&& forall|x: int, y: int, z: int|
                        in_chunk(chunk_sizes, x, y, z) ==> placed_kind(
                            chunk.chunk_blocks@,
                            chunk_sizes,
                            (x, y, z),
                            #[trigger] kind_at(kinds, x, y, z),
                        )
                    &&& text@ == chunk_text(kinds, chunk_sizes)
                },
    {
        let kinds = chunk_block_types(&chunk.chunk_blocks, chunk_sizes);
        write_chunk_text(&kinds, chunk_sizes)
    }

    /// Reads the saved text of a chunk into its temporary grid: every cell
    /// the text writes takes the kind written; nothing else changes. When
    /// the text is malformed, the grid stays as it was.
    pub fn read_chunks_from_file(
        &self,
        temp_chunk_vec: &mut Vec<Vec<Vec<Block>>>,
        text: &Vec<u8>,
        chunk_sizes: (usize, usize, usize),
    ) -> (r: Result<(), ChunkFileError>)
        requires
            grid_has_sizes(old(temp_chunk_vec)@, chunk_sizes),
        ensures
            r is Ok <==> !chunk_read(text@, chunk_sizes).failed,
            r is Err ==> final(temp_chunk_vec)@ == old(temp_chunk_vec)@,
            r is Ok ==> grid_has_sizes(final(temp_chunk_vec)@, chunk_sizes),
            r is Ok ==> forall|x: int, y: int, z: int|
                in_chunk(chunk_sizes, x, y, z) ==> {
                    let c = #[trigger] cell(final(temp_chunk_vec)@, x, y, z);
                    &&& c == with_kind(cell(old(temp_chunk_vec)@, x, y, z), c.block_type)
                    &&& if chunk_read(text@, chunk_sizes).cells.contains_key((x, y, z)) {
                        crate::block_type::block_id(c.block_type) == chunk_read(text@, chunk_sizes).cells[(
                        x,
                        y,
                        z,
                        )]
                    } else {
                        c == cell(old(temp_chunk_vec)@, x, y, z)
                    }
                },
    {
        match parse_chunk_text(text, chunk_sizes) {
            Ok(writes) => {
                apply_cell_writes(temp_chunk_vec, &writes, chunk_sizes);
                Ok(())
            },
            Err(e) => Err(e),
        }
    }

    /// The saved text of the file listing the created chunks; the set is
    /// emptied as it is written out. The chunks come in the order the set
    /// hands them out.
    pub fn save_created_chunks_file(
        &self,
        created_chunks: &mut HashSet<u64>,
        chunk_sizes: (usize, usize, usize),
    ) -> (text: Vec<u8>)
        ensures
            final(created_chunks)@ == Set::<u64>::empty(),
            exists|ids: Seq<(i32, i32)>|
                lists_keys(ids, old(created_chunks)@) && text@ == created_chunks_text(ids, chunk_sizes),
    {
        let keys: Vec<u64> = set_keys(created_chunks);
        let ghost f = |id: (i32, i32)| id_key(id);
        let mut data: Vec<u8> = Vec::new();
        let ghost l0 = total_label() + decimal(keys@.len());
        push_bytes(&mut data, &[84u8, 111, 116, 97, 108, 32, 67, 104, 117, 110, 107, 115, 32, 67, 114, 101, 97, 116, 101, 100, 32, 58, 32]);
        push_decimal(&mut data, keys.len() as u64);
        data.push(10);
        proof {
            lemma_join_lines_push(Seq::empty(), l0);
            assert(data@ =~= join_lines(seq![l0]));
        }
        push_sizes_line(&mut data, chunk_sizes);
        data.push(10);
        proof {
            lemma_join_lines_push(seq![l0], sizes_line(chunk_sizes));
            assert(seq![l0].push(sizes_line(chunk_sizes)) =~= seq![l0, sizes_line(chunk_sizes)]);
            assert(data@ =~= join_lines(seq![l0, sizes_line(chunk_sizes)]));
        }
        push_bytes(&mut data, &[67u8, 114, 101, 97, 116, 101, 100, 32, 67, 104, 117, 110, 107, 115, 58, 32]);
        data.push(10);
        let ghost header = seq![total_label() + decimal(keys@.len()), sizes_line(chunk_sizes), created_label()];
        proof {
            lemma_join_lines_push(seq![l0, sizes_line(chunk_sizes)], created_label());
            assert(seq![l0, sizes_line(chunk_sizes)].push(created_label()) =~= header);
            assert(header + Seq::<(i32, i32)>::empty().map_values(|id: (i32, i32)| entry_line(id)) =~= header);
        }
        let mut ids: Vec<(i32, i32)> = Vec::new();
        let mut i: usize = 0;
        while i < keys.len()
            invariant
                f == (|id: (i32, i32)| id_key(id)),
                i <= keys@.len(),
                ids@.len() == i,
                ids@.map_values(f) == keys@.take(i as int),
                header == seq![total_label() + decimal(keys@.len()), sizes_line(chunk_sizes), created_label()],
                data@ == join_lines(header + ids@.map_values(|id: (i32, i32)| entry_line(id))),
            decreases keys@.len() - i,
        {
            let id: (i32, i32) = chunk_id_of_key(keys[i]);
            proof {
                lemma_id_keys_injective(id, id);
            }
            let ghost before = data@;
            push_signed_decimal(&mut data, id.0);
            data.push(32);
            push_signed_decimal(&mut data, id.1);
            data.push(10);
            let ghost old_ids = ids@;
            ids.push(id);
            proof {
                let g = |id: (i32, i32)| entry_line(id);
                assert(ids@.map_values(g) =~= old_ids.map_values(g).push(entry_line(id)));
                assert((header + ids@.map_values(g)).drop_last() =~= header + old_ids.map_values(g));
                assert(data@ =~= join_lines(header + ids@.map_values(g)));
                assert(ids@.map_values(f) =~= keys@.take(i + 1));
            }
            i = i + 1;
        }
        proof {
            assert(keys@.take(i as int) =~= keys@);
            assert(lists_keys(ids@, created_chunks@));
            assert(header == seq![total_label() + decimal(ids@.len()), sizes_line(chunk_sizes), created_label()]);
            assert(created_chunks_lines(ids@, chunk_sizes) == header + ids@.map_values(|id: (i32, i32)| entry_line(id)));
            assert(data@ == created_chunks_text(ids@, chunk_sizes));
        }
        created_chunks.clear();
        data
    }
}

/// Reads the file listing the created chunks.
pub fn read_created_chunks(text: &Vec<u8>) -> (r: Result<Vec<(i32, i32)>, CreatedChunksError>)
    ensures
        match created_chunks_read(text@) {
            Some(ids) => r matches Ok(v) && v@ == ids,
            None => r is Err,
        },
{
    let lines: Vec<Vec<u8>> = split_lines(text);
    let ghost ls = text_lines(text@);
    if lines.len() == 0 {
        return Err(CreatedChunksError::Malformed);
    }
    proof {
        assert(lines@[0]@ == ls[0]);
    }
    let words: Vec<Vec<u8>> = match read_words(&lines[0]) {
        Some(w) => w,
        None => {
            return Err(CreatedChunksError::Malformed);
        },
    };
    if words.len() == 0 {
        return Err(CreatedChunksError::Malformed);
    }
    proof {
        assert(words@[words@.len() - 1]@ == text_words(ls[0])->Some_0.last());
    }
    let total: i32 = match parse_i32_word(&words[words.len() - 1]) {
        Some(t) => t,
        None => {
            return Err(CreatedChunksError::Malformed);
        },
    };
    let mut ids: Vec<(i32, i32)> = Vec::new();
    if total <= 0 {
        proof {
            assert(ids@ =~= Seq::<(i32, i32)>::empty());
        }
        return Ok(ids);
    }
    if lines.len() < 3 || lines.len() - 3 < total as usize {
        return Err(CreatedChunksError::Malformed);
    }
    proof {
        assert(created_chunks_read(text@) == (if forall|k: int| 0 <= k < total ==> (#[trigger] created_entry(ls[3 + k])) is Some {
            Some(Seq::new(total as nat, |k: int| created_entry(ls[3 + k])->Some_0))
        } else {
            None
        }));
    }
    let mut i: usize = 0;
    while i < total as usize
        invariant
            ls == text_lines(text@),
            views(lines@) == ls,
            created_chunks_read(text@) == (if forall|k: int| 0 <= k < total ==> (#[trigger] created_entry(ls[3 + k])) is Some {
                Some(Seq::new(total as nat, |k: int| created_entry(ls[3 + k])->Some_0))
            } else {
                None
            }),
            total > 0,
            ls.len() >= 3 + total,
            i <= total,
            ids@.len() == i,
            forall|k: int| 0 <= k < i ==> (#[trigger] created_entry(ls[3 + k])) is Some && ids@[k] == created_entry(ls[3 + k])->Some_0,
        decreases total - i,
    {
        proof {
            assert(lines@[3 + i as int]@ == ls[3 + i]);
        }
        let entry_words: Vec<Vec<u8>> = match read_words(&lines[3 + i]) {
            Some(w) => w,
            None => {
                proof {
                    assert(created_entry(ls[3 + i as int]) is None);
                }
                return Err(CreatedChunksError::Malformed);
            },
        };
        if entry_words.len() < 2 {
            proof {
                assert(created_entry(ls[3 + i as int]) is None);
            }
            return Err(CreatedChunksError::Malformed);
        }
        proof {
            assert(entry_words@[0]@ == text_words(ls[3 + i])->Some_0[0]);
            assert(entry_words@[1]@ == text_words(ls[3 + i])->Some_0[1]);
        }
        let x: i32 = match parse_i32_word(&entry_words[0]) {
            Some(v) => v,
            None => {
                proof {
                    assert(created_entry(ls[3 + i as int]) is None);
                }
                return Err(CreatedChunksError::Malformed);
            },
        };
        let z: i32 = match parse_i32_word(&entry_words[1]) {
            Some(v) => v,
            None => {
                proof {
                    assert(created_entry(ls[3 + i as int]) is None);
                }
                return Err(CreatedChunksError::Malformed);
            },
        };
        ids.push((x, z));
        i = i + 1;
    }
    proof {
        assert(ids@ =~= Seq::new(total as nat, |k: int| created_entry(ls[3 + k])->Some_0));
    }
    Ok(ids)
}

impl World {
    /// Adds every chunk listed in the text of the file listing the created
    /// chunks to the world's created chunks. When the text is malformed,
    /// nothing is added.
    pub fn load_created_chunks_file(&mut self, text: &Vec<u8>) -> (r: Result<(), CreatedChunksError>)
        ensures
            r is Ok <==> created_chunks_read(text@) is Some,
            r is Err ==> *final(self) == *old(self),
            r is Ok ==> final(self).created_chunks@ == old(self).created_chunks@.union(
                created_chunks_read(text@)->Some_0.map_values(|id: (i32, i32)| id_key(id)).to_set(),
            ),
            final(self).chunks == old(self).chunks,
            final(self).world_name == old(self).world_name,
            final(self).world_seed == old(self).world_seed,
            final(self).render_distance == old(self).render_distance,
            final(self).chunk_sizes == old(self).chunk_sizes,
    {
        let ids: Vec<(i32, i32)> = match read_created_chunks(text) {
            Ok(v) => v,
            Err(e) => {
                return Err(e);
            },
        };
        let ghost start = self.created_chunks@;
        let ghost f = |id: (i32, i32)| id_key(id);
        let mut i: usize = 0;
        while i < ids.len()
            invariant
                f == (|id: (i32, i32)| id_key(id)),
                i <= ids@.len(),
                self.created_chunks@ == start.union(ids@.take(i as int).map_values(f).to_set()),
                self.chunks == old(self).chunks,
                self.world_name == old(self).world_name,
                self.world_seed == old(self).world_seed,
                self.render_distance == old(self).render_distance,
                self.chunk_sizes == old(self).chunk_sizes,
            decreases ids@.len() - i,
        {
            let key: u64 = chunk_key_of(ids[i]);
            proof {
                lemma_id_keys_injective(ids@[i as int], ids@[i as int]);
                assert(ids@.take(i + 1).map_values(f) =~= ids@.take(i as int).map_values(f).push(key));
                ids@.take(i as int).map_values(f).lemma_push_to_set_commute(key);
            }
            self.created_chunks.insert(key);
            proof {
                assert(self.created_chunks@ =~= start.union(ids@.take(i + 1).map_values(f).to_set()));
            }
            i = i + 1;
        }
        proof {
            assert(ids@.take(i as int) =~= ids@);
        }
        Ok(())
    }
}

proof fn lemma_decimal_plain(n: nat)
    ensures
        decimal(n).len() >= 1,
        forall|j: int| 0 <= j < decimal(n).len() ==> is_digit(#[trigger] decimal(n)[j]),
{
    lemma_decimal(n);
}

proof fn lemma_signed_decimal_plain(v: int)
    ensures
        signed_decimal(v).len() >= 1,
        forall|j: int| 0 <= j < signed_decimal(v).len() ==> (is_digit(#[trigger] signed_decimal(v)[j]) || signed_decimal(v)[j] == 45),
{
    if v < 0 {
        lemma_decimal((-v) as nat);
        assert forall|j: int| 0 <= j < signed_decimal(v).len() implies (is_digit(#[trigger] signed_decimal(v)[j]) || signed_decimal(v)[j] == 45) by {
            if j > 0 {
                assert(signed_decimal(v)[j] == decimal((-v) as nat)[j - 1]);
            }
        }
    } else {
        lemma_decimal(v as nat);
    }
}

proof fn lemma_entry_line(id: (i32, i32))
    ensures
        created_entry(entry_line(id)) == Some(id),
        forall|j: int| 0 <= j < entry_line(id).len() ==> #[trigger] entry_line(id)[j] != 10,
{
    let a = signed_decimal(id.0 as int);
    let b = signed_decimal(id.1 as int);
    lemma_signed_decimal_plain(id.0 as int);
    lemma_signed_decimal_plain(id.1 as int);
    assert forall|j: int| 0 <= j < a.len() implies !is_space(#[trigger] a[j]) by {
        assert(is_digit(a[j]) || a[j] == 45);
    }
    assert forall|j: int| 0 <= j < b.len() implies !is_space(#[trigger] b[j]) by {
        assert(is_digit(b[j]) || b[j] == 45);
    }
    assert(word_split(Seq::<u8>::empty()) == (Seq::<Seq<u8>>::empty(), false));
    lemma_words_append_word(Seq::<u8>::empty(), a);
    assert(Seq::<u8>::empty() + a =~= a);
    lemma_words_append_space(a, 32);
    lemma_words_append_word(a.push(32), b);
    assert(a.push(32) + b =~= entry_line(id));
    assert(Seq::<Seq<u8>>::empty().push(a).push(b) =~= seq![a, b]);
    lemma_parse_i32_decimal(id.0);
    lemma_parse_i32_decimal(id.1);
    assert forall|j: int| 0 <= j < entry_line(id).len() implies #[trigger] entry_line(id)[j] != 10
        && entry_line(id)[j] < 128 by {
        let t = entry_line(id);
        if j < a.len() {
            assert(t[j] == a[j]);
            assert(is_digit(a[j]) || a[j] == 45);
        } else if j > a.len() {
            assert(t[j] == b[j - a.len() - 1]);
            assert(is_digit(b[j - a.len() - 1]) || b[j - a.len() - 1] == 45);
        }
    }
    lemma_ascii_text(entry_line(id));
}

/// The first line of the list: the label, then the number of chunks.
proof fn lemma_total_line(n: nat)
    ensures
        text_words(total_label() + decimal(n)) == Some(line_words(total_label() + decimal(n))),
{
    let l = total_label() + decimal(n);
    lemma_decimal_plain(n);
    assert forall|j: int| 0 <= j < l.len() implies #[trigger] l[j] < 128 by {
        if j >= total_label().len() {
            assert(l[j] == decimal(n)[j - total_label().len()]);
            assert(is_digit(decimal(n)[j - total_label().len()]));
        }
    }
    lemma_ascii_text(l);
}

/// What a read gives back of a write: reading the saved list of created
/// chunks gives back the chunks in the order they were written.
pub proof fn created_chunks_read_back(ids: Seq<(i32, i32)>, chunk_sizes: (usize, usize, usize))
    requires
        ids.len() <= i32::MAX,
    ensures
        created_chunks_read(created_chunks_text(ids, chunk_sizes)) == Some(ids),
{
    let lines = created_chunks_lines(ids, chunk_sizes);
    let n = ids.len();
    let l0 = total_label() + decimal(n);
    lemma_decimal_plain(n);
    lemma_decimal_plain(chunk_sizes.0 as nat);
    lemma_decimal_plain(chunk_sizes.1 as nat);
    lemma_decimal_plain(chunk_sizes.2 as nat);
    assert forall|i: int, j: int| 0 <= i < lines.len() && 0 <= j < lines[i].len() implies #[trigger] lines[i][j] != 10 by {
        if i == 0 {
            if j >= total_label().len() {
                assert(lines[i][j] == decimal(n)[j - total_label().len()]);
            }
        } else if i == 1 {
            let s = sizes_line(chunk_sizes);
            let d0 = decimal(chunk_sizes.0 as nat);
            let d1 = decimal(chunk_sizes.1 as nat);
            let d2 = decimal(chunk_sizes.2 as nat);
            let p0 = sizes_label().len() as int;
            let p1 = p0 + d0.len();
            let p2 = p1 + 2;
            let p3 = p2 + d1.len();
            let p4 = p3 + 2;
            let p5 = p4 + d2.len();
            if p0 <= j < p1 {
                assert(s[j] == d0[j - p0]);
            } else if p2 <= j < p3 {
                assert(s[j] == d1[j - p2]);
            } else if p4 <= j < p5 {
                assert(s[j] == d2[j - p4]);
            }
        } else if i >= 3 {
            lemma_entry_line(ids[i - 3]);
            assert(lines[i] == entry_line(ids[i - 3]));
        }
    }
    lemma_text_lines_join(lines);
    let ls = text_lines(created_chunks_text(ids, chunk_sizes));
    assert(ls == lines);
    assert(ls[0] == l0);
    lemma_total_line(n);
    let label = total_label();
    assert(label.last() == 32);
    assert(label.drop_last().push(32) =~= label);
    lemma_words_append_space(label.drop_last(), 32);
    assert forall|j: int| 0 <= j < decimal(n).len() implies !is_space(#[trigger] decimal(n)[j]) by {
        assert(is_digit(decimal(n)[j]));
    }
    lemma_words_append_word(label, decimal(n));
    assert(line_words(ls[0]).last() == decimal(n));
    lemma_parse_i32_decimal(n as i32);
    assert(signed_decimal(n as int) == decimal(n));
    if n > 0 {
        assert forall|i: int| 0 <= i < n implies (#[trigger] created_entry(ls[3 + i])) is Some by {
            lemma_entry_line(ids[i]);
            assert(ls[3 + i] == entry_line(ids[i]));
        }
        assert forall|i: int| 0 <= i < n implies created_entry(ls[3 + i])->Some_0 == #[trigger] ids[i] by {
            lemma_entry_line(ids[i]);
            assert(ls[3 + i] == entry_line(ids[i]));
        }
        assert(Seq::new(n, |i: int| created_entry(ls[3 + i])->Some_0) =~= ids);
    } else {
        assert(ids =~= Seq::<(i32, i32)>::empty());
    }
}

/// Saving the created chunks and reading the saved list back gives the
/// same set of chunks.
pub proof fn saved_created_chunks_read_back(ids: Seq<(i32, i32)>, created: Set<u64>, chunk_sizes: (usize, usize, usize))
    requires
        lists_keys(ids, created),
        ids.len() <= i32::MAX,
    ensures
        created_chunks_read(created_chunks_text(ids, chunk_sizes)) is Some,
        created_chunks_read(created_chunks_text(ids, chunk_sizes))->Some_0.map_values(|id: (i32, i32)| id_key(id)).to_set() == created,
{
    created_chunks_read_back(ids, chunk_sizes);
}

/// The list of a new world reads as no chunks at all.
pub proof fn new_created_chunks_read_empty(chunk_sizes: (usize, usize, usize))
    ensures
        created_chunks_read(new_created_chunks_text(chunk_sizes)) == Some(Seq::<(i32, i32)>::empty()),
{
    let lines = seq![total_label() + decimal(0), sizes_line(chunk_sizes), new_created_label()];
    lemma_decimal_plain(0);
    lemma_decimal_plain(chunk_sizes.0 as nat);
    lemma_decimal_plain(chunk_sizes.1 as nat);
    lemma_decimal_plain(chunk_sizes.2 as nat);
    assert forall|i: int, j: int| 0 <= i < lines.len() && 0 <= j < lines[i].len() implies #[trigger] lines[i][j] != 10 by {
        if i == 0 {
            if j >= total_label().len() {
                assert(lines[i][j] == decimal(0)[j - total_label().len()]);
            }
        } else if i == 1 {
            let s = sizes_line(chunk_sizes);
            let d0 = decimal(chunk_sizes.0 as nat);
            let d1 = decimal(chunk_sizes.1 as nat);
            let d2 = decimal(chunk_sizes.2 as nat);
            let p0 = sizes_label().len() as int;
            let p1 = p0 + d0.len();
            let p2 = p1 + 2;
            let p3 = p2 + d1.len();
            let p4 = p3 + 2;
            let p5 = p4 + d2.len();
            if p0 <= j < p1 {
                assert(s[j] == d0[j - p0]);
            } else if p2 <= j < p3 {
                assert(s[j] == d1[j - p2]);
            } else if p4 <= j < p5 {
                assert(s[j] == d2[j - p4]);
            }
        }
    }
    lemma_text_lines_join(lines);
    let ls = text_lines(new_created_chunks_text(chunk_sizes));
    lemma_total_line(0);
    let label = total_label();
    assert(label.drop_last().push(32) =~= label);
    lemma_words_append_space(label.drop_last(), 32);
    assert forall|j: int| 0 <= j < decimal(0).len() implies !is_space(#[trigger] decimal(0)[j]) by {
        assert(is_digit(decimal(0)[j]));
    }
    lemma_words_append_word(label, decimal(0));
    assert(line_words(ls[0]).last() == decimal(0));
    lemma_parse_i32_decimal(0);
}

} // verus!
