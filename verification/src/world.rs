//! The world: the chunks that are loaded, the chunks that were ever
//! created, and which chunks belong around the player.
use vstd::prelude::*;
use std::collections::{HashMap, HashSet, VecDeque};
use crate::chunk::Chunk;
use crate::character::Character;
use crate::keys::{chunk_key, chunk_key_of, chunk_id_of_key, lemma_chunk_key_injective};
use vstd::std_specs::iter::IteratorSpec;

verus! {

broadcast use vstd::std_specs::hash::group_hash_axioms;

/// The chunks of the world and its settings. Both collections are keyed by
/// the key of a chunk id (see `keys`).
pub struct World {
    /// The chunks that are loaded.
    pub chunks: HashMap<u64, Chunk>,
    /// Every chunk that was ever created, and so has a file.
    pub created_chunks: HashSet<u64>,
    pub world_name: String,
    pub world_seed: u64,
    /// Radius, in chunks, of the diamond of chunks kept around the player.
    pub render_distance: usize,
    pub chunk_sizes: (usize, usize, usize),
}

/// The key of a chunk id.
pub open spec fn id_key(id: (i32, i32)) -> u64 {
    chunk_key(id.0 as int, id.1 as int) as u64
}

pub open spec fn abs(a: int) -> int {
    if a < 0 {
        -a
    } else {
        a
    }
}

/// The chunks whose distance to `centre`, counted in steps along x and z,
/// is at most `radius`: a diamond around the centre.
pub open spec fn render_area(centre: (i32, i32), radius: int) -> Set<(i32, i32)> {
    Set::new(|id: (i32, i32)| abs(id.0 - centre.0) + abs(id.1 - centre.1) <= radius)
}

/// The number of chunks in a diamond of this radius.
pub open spec fn render_area_size(radius: int) -> int {
    2 * radius * radius + 2 * radius + 1
}

/// Every chunk id of the diamond, and the bounds the walk over it
/// computes, fit `i32`.
pub open spec fn render_area_fits(centre: (i32, i32), radius: int) -> bool {
    &&& 0 <= radius
    &&& radius + 1 <= i32::MAX
    &&& i32::MIN <= centre.0 - radius
    &&& centre.0 + radius + 1 <= i32::MAX
    &&& i32::MIN <= centre.1 - radius
    &&& centre.1 + radius <= i32::MAX
}

/// The ids of the diamond in the rows `|z - centre.z| < rows`, and in row
/// `rows` those with `x < next_x`.
pub open spec fn rows_walked(
    centre: (i32, i32),
    radius: int,
    rows: int,
    next_x: int,
) -> Set<(i32, i32)> {
    render_area(centre, radius).filter(
        |id: (i32, i32)|
            abs(id.1 - centre.1) < rows || (abs(id.1 - centre.1) == rows && id.0 < next_x),
    )
}

/// The number of ids in the first `rows` rows of the diamond.
pub open spec fn rows_walked_size(radius: int, rows: int) -> int {
    if rows == 0 {
        0
    } else {
        (2 * radius + 1) * (2 * rows - 1) - 2 * (rows - 1) * rows
    }
}

proof fn lemma_push_no_duplicates(s: Seq<(i32, i32)>, e: (i32, i32))
    requires
        s.no_duplicates(),
        !s.to_set().contains(e),
    ensures
        s.push(e).no_duplicates(),
        s.push(e).to_set() == s.to_set().insert(e),
{
    s.lemma_push_to_set_commute(e);
    assert forall|i: int, j: int| 0 <= i < s.push(e).len() && 0 <= j < s.push(e).len() && i != j
        implies s.push(e)[i] != s.push(e)[j] by {
        if i < s.len() && j < s.len() {
        } else if i < s.len() {
            assert(s.contains(s[i]));
        } else {
            assert(s.contains(s[j]));
        }
    }
}

proof fn lemma_rows_size_step(radius: int, rows: int)
    requires
        0 <= rows <= radius,
    ensures
        rows == 0 ==> rows_walked_size(radius, 1) == 2 * radius + 1,
        rows >= 1 ==> rows_walked_size(radius, rows + 1) == rows_walked_size(radius, rows) + 2 * (2
            * (radius - rows) + 1),
        rows_walked_size(radius, radius + 1) == render_area_size(radius),
{
    assert(rows >= 1 ==> (2 * radius + 1) * (2 * (rows + 1) - 1) - 2 * rows * (rows + 1) == (2
        * radius + 1) * (2 * rows - 1) - 2 * (rows - 1) * rows + 2 * (2 * (radius - rows) + 1))
        by (nonlinear_arith);
    assert((2 * radius + 1) * (2 * 1 - 1) - 2 * (1 - 1) * 1 == 2 * radius + 1) by (nonlinear_arith);
    assert((2 * radius + 1) * (2 * (radius + 1) - 1) - 2 * radius * (radius + 1) == 2 * radius
        * radius + 2 * radius + 1) by (nonlinear_arith);
}

/// The first `radius + 1` rows make up the whole diamond.
pub(crate) proof fn lemma_rows_size(radius: int)
    requires
        0 <= radius,
    ensures
        rows_walked_size(radius, radius + 1) == render_area_size(radius),
{
    lemma_rows_size_step(radius, 0);
}

/// Appends row `centre.z` of the diamond: the ids `x` from
/// `centre.x - radius` to `centre.x + radius`.
pub(crate) fn push_centre_row(chunks_to_load: &mut Vec<(i32, i32)>, centre: (i32, i32), radius: i32)
    requires
        render_area_fits(centre, radius as int),
        old(chunks_to_load)@.len() == 0,
    ensures
        final(chunks_to_load)@.no_duplicates(),
        final(chunks_to_load)@.to_set() == rows_walked(centre, radius as int, 1, i32::MIN as int),
        final(chunks_to_load)@.len() == rows_walked_size(radius as int, 1),
{
    let ghost r: int = radius as int;
    let mut chunk_x: i32 = centre.0 - radius;
    proof {
        assert(chunks_to_load@.to_set() =~= rows_walked(centre, r, 0, chunk_x as int));
    }
    while chunk_x < centre.0 + radius + 1
        invariant
            render_area_fits(centre, r),
            r == radius,
            centre.0 - radius <= chunk_x <= centre.0 + radius + 1,
            chunks_to_load@.no_duplicates(),
            chunks_to_load@.to_set() == rows_walked(centre, r, 0, chunk_x as int),
            chunks_to_load@.len() == chunk_x - (centre.0 - radius),
        decreases centre.0 + radius + 1 - chunk_x,
    {
        let id: (i32, i32) = (chunk_x, centre.1);
        proof {
            lemma_push_no_duplicates(chunks_to_load@, id);
        }
        chunks_to_load.push(id);
        proof {
            assert(chunks_to_load@.to_set() =~= rows_walked(centre, r, 0, chunk_x + 1));
        }
        chunk_x = chunk_x + 1;
    }
    proof {
        lemma_rows_size_step(r, 0);
        assert(rows_walked(centre, r, 0, chunk_x as int) =~= rows_walked(
            centre,
            r,
            1,
            i32::MIN as int,
        ));
    }
}

/// Appends rows `centre.z + rows` and `centre.z - rows` of the diamond,
/// `x` by `x`, each `x` above before below.
pub(crate) fn push_row_pair(chunks_to_load: &mut Vec<(i32, i32)>, centre: (i32, i32), radius: i32, rows: i32)
    requires
        render_area_fits(centre, radius as int),
        1 <= rows <= radius,
        old(chunks_to_load)@.no_duplicates(),
        old(chunks_to_load)@.to_set() == rows_walked(
            centre,
            radius as int,
            rows as int,
            i32::MIN as int,
        ),
        old(chunks_to_load)@.len() == rows_walked_size(radius as int, rows as int),
    ensures
        final(chunks_to_load)@.no_duplicates(),
        final(chunks_to_load)@.to_set() == rows_walked(
            centre,
            radius as int,
            rows + 1,
            i32::MIN as int,
        ),
        final(chunks_to_load)@.len() == rows_walked_size(radius as int, rows + 1),
{
    let ghost r: int = radius as int;
    let current_radius: i32 = radius - rows;
    let mut chunk_x: i32 = centre.0 - current_radius;
    proof {
        assert(rows_walked(centre, r, rows as int, i32::MIN as int) =~= rows_walked(
            centre,
            r,
            rows as int,
            chunk_x as int,
        ));
    }
    while chunk_x < centre.0 + current_radius + 1
        invariant
            render_area_fits(centre, r),
            r == radius,
            1 <= rows <= radius,
            current_radius == radius - rows,
            centre.0 - current_radius <= chunk_x <= centre.0 + current_radius + 1,
            chunks_to_load@.no_duplicates(),
            chunks_to_load@.to_set() == rows_walked(centre, r, rows as int, chunk_x as int),
            chunks_to_load@.len() == rows_walked_size(r, rows as int) + 2 * (chunk_x - (centre.0
                - current_radius)),
        decreases centre.0 + current_radius + 1 - chunk_x,
    {
        let up: (i32, i32) = (chunk_x, centre.1 + rows);
        let down: (i32, i32) = (chunk_x, centre.1 - rows);
        proof {
            lemma_push_no_duplicates(chunks_to_load@, up);
            lemma_push_no_duplicates(chunks_to_load@.push(up), down);
        }
        chunks_to_load.push(up);
        chunks_to_load.push(down);
        proof {
            assert(chunks_to_load@.to_set() =~= rows_walked(centre, r, rows as int, chunk_x + 1));
        }
        chunk_x = chunk_x + 1;
    }
    proof {
        lemma_rows_size_step(r, rows as int);
        assert(rows_walked(centre, r, rows as int, chunk_x as int) =~= rows_walked(
            centre,
            r,
            rows + 1,
            i32::MIN as int,
        ));
    }
}

/// The chunk ids of the diamond of radius `radius` around `centre`, each
/// once, row `centre.z` first, then rows at distance 1, 2, ... from it.
pub(crate) fn chunks_in_render_area(centre: (i32, i32), radius: i32) -> (chunks_to_load: Vec<(i32, i32)>)
    requires
        render_area_fits(centre, radius as int),
    ensures
        chunks_to_load@.no_duplicates(),
        chunks_to_load@.to_set() == render_area(centre, radius as int),
        chunks_to_load@.len() == render_area_size(radius as int),
{
    let mut chunks_to_load: Vec<(i32, i32)> = Vec::new();
    let mut chunk_z_diff: i32 = 0;
    while chunk_z_diff < radius + 1
        invariant
            render_area_fits(centre, radius as int),
            0 <= chunk_z_diff <= radius + 1,
            chunks_to_load@.no_duplicates(),
            chunks_to_load@.to_set() == rows_walked(
                centre,
                radius as int,
                chunk_z_diff as int,
                i32::MIN as int,
            ),
            chunks_to_load@.len() == rows_walked_size(radius as int, chunk_z_diff as int),
        decreases radius + 1 - chunk_z_diff,
    {
        if chunk_z_diff == 0 {
            push_centre_row(&mut chunks_to_load, centre, radius);
        } else {
            push_row_pair(&mut chunks_to_load, centre, radius, chunk_z_diff);
        }
        chunk_z_diff = chunk_z_diff + 1;
    }
    proof {
        lemma_rows_size_step(radius as int, 0);
        assert(rows_walked(centre, radius as int, radius + 1, i32::MIN as int) =~= render_area(
            centre,
            radius as int,
        ));
    }
    chunks_to_load
}

/// The keys of a list of chunk ids.
pub open spec fn ids_keys(ids: Seq<(i32, i32)>) -> Set<u64> {
    ids.map_values(|id: (i32, i32)| id_key(id)).to_set()
}

/// The chunks of `ids` that are not loaded, in the order of `ids`.
pub open spec fn chunks_to_load_now(loaded: Set<u64>, ids: Seq<(i32, i32)>) -> Seq<(i32, i32)> {
    ids.filter(|id: (i32, i32)| !loaded.contains(id_key(id)))
}

/// The keys of the loaded chunks that `ids` does not hold.
pub open spec fn chunks_to_unload(loaded: Set<u64>, ids: Seq<(i32, i32)>) -> Set<u64> {
    loaded.filter(|k: u64| !ids_keys(ids).contains(k))
}

/// `unload` lists the chunks with keys `keys`, each once, in some order.
pub open spec fn lists_chunk_ids(unload: Seq<(i32, i32)>, keys: Set<u64>) -> bool {
    &&& unload.map_values(|id: (i32, i32)| id_key(id)).no_duplicates()
    &&& unload.map_values(|id: (i32, i32)| id_key(id)).to_set() == keys
}

/// The entries queued for loading: each chunk to load, paired with the
/// chunk to unload in its place while there is one.
pub open spec fn load_queue_entries(load: Seq<(i32, i32)>, unload: Seq<(i32, i32)>) -> Seq<
    ((i32, i32), Option<(i32, i32)>),
> {
    Seq::new(
        load.len(),
        |i: int|
            (load[i], if i < unload.len() {
                Some(unload[i])
            } else {
                None
            }),
    )
}

/// `ks` lists the keys of `m`, each once, and `values` the values under them.
pub open spec fn lists_entries<V>(m: Map<u64, V>, ks: Seq<u64>, values: Seq<V>) -> bool {
    &&& ks.no_duplicates()
    &&& ks.to_set() == m.dom()
    &&& ks.len() == values.len()
    &&& forall|i: int| 0 <= i < ks.len() ==> #[trigger] values[i] == m[ks[i]]
}

/// No more loaded chunks leave the area `wanted` than chunks of it enter:
/// each chunk unloaded can be paired with one loaded in its place.
pub open spec fn unloads_fit(loaded: Set<u64>, wanted: Set<(i32, i32)>) -> bool {
    loaded.filter(|k: u64| !wanted.map(|id: (i32, i32)| id_key(id)).contains(k)).len()
        <= wanted.filter(|id: (i32, i32)| !loaded.contains(id_key(id))).len()
}

/// The chunks of a list without repeats that are not loaded are as many as
/// those of its set.
proof fn lemma_filter_no_dup_len(ids: Seq<(i32, i32)>, p: spec_fn((i32, i32)) -> bool)
    requires
        ids.no_duplicates(),
    ensures
        ids.filter(p).len() == ids.to_set().filter(p).len(),
    decreases ids.len(),
{
    if ids.len() == 0 {
        assert(ids.to_set().filter(p) =~= Set::empty());
        assert(ids.filter(p) =~= Seq::empty());
    } else {
        let s = ids.drop_last();
        let e = ids.last();
        assert(ids =~= s.push(e));
        assert(s.no_duplicates());
        lemma_filter_no_dup_len(s, p);
        s.lemma_filter_push(e, p);
        s.lemma_push_to_set_commute(e);
        assert(!s.to_set().contains(e)) by {
            if s.to_set().contains(e) {
                let i = choose|i: int| 0 <= i < s.len() && s[i] == e;
                assert(ids[i] == ids[ids.len() - 1]);
            }
        }
        vstd::seq_lib::seq_to_set_is_finite(s);
        if p(e) {
            assert(ids.to_set().filter(p) =~= s.to_set().filter(p).insert(e));
        } else {
            assert(ids.to_set().filter(p) =~= s.to_set().filter(p));
        }
    }
}

/// For a list of chunk ids without repeats, whether the unloads fit the
/// loads depends only on its set.
proof fn lemma_unloads_fit(loaded: Set<u64>, ids: Seq<(i32, i32)>)
    requires
        ids.no_duplicates(),
    ensures
        unloads_fit(loaded, ids.to_set()) <==> chunks_to_unload(loaded, ids).len()
            <= chunks_to_load_now(loaded, ids).len(),
{
    let f = |id: (i32, i32)| id_key(id);
    ids.lemma_to_set_map_commutes(f);
    assert(chunks_to_unload(loaded, ids) =~= loaded.filter(
        |k: u64| !ids.to_set().map(|id: (i32, i32)| id_key(id)).contains(k),
    ));
    lemma_filter_no_dup_len(ids, |id: (i32, i32)| !loaded.contains(id_key(id)));
}

/// The keys of a map, each once.
pub fn map_keys<V>(m: &HashMap<u64, V>) -> (ks: Vec<u64>)
    ensures
        ks@.no_duplicates(),
        ks@.to_set() == m@.dom(),
{
    let mut ks: Vec<u64> = Vec::new();
    let ghost all: Seq<u64> = m.keys().remaining().unref();
    for k in it: m.keys()
        invariant
            it.seq().unref() == all,
            all.to_set() == m@.dom(),
            all.no_duplicates(),
            ks@.len() == it.index(),
            forall|i: int| 0 <= i < ks@.len() ==> #[trigger] ks@[i] == all[i],
    {
        ks.push(*k);
    }
    proof {
        assert(ks@ =~= all);
    }
    ks
}

/// Removes the chunk with id `chunk_id` from the loaded chunks and hands it
/// back, to be saved; `None` when it is not loaded.
pub fn remove_chunk(chunks: &mut HashMap<u64, Chunk>, chunk_id: (i32, i32)) -> (removed: Option<
    Chunk,
>)
    ensures
        final(chunks)@ == old(chunks)@.remove(id_key(chunk_id)),
        match removed {
            Some(c) => old(chunks)@.contains_key(id_key(chunk_id)) && c == old(chunks)@[id_key(
                chunk_id,
            )],
            None => !old(chunks)@.contains_key(id_key(chunk_id)),
        },
{
    let key: u64 = chunk_key_of(chunk_id);
    chunks.remove(&key)
}

/// Removes every loaded chunk and hands them all back, to be saved.
pub fn unload_all_chunks(chunks: &mut HashMap<u64, Chunk>) -> (removed: Vec<Chunk>)
    ensures
        final(chunks)@ == Map::<u64, Chunk>::empty(),
        exists|ks: Seq<u64>| lists_entries(old(chunks)@, ks, removed@),
{
    let ghost start = chunks@;
    let hashmap_chunk_keys: Vec<u64> = map_keys(chunks);
    let mut removed: Vec<Chunk> = Vec::new();
    let mut i: usize = 0;
    while i < hashmap_chunk_keys.len()
        invariant
            hashmap_chunk_keys@.no_duplicates(),
            hashmap_chunk_keys@.to_set() == start.dom(),
            i <= hashmap_chunk_keys@.len(),
            removed@.len() == i,
            forall|j: int| 0 <= j < i ==> #[trigger] removed@[j] == start[hashmap_chunk_keys@[j]],
            chunks@ == start.remove_keys(hashmap_chunk_keys@.take(i as int).to_set()),
        decreases hashmap_chunk_keys@.len() - i,
    {
        let key: u64 = hashmap_chunk_keys[i];
        proof {
            assert(hashmap_chunk_keys@.to_set().contains(key));
            assert(!hashmap_chunk_keys@.take(i as int).to_set().contains(key));
            assert(hashmap_chunk_keys@.take(i + 1) =~= hashmap_chunk_keys@.take(i as int).push(key));
            hashmap_chunk_keys@.take(i as int).lemma_push_to_set_commute(key);
        }
        let chunk: Option<Chunk> = chunks.remove(&key);
        removed.push(chunk.unwrap());
        proof {
            assert(chunks@ =~= start.remove_keys(hashmap_chunk_keys@.take(i + 1).to_set()));
        }
        i = i + 1;
    }
    proof {
        assert(hashmap_chunk_keys@.take(i as int) =~= hashmap_chunk_keys@);
        assert(chunks@ =~= Map::<u64, Chunk>::empty());
        assert(lists_entries(start, hashmap_chunk_keys@, removed@));
    }
    removed
}

pub proof fn lemma_id_keys_injective(a: (i32, i32), b: (i32, i32))
    ensures
        id_key(a) == chunk_key(a.0 as int, a.1 as int),
        id_key(a) == id_key(b) ==> a == b,
{
    lemma_chunk_key_injective(a.0, a.1, b.0, b.1);
    lemma_chunk_key_injective(b.0, b.1, a.0, a.1);
}

/// The keys of a list of chunk ids, as a set.
fn keys_of_ids(ids: &Vec<(i32, i32)>) -> (keys: HashSet<u64>)
    ensures
        keys@ == ids_keys(ids@),
{
    let mut keys: HashSet<u64> = HashSet::new();
    let mut i: usize = 0;
    while i < ids.len()
        invariant
            i <= ids@.len(),
            keys@ == ids_keys(ids@.take(i as int)),
        decreases ids@.len() - i,
    {
        let k: u64 = chunk_key_of(ids[i]);
        proof {
            lemma_id_keys_injective(ids@[i as int], ids@[i as int]);
            let f = |id: (i32, i32)| id_key(id);
            assert(ids@.take(i + 1).map_values(f) =~= ids@.take(i as int).map_values(f).push(
                id_key(ids@[i as int]),
            ));
            ids@.take(i as int).map_values(f).lemma_push_to_set_commute(id_key(ids@[i as int]));
        }
        keys.insert(k);
        i = i + 1;
    }
    proof {
        assert(ids@.take(i as int) =~= ids@);
    }
    keys
}

/// Whether the diamond of this radius around `centre` fits `i32`, as
/// listing it requires.
pub fn render_area_fits_check(centre: (i32, i32), radius: usize) -> (ok: bool)
    ensures
        ok == render_area_fits(centre, radius as int),
{
    if radius >= 0x7fff_ffff {
        return false;
    }
    let r: i64 = radius as i64;
    centre.0 as i64 - r >= -0x8000_0000 && centre.0 as i64 + r + 1 <= 0x7fff_ffff && centre.1 as i64 - r
        >= -0x8000_0000 && centre.1 as i64 + r <= 0x7fff_ffff
}

impl World {
    /// A world with no chunks loaded and none created yet.
    pub fn new(
        world_name: String,
        world_seed: u64,
        render_distance: usize,
        chunk_sizes: (usize, usize, usize),
    ) -> (w: World)
        ensures
            w.chunks@ == Map::<u64, Chunk>::empty(),
            w.created_chunks@ == Set::<u64>::empty(),
            w.world_name == world_name,
            w.world_seed == world_seed,
            w.render_distance == render_distance,
            w.chunk_sizes == chunk_sizes,
    {
        World {
            chunks: HashMap::new(),
            created_chunks: HashSet::new(),
            world_name,
            world_seed,
            render_distance,
            chunk_sizes,
        }
    }

    /// The chunks that should be loaded around the player: every chunk at
    /// most `render_distance` steps along x and z away from the player's
    /// chunk, each once.
    pub fn get_chunks_around_character(&self, character: &Character) -> (chunks_to_load: Vec<
        (i32, i32),
    >)
        requires
            render_area_fits(character.chunk_position, self.render_distance as int),
        ensures
            chunks_to_load@.no_duplicates(),
            chunks_to_load@.to_set() == render_area(
                character.chunk_position,
                self.render_distance as int,
            ),
            chunks_to_load@.len() == render_area_size(self.render_distance as int),
    {
        chunks_in_render_area(character.chunk_position, self.render_distance as i32)
    }

    /// The chunks of `chunks_to_load` that are not loaded, in their order
    /// there, and the loaded chunks that are not in `chunks_to_load`, each
    /// once (in the order the map of chunks hands them out).
    fn loads_and_unloads(&self, chunks_to_load: &Vec<(i32, i32)>) -> (r: (Vec<(i32, i32)>, Vec<(i32, i32)>))
        requires
            chunks_to_load@.no_duplicates(),
        ensures
            r.0@ == chunks_to_load_now(self.chunks@.dom(), chunks_to_load@),
            lists_chunk_ids(r.1@, chunks_to_unload(self.chunks@.dom(), chunks_to_load@)),
            r.1@.len() == chunks_to_unload(self.chunks@.dom(), chunks_to_load@).len(),
    {
        let ghost loaded = self.chunks@.dom();
        let ghost ids = chunks_to_load@;
        let ghost load_pred = |id: (i32, i32)| !loaded.contains(id_key(id));
        let ghost unload_pred = |k: u64| !ids_keys(ids).contains(k);
        let ghost f = |id: (i32, i32)| id_key(id);
        let wanted: HashSet<u64> = keys_of_ids(chunks_to_load);

        // the chunks to load, in order
        let mut load: Vec<(i32, i32)> = Vec::new();
        let mut i: usize = 0;
        while i < chunks_to_load.len()
            invariant
                ids == chunks_to_load@,
                loaded == self.chunks@.dom(),
                load_pred == (|id: (i32, i32)| !loaded.contains(id_key(id))),
                i <= ids.len(),
                load@ == ids.take(i as int).filter(load_pred),
            decreases ids.len() - i,
        {
            let id: (i32, i32) = chunks_to_load[i];
            let key: u64 = chunk_key_of(id);
            proof {
                assert(ids.take(i + 1) =~= ids.take(i as int).push(id));
                ids.take(i as int).lemma_filter_push(id, load_pred);
            }
            if !self.chunks.contains_key(&key) {
                load.push(id);
            }
            i = i + 1;
        }
        proof {
            assert(ids.take(i as int) =~= ids);
        }

        // the loaded chunks that are no longer wanted
        let loaded_keys: Vec<u64> = map_keys(&self.chunks);
        let mut unload: Vec<(i32, i32)> = Vec::new();
        let ghost mut unload_keys: Seq<u64> = Seq::empty();
        let mut j: usize = 0;
        while j < loaded_keys.len()
            invariant
                ids == chunks_to_load@,
                loaded == self.chunks@.dom(),
                wanted@ == ids_keys(ids),
                unload_pred == (|k: u64| !ids_keys(ids).contains(k)),
                f == (|id: (i32, i32)| id_key(id)),
                loaded_keys@.no_duplicates(),
                loaded_keys@.to_set() == loaded,
                j <= loaded_keys@.len(),
                unload_keys.no_duplicates(),
                unload_keys.to_set() == loaded_keys@.take(j as int).to_set().filter(unload_pred),
                unload@.map_values(f) == unload_keys,
            decreases loaded_keys@.len() - j,
        {
            let key: u64 = loaded_keys[j];
            proof {
                assert(loaded_keys@.take(j + 1) =~= loaded_keys@.take(j as int).push(key));
                loaded_keys@.take(j as int).lemma_push_to_set_commute(key);
                assert(!loaded_keys@.take(j as int).to_set().contains(key));
            }
            if !wanted.contains(&key) {
                let id: (i32, i32) = chunk_id_of_key(key);
                proof {
                    lemma_id_keys_injective(id, id);
                    assert(!unload_keys.to_set().contains(key));
                    assert forall|a: int, b: int|
                        0 <= a < unload_keys.push(key).len() && 0 <= b < unload_keys.push(
                            key,
                        ).len() && a != b implies unload_keys.push(key)[a] != unload_keys.push(
                        key,
                    )[b] by {
                        if a < unload_keys.len() && b < unload_keys.len() {
                        } else if a < unload_keys.len() {
                            assert(unload_keys.contains(unload_keys[a]));
                        } else {
                            assert(unload_keys.contains(unload_keys[b]));
                        }
                    }
                    unload_keys.lemma_push_to_set_commute(key);
                    unload_keys = unload_keys.push(key);
                    assert(unload_keys.to_set() =~= loaded_keys@.take(j + 1).to_set().filter(
                        unload_pred,
                    ));
                }
                unload.push(id);
                proof {
                    assert(unload@.map_values(f) =~= unload_keys);
                }
            } else {
                proof {
                    assert(unload_keys.to_set() =~= loaded_keys@.take(j + 1).to_set().filter(
                        unload_pred,
                    ));
                }
            }
            j = j + 1;
        }
        proof {
            assert(loaded_keys@.take(j as int) =~= loaded_keys@);
            assert(unload_keys.to_set() =~= chunks_to_unload(loaded, ids));
            unload_keys.unique_seq_to_set();
        }

        (load, unload)
    }

    /// Whether the chunks of `chunks_to_load` can be queued: no more
    /// loaded chunks leave than enter (see `update_chunks_around_character`).
    pub fn unloads_fit_check(&self, chunks_to_load: &Vec<(i32, i32)>) -> (ok: bool)
        requires
            chunks_to_load@.no_duplicates(),
        ensures
            ok == unloads_fit(self.chunks@.dom(), chunks_to_load@.to_set()),
    {
        let (load, unload) = self.loads_and_unloads(chunks_to_load);
        proof {
            lemma_unloads_fit(self.chunks@.dom(), chunks_to_load@);
        }
        unload.len() <= load.len()
    }

    /// Queues the loading of the chunks of `chunks_to_load` that are not
    /// loaded, in their order there. Each is paired with a loaded chunk
    /// that is not in `chunks_to_load`, to be unloaded in its place, while
    /// there are such chunks (they come in the order the map of chunks
    /// hands them out); the rest are paired with `None`. There must not be
    /// more chunks to unload than to load.
    pub fn update_chunks_around_character(
        &self,
        chunks_to_load: &Vec<(i32, i32)>,
        loading_chunks_queue: &mut VecDeque<((i32, i32), Option<(i32, i32)>)>,
    )
        requires
            chunks_to_load@.no_duplicates(),
            unloads_fit(self.chunks@.dom(), chunks_to_load@.to_set()),
        ensures
            exists|unload: Seq<(i32, i32)>|
                {
                    &&& lists_chunk_ids(
                        unload,
                        chunks_to_unload(self.chunks@.dom(), chunks_to_load@),
                    )
                    &&& final(loading_chunks_queue)@ == old(loading_chunks_queue)@
                        + load_queue_entries(
                        chunks_to_load_now(self.chunks@.dom(), chunks_to_load@),
                        unload,
                    )
                },
    {
        let ghost loaded = self.chunks@.dom();
        let ghost ids = chunks_to_load@;
        let (load, unload) = self.loads_and_unloads(chunks_to_load);
        proof {
            lemma_unloads_fit(loaded, ids);
        }

        // pair up loads and unloads
        let ghost start = loading_chunks_queue@;
        let mut k: usize = 0;
        while k < load.len()
            invariant
                k <= load@.len(),
                unload@.len() <= load@.len(),
                loading_chunks_queue@ == start + load_queue_entries(load@, unload@).take(k as int),
            decreases load@.len() - k,
        {
            let load_element: ((i32, i32), Option<(i32, i32)>) = if k < unload.len() {
                (load[k], Some(unload[k]))
            } else {
                (load[k], None)
            };
            loading_chunks_queue.push_back(load_element);
            proof {
                assert(load_queue_entries(load@, unload@).take(k + 1) =~= load_queue_entries(
                    load@,
                    unload@,
                ).take(k as int).push(load_element));
            }
            k = k + 1;
        }
        proof {
            assert(load_queue_entries(load@, unload@).take(k as int) =~= load_queue_entries(
                load@,
                unload@,
            ));
            assert(lists_chunk_ids(unload@, chunks_to_unload(loaded, ids)));
        }
    }

    /// The chunk work of a frame: when the player entered another chunk,
    /// the change is taken note of and the loading of the chunks around
    /// the player is queued (see `update_chunks_around_character`; no more
    /// loaded chunks may leave that area than enter it).
    pub fn update_chunks_if_moved(
        &self,
        character: &mut Character,
        loading_chunks_queue: &mut VecDeque<((i32, i32), Option<(i32, i32)>)>,
    )
        requires
            render_area_fits(old(character).chunk_position, self.render_distance as int),
            old(character).chunk_changed ==> unloads_fit(
                self.chunks@.dom(),
                render_area(old(character).chunk_position, self.render_distance as int),
            ),
        ensures
            final(character).chunk_position == old(character).chunk_position,
            !final(character).chunk_changed,
            !old(character).chunk_changed ==> final(loading_chunks_queue)@ == old(
                loading_chunks_queue,
            )@,
            old(character).chunk_changed ==> exists|chunks_to_load: Seq<(i32, i32)>, unload: Seq<(i32, i32)>|
                {
                    &&& chunks_to_load.no_duplicates()
                    &&& chunks_to_load.to_set() == render_area(
                        old(character).chunk_position,
                        self.render_distance as int,
                    )
                    &&& lists_chunk_ids(
                        unload,
                        chunks_to_unload(self.chunks@.dom(), chunks_to_load),
                    )
                    &&& final(loading_chunks_queue)@ == old(loading_chunks_queue)@
                        + load_queue_entries(
                        chunks_to_load_now(self.chunks@.dom(), chunks_to_load),
                        unload,
                    )
                },
    {
        if character.chunk_changed {
            character.chunk_changed = false;
            let chunks_to_load: Vec<(i32, i32)> = self.get_chunks_around_character(character);
            self.update_chunks_around_character(&chunks_to_load, loading_chunks_queue);
        }
    }

    /// Puts a chunk whose creation is finished in place: first the chunk
    /// `unload_chunk_id` it replaces is removed (and handed back, to be
    /// saved), then the new chunk is recorded as created and inserted.
    pub fn finish_up_chunk(&mut self, chunk: Chunk, unload_chunk_id: Option<(i32, i32)>) -> (removed:
        Option<Chunk>)
        ensures
            final(self).chunks@ == (match unload_chunk_id {
                Some(id) => old(self).chunks@.remove(id_key(id)),
                None => old(self).chunks@,
            }).insert(id_key((chunk.chunk_id_x, chunk.chunk_id_z)), chunk),
            final(self).created_chunks@ == old(self).created_chunks@.insert(
                id_key((chunk.chunk_id_x, chunk.chunk_id_z)),
            ),
            match unload_chunk_id {
                Some(id) => match removed {
                    Some(c) => old(self).chunks@.contains_key(id_key(id)) && c == old(
                        self,
                    ).chunks@[id_key(id)],
                    None => !old(self).chunks@.contains_key(id_key(id)),
                },
                None => removed is None,
            },
            final(self).world_name == old(self).world_name,
            final(self).world_seed == old(self).world_seed,
            final(self).render_distance == old(self).render_distance,
            final(self).chunk_sizes == old(self).chunk_sizes,
    {
        let removed: Option<Chunk> = match unload_chunk_id {
            Some(id) => remove_chunk(&mut self.chunks, id),
            None => None,
        };
        let key: u64 = chunk_key_of((chunk.chunk_id_x, chunk.chunk_id_z));
        self.created_chunks.insert(key);
        self.chunks.insert(key, chunk);
        removed
    }
}

} // verus!
