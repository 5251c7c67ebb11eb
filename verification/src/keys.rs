//! Integer keys for the hash maps of chunks and blocks. A chunk id
//! `(x, z)` and a block position `(x, y, z)` are packed into one unsigned
//! integer, one digit per coordinate, each coordinate shifted to be
//! non-negative; the packing is one to one.
use vstd::prelude::*;
use crate::types::Position;

verus! {

/// The key of the chunk with id `(x, z)`.
pub open spec fn chunk_key(x: int, z: int) -> int {
    (x + 0x8000_0000) * 0x1_0000_0000 + (z + 0x8000_0000)
}

/// The key of the block at `(x, y, z)`.
pub open spec fn block_key(x: int, y: int, z: int) -> int {
    ((x + 0x8000_0000) * 0x1_0000 + (y + 0x8000)) * 0x1_0000_0000 + (z + 0x8000_0000)
}

/// The key of the block at position `p`.
pub open spec fn position_key(p: Position) -> int {
    block_key(p.x as int, p.y as int, p.z as int)
}

/// A number written as `hi * d + lo` with `0 <= lo < d` has exactly one
/// such form.
pub proof fn lemma_digits_unique(hi1: int, lo1: int, hi2: int, lo2: int, d: int)
    requires
        d > 0,
        0 <= lo1 < d,
        0 <= lo2 < d,
        hi1 * d + lo1 == hi2 * d + lo2,
    ensures
        hi1 == hi2,
        lo1 == lo2,
{
    vstd::arithmetic::div_mod::lemma_fundamental_div_mod_converse(hi1 * d + lo1, d, hi1, lo1);
    vstd::arithmetic::div_mod::lemma_fundamental_div_mod_converse(hi2 * d + lo2, d, hi2, lo2);
}

/// Different chunk ids have different keys, and every key lies in `u64`.
pub proof fn lemma_chunk_key_injective(x1: i32, z1: i32, x2: i32, z2: i32)
    ensures
        0 <= chunk_key(x1 as int, z1 as int) <= u64::MAX,
        chunk_key(x1 as int, z1 as int) == chunk_key(x2 as int, z2 as int) ==> x1 == x2 && z1
            == z2,
{
    let a1 = x1 + 0x8000_0000int;
    let b1 = z1 + 0x8000_0000int;
    assert(0 <= a1 * 0x1_0000_0000 + b1 <= u64::MAX) by (nonlinear_arith)
        requires
            0 <= a1 < 0x1_0000_0000,
            0 <= b1 < 0x1_0000_0000,
    ;
    if chunk_key(x1 as int, z1 as int) == chunk_key(x2 as int, z2 as int) {
        lemma_digits_unique(
            a1,
            b1,
            x2 + 0x8000_0000int,
            z2 + 0x8000_0000int,
            0x1_0000_0000,
        );
    }
}

/// Different block positions have different keys, and every key lies in
/// `u128`.
pub proof fn lemma_block_key_injective(p: Position, q: Position)
    ensures
        0 <= position_key(p) < 0x1_0000_0000_0000_0000_0000,
        position_key(p) == position_key(q) ==> p == q,
{
    let a1 = p.x + 0x8000_0000int;
    let c1 = p.y + 0x8000int;
    let b1 = p.z + 0x8000_0000int;
    let a2 = q.x + 0x8000_0000int;
    let c2 = q.y + 0x8000int;
    let b2 = q.z + 0x8000_0000int;
    assert(0 <= a1 * 0x1_0000 + c1 < 0x1_0000_0000_0000) by (nonlinear_arith)
        requires
            0 <= a1 < 0x1_0000_0000,
            0 <= c1 < 0x1_0000,
    ;
    let hi1 = a1 * 0x1_0000 + c1;
    assert(0 <= hi1 * 0x1_0000_0000 + b1 < 0x1_0000_0000_0000_0000_0000) by (nonlinear_arith)
        requires
            0 <= hi1 < 0x1_0000_0000_0000,
            0 <= b1 < 0x1_0000_0000,
    ;
    if position_key(p) == position_key(q) {
        let hi2 = a2 * 0x1_0000 + c2;
        lemma_digits_unique(hi1, b1, hi2, b2, 0x1_0000_0000);
        lemma_digits_unique(a1, c1, a2, c2, 0x1_0000);
    }
}

/// The key of the chunk with id `id`.
pub fn chunk_key_of(id: (i32, i32)) -> (k: u64)
    ensures
        k == chunk_key(id.0 as int, id.1 as int),
{
    proof {
        lemma_chunk_key_injective(id.0, id.1, id.0, id.1);
    }
    let a: u64 = (id.0 as i64 + 0x8000_0000i64) as u64;
    let b: u64 = (id.1 as i64 + 0x8000_0000i64) as u64;
    assert(a * 0x1_0000_0000 + b <= u64::MAX) by (nonlinear_arith)
        requires
            a < 0x1_0000_0000,
            b < 0x1_0000_0000,
    ;
    a * 0x1_0000_0000 + b
}

/// The chunk id that `k` is the key of.
pub fn chunk_id_of_key(k: u64) -> (id: (i32, i32))
    ensures
        chunk_key(id.0 as int, id.1 as int) == k,
{
    let a: u64 = k / 0x1_0000_0000;
    let b: u64 = k % 0x1_0000_0000;
    proof {
        vstd::arithmetic::div_mod::lemma_fundamental_div_mod(k as int, 0x1_0000_0000);
        assert(a < 0x1_0000_0000) by (nonlinear_arith)
            requires
                a == k / 0x1_0000_0000,
                k <= u64::MAX,
        ;
    }
    let x: i32 = (a as i64 - 0x8000_0000i64) as i32;
    let z: i32 = (b as i64 - 0x8000_0000i64) as i32;
    (x, z)
}

/// The key of the block at `p`.
pub fn position_key_of(p: &Position) -> (k: u128)
    ensures
        k == position_key(*p),
{
    proof {
        lemma_block_key_injective(*p, *p);
    }
    let a: u128 = (p.x as i64 + 0x8000_0000i64) as u128;
    let c: u128 = (p.y as i32 + 0x8000i32) as u128;
    let b: u128 = (p.z as i64 + 0x8000_0000i64) as u128;
    assert(a * 0x1_0000 + c < 0x1_0000_0000_0000) by (nonlinear_arith)
        requires
            a < 0x1_0000_0000,
            c < 0x1_0000,
    ;
    let hi: u128 = a * 0x1_0000 + c;
    assert(hi * 0x1_0000_0000 + b < 0x1_0000_0000_0000_0000_0000) by (nonlinear_arith)
        requires
            hi < 0x1_0000_0000_0000,
            b < 0x1_0000_0000,
    ;
    hi * 0x1_0000_0000 + b
}

} // verus!
