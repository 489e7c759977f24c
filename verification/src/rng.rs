//! Integer hashing and xorshift sequences that seed the procedural world:
//! per-chunk erosion droplets, per-cell tree and grass jitter, splash spray.
use vstd::prelude::*;
use vstd::arithmetic::div_mod::{lemma_add_mod_noop, lemma_mul_mod_noop_left};

verus! {

/// 2^32, the modulus of every 32-bit wrapping computation here.
pub open spec fn m32() -> int {
    0x1_0000_0000
}

/// One round of Marsaglia's 32-bit xorshift (shifts 13, 17, 5).
pub open spec fn xorshift32_spec(x: u32) -> u32 {
    let a = x ^ (x << 13u32);
    let b = a ^ (a >> 17u32);
    b ^ (b << 5u32)
}

/// `n` rounds of xorshift starting from `x`.
pub open spec fn xorshift32_iter(x: u32, n: nat) -> u32
    decreases n,
{
    if n == 0 {
        x
    } else {
        xorshift32_spec(xorshift32_iter(x, (n - 1) as nat))
    }
}

/// One round of the 32-bit xorshift generator.
pub fn xorshift32(x: u32) -> (r: u32)
    ensures
        r == xorshift32_spec(x),
{
    let mut s = x;
    s = s ^ (s << 13u32);
    s = s ^ (s >> 17u32);
    s = s ^ (s << 5u32);
    s
}

/// Xorshift maps zero to zero and nothing else to zero: it is a bijection of
/// the 32-bit words that fixes 0.
pub proof fn lemma_xorshift32_zero_iff(x: u32)
    ensures
        (xorshift32_spec(x) == 0) <==> (x == 0),
{
    assert((x ^ (x << 13u32)) == 0u32 <==> x == 0u32) by (bit_vector);
    let a = x ^ (x << 13u32);
    assert((a ^ (a >> 17u32)) == 0u32 <==> a == 0u32) by (bit_vector);
    let b = a ^ (a >> 17u32);
    assert((b ^ (b << 5u32)) == 0u32 <==> b == 0u32) by (bit_vector);
}

proof fn lemma_i32_as_u32(x: i32)
    ensures
        (x as u32) as int == (x as int) % m32(),
{
    assert((x as u32) as int == (x as int) % 0x1_0000_0000int) by (bit_vector);
}

/// The lattice-cell hash shared by tree placement and grass jitter:
/// `ix * 2654435761 + iz * 1013904223` taken modulo 2^32.
pub open spec fn cell_seed_spec(ix: int, iz: int) -> int {
    (ix * 2654435761 + iz * 1013904223) % m32()
}

/// Hash of an integer grid cell, used to seed its deterministic jitter.
pub fn cell_seed(ix: i32, iz: i32) -> (r: u32)
    ensures
        r as int == cell_seed_spec(ix as int, iz as int),
{
    let a = (ix as u32).wrapping_mul(2654435761u32);
    let b = (iz as u32).wrapping_mul(1013904223u32);
    let r = a.wrapping_add(b);
    proof {
        lemma_i32_as_u32(ix);
        lemma_i32_as_u32(iz);
        lemma_mul_mod_noop_left(ix as int, 2654435761, m32());
        lemma_mul_mod_noop_left(iz as int, 1013904223, m32());
        lemma_add_mod_noop(ix * 2654435761, iz * 1013904223, m32());
    }
    r
}

/// Seed of the per-tree shape generator: the position hash
/// `ix * 2654435761 + iz * 2246822519 (mod 2^32)`, stirred by one xorshift
/// round, with zero replaced by one (xorshift never leaves zero).
pub open spec fn tree_seed_spec(ix: u32, iz: u32) -> u32 {
    let h = ((ix as int * 2654435761 + iz as int * 2246822519) % m32()) as u32;
    let s = xorshift32_spec(h);
    if s == 0 {
        1
    } else {
        s
    }
}

/// Seed of the generator that shapes one tree, from its quantised position.
pub fn tree_seed(ix: u32, iz: u32) -> (r: u32)
    ensures
        r == tree_seed_spec(ix, iz),
        r != 0,
{
    let h = ix.wrapping_mul(2654435761u32).wrapping_add(iz.wrapping_mul(2246822519u32));
    proof {
        lemma_mul_mod_noop_left(ix as int, 2654435761, m32());
        lemma_mul_mod_noop_left(iz as int, 2246822519, m32());
        lemma_add_mod_noop(ix * 2654435761, iz * 2246822519, m32());
    }
    let s = xorshift32(h);
    if s == 0 {
        1
    } else {
        s
    }
}

/// A xorshift stream started from a nonzero word never reaches zero, so the
/// generators seeded here never get stuck.
pub proof fn lemma_xorshift32_stream_nonzero(x: u32, n: nat)
    requires
        x != 0,
    ensures
        xorshift32_iter(x, n) != 0,
    decreases n,
{
    if n > 0 {
        lemma_xorshift32_stream_nonzero(x, (n - 1) as nat);
        lemma_xorshift32_zero_iff(xorshift32_iter(x, (n - 1) as nat));
    }
}

/// Seed of the erosion pass of chunk `(cx, cz)`:
/// `cx * 1000003 + cz * 997` taken modulo 2^32.
pub open spec fn erosion_seed_spec(cx: int, cz: int) -> int {
    (cx * 1000003 + cz * 997) % m32()
}

/// Deterministic erosion seed of a chunk, so that a chunk that streams out and
/// back in is eroded the same way.
pub fn erosion_seed(cx: i32, cz: i32) -> (r: u32)
    ensures
        r as int == erosion_seed_spec(cx as int, cz as int),
{
    let a = (cx as u32).wrapping_mul(1000003u32);
    let b = (cz as u32).wrapping_mul(997u32);
    let r = a.wrapping_add(b);
    proof {
        lemma_i32_as_u32(cx);
        lemma_i32_as_u32(cz);
        lemma_mul_mod_noop_left(cx as int, 1000003, m32());
        lemma_mul_mod_noop_left(cz as int, 997, m32());
        lemma_add_mod_noop(cx * 1000003, cz * 997, m32());
    }
    r
}

} // verus!
