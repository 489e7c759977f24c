//! The permutation table behind the gradient noise: seeded shuffle and the
//! integer lattice hashing. The floating-point blending lives with the caller.
use vstd::prelude::*;
use vstd::arithmetic::div_mod::{lemma_add_mod_noop, lemma_mul_mod_noop_left};

verus! {

/// 2^64, the modulus of the 64-bit linear congruential generator.
pub open spec fn m64() -> int {
    0x1_0000_0000_0000_0000
}

/// Knuth's MMIX linear congruential step, modulo 2^64.
pub open spec fn lcg_step(s: u64) -> u64 {
    ((s as int * 6364136223846793005 + 1442695040888963407) % m64()) as u64
}

/// The bytes 0, 1, ..., 255 in order.
pub open spec fn identity_table() -> Seq<u8> {
    Seq::new(256, |i: int| i as u8)
}

/// Table and generator state after `n` steps of the descending Fisher-Yates
/// shuffle: step `n` draws the next generator word `r` and swaps position
/// `i = 256 - n` with position `(r >> 33) % (i + 1)`.
pub open spec fn shuffle_state(seed: u64, n: nat) -> (Seq<u8>, u64)
    decreases n,
{
    if n == 0 {
        (identity_table(), seed)
    } else {
        let prev = shuffle_state(seed, (n - 1) as nat);
        let p = prev.0;
        let i = 256 - n;
        let r = lcg_step(prev.1);
        let j = ((r >> 33u64) as int) % (i + 1);
        (p.update(i, p[j]).update(j, p[i]), r)
    }
}

/// The shuffled 256-entry table for `seed` (all 255 swaps done).
pub open spec fn shuffled(seed: u64) -> Seq<u8> {
    shuffle_state(seed, 255).0
}

/// The 512-entry lookup table: the shuffled table written twice, so that
/// `table[table[x] + z]` never needs a wrap.
pub open spec fn perlin_table(seed: u64) -> Seq<u8> {
    shuffled(seed) + shuffled(seed)
}

/// Byte `v` occurs among the first 256 entries of `p`.
pub open spec fn holds_byte(p: Seq<u8>, v: u8) -> bool {
    exists|i: int| 0 <= i < 256 && p[i] == v
}

/// `p` holds every byte value exactly once.
pub open spec fn is_byte_permutation(p: Seq<u8>) -> bool {
    &&& p.len() == 256
    &&& forall|i: int, j: int| 0 <= i < 256 && 0 <= j < 256 && i != j ==> p[i] != p[j]
    &&& forall|v: u8| #[trigger] holds_byte(p, v)
}

/// A well-formed lookup table: a byte permutation followed by a copy of itself.
pub open spec fn is_valid_table(t: Seq<u8>) -> bool {
    &&& t.len() == 512
    &&& is_byte_permutation(t.subrange(0, 256))
    &&& forall|i: int| 0 <= i < 256 ==> t[i + 256] == #[trigger] t[i]
}

/// Every prefix of the shuffle keeps the table a permutation of the bytes.
pub proof fn lemma_shuffle_is_permutation(seed: u64, n: nat)
    requires
        n <= 255,
    ensures
        is_byte_permutation(shuffle_state(seed, n).0),
    decreases n,
{
    if n == 0 {
        let p = identity_table();
        assert forall|v: u8| #[trigger] holds_byte(p, v) by {
            assert(p[v as int] == v);
        }
    } else {
        lemma_shuffle_is_permutation(seed, (n - 1) as nat);
        let prev = shuffle_state(seed, (n - 1) as nat);
        let p = prev.0;
        let i = 256 - n;
        let r = lcg_step(prev.1);
        let j = ((r >> 33u64) as int) % (i + 1);
        let q = p.update(i, p[j]).update(j, p[i]);
        assert(shuffle_state(seed, n).0 == q);
        assert(0 <= j <= i < 256);
        // The swap only exchanges two entries: q is p composed with the
        // transposition of i and j.
        let tr = |k: int| if k == i { j } else if k == j { i } else { k };
        assert forall|k: int| 0 <= k < 256 implies q[k] == p[tr(k)] by {}
        assert forall|a: int, b: int| 0 <= a < 256 && 0 <= b < 256 && a != b implies q[a] != q[b] by {
            assert(q[a] == p[tr(a)]);
            assert(q[b] == p[tr(b)]);
        }
        assert forall|v: u8| #[trigger] holds_byte(q, v) by {
            assert(holds_byte(p, v));
            let k0 = choose|k: int| 0 <= k < 256 && p[k] == v;
            let k1 = tr(k0);
            assert(q[k1] == p[tr(k1)]);
        }
    }
}

/// Lattice hashes repeat every 256 cells along both axes.
pub proof fn lemma_lattice_hash_periodic(t: Seq<u8>, x: int, z: int)
    ensures
        lattice_hash(t, x + 256, z) == lattice_hash(t, x, z),
        lattice_hash(t, x, z + 256) == lattice_hash(t, x, z),
{
    assert((x + 256) % 256 == x % 256);
    assert((z + 256) % 256 == z % 256);
}

/// Which of the four diagonal gradients a hashed lattice corner uses.
#[derive(Clone, Copy, Debug, PartialEq, Eq)]
pub enum Gradient {
    /// `x + z`
    PlusXPlusZ,
    /// `-x + z`
    MinusXPlusZ,
    /// `x - z`
    PlusXMinusZ,
    /// `-x - z`
    MinusXMinusZ,
}

/// The gradient chosen by the two low bits of a hash.
pub open spec fn gradient_spec(h: u8) -> Gradient {
    if h % 4 == 0 {
        Gradient::PlusXPlusZ
    } else if h % 4 == 1 {
        Gradient::MinusXPlusZ
    } else if h % 4 == 2 {
        Gradient::PlusXMinusZ
    } else {
        Gradient::MinusXMinusZ
    }
}

/// Gradient of a lattice corner, from the low two bits of its hash.
pub fn gradient(h: u8) -> (g: Gradient)
    ensures
        g == gradient_spec(h),
{
    let b = h & 3u8;
    assert(b as int == h % 4) by (bit_vector)
        requires
            b == h & 3u8,
    ;
    if b == 0 {
        Gradient::PlusXPlusZ
    } else if b == 1 {
        Gradient::MinusXPlusZ
    } else if b == 2 {
        Gradient::PlusXMinusZ
    } else {
        Gradient::MinusXMinusZ
    }
}

/// The hashes of the four corners of a lattice cell.
#[derive(Clone, Copy, Debug, PartialEq, Eq)]
pub struct LatticeCorners {
    /// corner (x0, z0)
    pub aa: u8,
    /// corner (x0, z1)
    pub ab: u8,
    /// corner (x1, z0)
    pub ba: u8,
    /// corner (x1, z1)
    pub bb: u8,
}

/// Seeded permutation table for 2D gradient noise.
pub struct Perlin {
    perm: Vec<u8>,
}

impl View for Perlin {
    type V = Seq<u8>;

    closed spec fn view(&self) -> Seq<u8> {
        self.perm@
    }
}

/// Hash of lattice point `(x, z)` (both taken modulo 256) through table `t`.
pub open spec fn lattice_hash(t: Seq<u8>, x: int, z: int) -> u8 {
    t[t[x % 256] as int + z % 256]
}

impl Perlin {
    #[verifier::type_invariant]
    closed spec fn inv(self) -> bool {
        is_valid_table(self.perm@)
    }

    /// Builds the table from `seed`: the bytes 0..=255 shuffled by 255
    /// descending Fisher-Yates swaps driven by a 64-bit LCG, then doubled.
    pub fn new(seed: u64) -> (r: Self)
        ensures
            r@ == perlin_table(seed),
            is_valid_table(r@),
    {
        let mut p: Vec<u8> = Vec::new();
        let mut k: usize = 0;
        while k < 256
            invariant
                k <= 256,
                p@ == identity_table().subrange(0, k as int),
            decreases 256 - k,
        {
            p.push(k as u8);
            k = k + 1;
        }
        assert(p@ == identity_table());
        let mut rng = seed;
        let mut i: usize = 255;
        while i >= 1
            invariant
                i <= 255,
                p@.len() == 256,
                (p@, rng) == shuffle_state(seed, (255 - i) as nat),
            decreases i,
        {
            rng = shuffle_step(&mut p, i, rng, Ghost(seed));
            i = i - 1;
        }
        proof {
            lemma_shuffle_is_permutation(seed, 255);
        }
        let mut perm: Vec<u8> = Vec::new();
        let mut k: usize = 0;
        while k < 512
            invariant
                k <= 512,
                p@.len() == 256,
                forall|t: int| 0 <= t < k ==> #[trigger] perm@[t] == p@[t % 256],
                perm@.len() == k,
            decreases 512 - k,
        {
            perm.push(p[k % 256]);
            k = k + 1;
        }
        assert(perm@ =~= p@ + p@);
        assert(perm@.subrange(0, 256) =~= p@);
        Perlin { perm }
    }

    /// Entry `i` of the 512-entry table.
    pub fn entry(&self, i: usize) -> (r: u8)
        requires
            i < 512,
        ensures
            r == self@[i as int],
    {
        proof {
            use_type_invariant(self);
        }
        self.perm[i]
    }

    /// Hashes of the four corners of the lattice cell whose lower corner is
    /// `(xi, zi)`; coordinates wrap every 256 cells.
    pub fn corners(&self, xi: i32, zi: i32) -> (r: LatticeCorners)
        ensures
            r.aa == lattice_hash(self@, xi as int, zi as int),
            r.ab == lattice_hash(self@, xi as int, zi + 1),
            r.ba == lattice_hash(self@, xi + 1, zi as int),
            r.bb == lattice_hash(self@, xi + 1, zi + 1),
    {
        proof {
            use_type_invariant(self);
        }
        let x0 = low_byte(xi);
        let x1 = low_byte_next(xi);
        let z0 = low_byte(zi);
        let z1 = low_byte_next(zi);
        let px0 = self.perm[x0] as usize;
        let px1 = self.perm[x1] as usize;
        LatticeCorners {
            aa: self.perm[px0 + z0],
            ab: self.perm[px0 + z1],
            ba: self.perm[px1 + z0],
            bb: self.perm[px1 + z1],
        }
    }
}

/// Performs step `256 - i` of the shuffle on `p` and returns the new
/// generator state.
fn shuffle_step(p: &mut Vec<u8>, i: usize, rng: u64, Ghost(seed): Ghost<u64>) -> (r: u64)
    requires
        1 <= i <= 255,
        old(p)@.len() == 256,
        (old(p)@, rng) == shuffle_state(seed, (255 - i) as nat),
    ensures
        final(p)@.len() == 256,
        (final(p)@, r) == shuffle_state(seed, (256 - i) as nat),
{
    let ghost prev = p@;
    let r = lcg_next(rng);
    let hi = r >> 33u64;
    assert(hi < 0x8000_0000u64) by (bit_vector)
        requires
            hi == r >> 33u64,
    ;
    let j = (hi as usize) % (i + 1);
    let a = p[i];
    let b = p[j];
    p.set(i, b);
    p.set(j, a);
    proof {
        lemma_shuffle_unfold(seed, (256 - i) as nat);
        assert(p@ =~= prev.update(i as int, prev[j as int]).update(j as int, prev[i as int]));
    }
    r
}

proof fn lemma_shuffle_unfold(seed: u64, n: nat)
    requires
        n >= 1,
    ensures
        shuffle_state(seed, n) == ({
            let prev = shuffle_state(seed, (n - 1) as nat);
            let i = 256 - n;
            let r = lcg_step(prev.1);
            let j = ((r >> 33u64) as int) % (i + 1);
            (prev.0.update(i, prev.0[j]).update(j, prev.0[i]), r)
        }),
{
}

/// One step of the 64-bit LCG.
fn lcg_next(s: u64) -> (r: u64)
    ensures
        r == lcg_step(s),
{
    let m = s.wrapping_mul(6364136223846793005u64);
    proof {
        lemma_mul_mod_noop_left(s as int, 6364136223846793005, m64());
        lemma_add_mod_noop(s as int * 6364136223846793005, 1442695040888963407, m64());
    }
    m.wrapping_add(1442695040888963407u64)
}

/// `x mod 256` as an index, for any `x` including negative ones.
fn low_byte(x: i32) -> (r: usize)
    ensures
        r as int == x as int % 256,
        r < 256,
{
    let b = x & 255i32;
    assert(b as int == (x as int) % 256 && 0 <= b < 256) by (bit_vector)
        requires
            b == x & 255i32,
    ;
    b as usize
}

/// `(x + 1) mod 256` as an index, without overflowing at `i32::MAX`.
fn low_byte_next(x: i32) -> (r: usize)
    ensures
        r as int == (x + 1) % 256,
        r < 256,
{
    let b = low_byte(x);
    proof {
        lemma_add_mod_noop(x as int, 1, 256);
    }
    if b == 255 {
        0
    } else {
        b + 1
    }
}

} // verus!
