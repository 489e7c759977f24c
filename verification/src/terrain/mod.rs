//! Chunked terrain: the noise table, the streaming window of chunks around the
//! player with its GPU slot bookkeeping, and the integer grid logic of erosion
//! and road sampling.
use vstd::prelude::*;
use vstd::set_lib::{lemma_int_range, lemma_len_subset};

pub mod erosion;
pub mod perlin;
pub mod road;

pub use perlin::{Gradient, LatticeCorners, Perlin};

verus! {

/// Quads along one edge of a chunk.
pub const CHUNK_CELLS: usize = 64;

/// Height samples along one edge of a chunk.
pub const CHUNK_VERTS: usize = CHUNK_CELLS + 1;

/// Chunks kept loaded on each side of the centre chunk.
pub const VIEW_RADIUS: i32 = 2;

/// Chunks along one edge of the loaded window.
pub const VIEW_DIAM: i32 = VIEW_RADIUS * 2 + 1;

/// Chunks in the loaded window, and slots in each GPU mesh pool.
pub const MAX_CHUNKS: usize = 25;

/// What the streaming window records about one loaded chunk.
#[derive(Clone, Copy, Debug, PartialEq, Eq)]
pub struct ChunkData {
    /// Slot of the chunk's terrain mesh in the renderer's terrain pool.
    pub mesh_slot: usize,
    /// Slot of the chunk's water mesh in the water pool, if it has water.
    pub water_slot: Option<usize>,
}

/// A loaded chunk and its grid coordinates.
#[derive(Clone, Copy, Debug, PartialEq, Eq)]
pub struct ChunkEntry {
    pub key: (i32, i32),
    pub data: ChunkData,
}

/// `key` lies in the window of chunks kept around `center`.
pub open spec fn in_view(center: (i32, i32), key: (i32, i32)) -> bool {
    &&& center.0 - VIEW_RADIUS <= key.0 <= center.0 + VIEW_RADIUS
    &&& center.1 - VIEW_RADIUS <= key.1 <= center.1 + VIEW_RADIUS
}

/// Some entry of `s` has key `k`.
pub open spec fn has_key(s: Seq<ChunkEntry>, k: (i32, i32)) -> bool {
    exists|i: int| 0 <= i < s.len() && #[trigger] s[i].key == k
}

/// No two entries of `s` share a key.
pub open spec fn keys_distinct(s: Seq<ChunkEntry>) -> bool {
    forall|i: int, j: int| 0 <= i < s.len() && 0 <= j < s.len() && i != j ==> #[trigger] s[i].key != #[trigger] s[j].key
}

/// The entries as a map from chunk coordinates to chunk data.
pub open spec fn entries_map(s: Seq<ChunkEntry>) -> Map<(i32, i32), ChunkData> {
    Map::new(
        |k: (i32, i32)| has_key(s, k),
        |k: (i32, i32)| s[choose|i: int| 0 <= i < s.len() && #[trigger] s[i].key == k].data,
    )
}

/// Number of entries that hold a water slot.
pub open spec fn water_count(s: Seq<ChunkEntry>) -> nat
    decreases s.len(),
{
    if s.len() == 0 {
        0
    } else {
        water_count(s.drop_last()) + if s.last().data.water_slot is Some {
            1nat
        } else {
            0nat
        }
    }
}

/// Slot bookkeeping: the free lists and the slots held by entries are all
/// below `MAX_CHUNKS` and no slot is listed twice, across both.
pub open spec fn slots_disjoint(free_t: Seq<usize>, free_w: Seq<usize>, s: Seq<ChunkEntry>) -> bool {
    &&& forall|a: int| 0 <= a < free_t.len() ==> #[trigger] free_t[a] < MAX_CHUNKS
    &&& forall|a: int, b: int|
        0 <= a < free_t.len() && 0 <= b < free_t.len() && a != b ==> #[trigger] free_t[a] != #[trigger] free_t[b]
    &&& forall|i: int| 0 <= i < s.len() ==> #[trigger] s[i].data.mesh_slot < MAX_CHUNKS
    &&& forall|i: int, j: int|
        0 <= i < s.len() && 0 <= j < s.len() && i != j ==> #[trigger] s[i].data.mesh_slot
            != #[trigger] s[j].data.mesh_slot
    &&& forall|a: int, i: int|
        0 <= a < free_t.len() && 0 <= i < s.len() ==> #[trigger] free_t[a] != #[trigger] s[i].data.mesh_slot
    &&& forall|a: int| 0 <= a < free_w.len() ==> #[trigger] free_w[a] < MAX_CHUNKS
    &&& forall|a: int, b: int|
        0 <= a < free_w.len() && 0 <= b < free_w.len() && a != b ==> #[trigger] free_w[a] != #[trigger] free_w[b]
    &&& forall|i: int|
        0 <= i < s.len() && #[trigger] s[i].data.water_slot is Some ==> s[i].data.water_slot->0 < MAX_CHUNKS
    &&& forall|i: int, j: int|
        0 <= i < s.len() && 0 <= j < s.len() && i != j && s[i].data.water_slot is Some
            && s[j].data.water_slot is Some ==> #[trigger] s[i].data.water_slot != #[trigger] s[j].data.water_slot
    &&& forall|a: int, i: int|
        0 <= a < free_w.len() && 0 <= i < s.len() ==> #[trigger] s[i].data.water_slot != Some(
            #[trigger] free_w[a],
        )
}

/// Slot counts: every slot of each pool is either free or held.
pub open spec fn slots_counted(free_t: Seq<usize>, free_w: Seq<usize>, s: Seq<ChunkEntry>) -> bool {
    &&& free_t.len() + s.len() == MAX_CHUNKS
    &&& free_w.len() + water_count(s) == MAX_CHUNKS
}

/// Position of an in-view key in the row-major order of the window.
pub open spec fn view_index(center: (i32, i32), k: (i32, i32)) -> int {
    (k.1 - center.1 + 2) * 5 + (k.0 - center.0 + 2)
}

/// Appending an entry adds one to the water count exactly when it holds a
/// water slot.
pub proof fn lemma_water_count_push(s: Seq<ChunkEntry>, e: ChunkEntry)
    ensures
        water_count(s.push(e)) == water_count(s) + if e.data.water_slot is Some {
            1nat
        } else {
            0nat
        },
{
    assert(s.push(e).drop_last() =~= s);
}

/// The water count of a concatenation is the sum of the counts.
pub proof fn lemma_water_count_concat(a: Seq<ChunkEntry>, b: Seq<ChunkEntry>)
    ensures
        water_count(a + b) == water_count(a) + water_count(b),
    decreases b.len(),
{
    if b.len() == 0 {
        assert(a + b =~= a);
    } else {
        lemma_water_count_concat(a, b.drop_last());
        assert((a + b).drop_last() =~= a + b.drop_last());
    }
}

/// At most every entry holds water, and fewer than all when one does not.
pub proof fn lemma_water_count_bound(s: Seq<ChunkEntry>)
    ensures
        water_count(s) <= s.len(),
        (exists|i: int| 0 <= i < s.len() && #[trigger] s[i].data.water_slot is None) ==> water_count(s)
            < s.len(),
    decreases s.len(),
{
    if s.len() > 0 {
        lemma_water_count_bound(s.drop_last());
        if exists|i: int| 0 <= i < s.len() && #[trigger] s[i].data.water_slot is None {
            let i = choose|i: int| 0 <= i < s.len() && #[trigger] s[i].data.water_slot is None;
            if i < s.len() - 1 {
                assert(s.drop_last()[i].data.water_slot is None);
            }
        }
    }
}

/// The entry with key `s[i].key` is `s[i]` itself when keys are distinct.
pub proof fn lemma_entries_map_at(s: Seq<ChunkEntry>, i: int)
    requires
        keys_distinct(s),
        0 <= i < s.len(),
    ensures
        entries_map(s).contains_key(s[i].key),
        entries_map(s)[s[i].key] == s[i].data,
{
    let k = s[i].key;
    assert(has_key(s, k));
    let j = choose|j: int| 0 <= j < s.len() && #[trigger] s[j].key == k;
    assert(j == i);
}

/// Two in-view keys with the same window position are the same key.
pub proof fn lemma_view_index_injective(center: (i32, i32), k1: (i32, i32), k2: (i32, i32))
    requires
        in_view(center, k1),
        in_view(center, k2),
        view_index(center, k1) == view_index(center, k2),
    ensures
        k1 == k2,
{
    let a1 = k1.1 - center.1 + 2;
    let b1 = k1.0 - center.0 + 2;
    let a2 = k2.1 - center.1 + 2;
    let b2 = k2.0 - center.0 + 2;
    assert(a1 * 5 + b1 == a2 * 5 + b2);
    assert(a1 == a2 && b1 == b2) by (nonlinear_arith)
        requires
            a1 * 5 + b1 == a2 * 5 + b2,
            0 <= b1 < 5,
            0 <= b2 < 5,
    ;
}

/// With distinct keys, all inside the window and `k` in the window but not
/// among them, at most `MAX_CHUNKS - 1` entries exist.
pub proof fn lemma_view_capacity(center: (i32, i32), s: Seq<ChunkEntry>, k: (i32, i32))
    requires
        keys_distinct(s),
        forall|i: int| 0 <= i < s.len() ==> in_view(center, #[trigger] s[i].key),
        in_view(center, k),
        !has_key(s, k),
    ensures
        s.len() < MAX_CHUNKS,
{
    let idx = s.map_values(|e: ChunkEntry| view_index(center, e.key));
    assert forall|a: int, b: int| 0 <= a < idx.len() && 0 <= b < idx.len() && a != b implies idx[a]
        != idx[b] by {
        assert(s[a].key != s[b].key);
    }
    assert(idx.no_duplicates());
    idx.unique_seq_to_set();
    let range = Set::new(|v: int| 0 <= v < MAX_CHUNKS).remove(view_index(center, k));
    lemma_int_range(0, MAX_CHUNKS as int);
    assert(Set::new(|v: int| 0 <= v < MAX_CHUNKS) =~= vstd::set_lib::set_int_range(0, MAX_CHUNKS as int));
    assert forall|v: int| idx.to_set().contains(v) implies range.contains(v) by {
        let a = choose|a: int| 0 <= a < idx.len() && idx[a] == v;
        assert(idx[a] == view_index(center, s[a].key));
        assert(in_view(center, s[a].key));
        assert(0 <= v < MAX_CHUNKS);
        if v == view_index(center, k) {
            lemma_view_index_injective(center, s[a].key, k);
            assert(s[a].key == k);
            assert(has_key(s, k));
        }
    }
    lemma_len_subset(idx.to_set(), range);
}

/// Terrain slots of the chunks `ks`, in order.
pub open spec fn mesh_slots_of(m: Map<(i32, i32), ChunkData>, ks: Seq<(i32, i32)>) -> Seq<usize> {
    ks.map_values(|k: (i32, i32)| m[k].mesh_slot)
}

/// Water slots of those chunks `ks` that have one, in order.
pub open spec fn water_slots_of(m: Map<(i32, i32), ChunkData>, ks: Seq<(i32, i32)>) -> Seq<usize>
    decreases ks.len(),
{
    if ks.len() == 0 {
        Seq::empty()
    } else {
        water_slots_of(m, ks.drop_last()) + match m[ks.last()].water_slot {
            Some(w) => seq![w],
            None => Seq::empty(),
        }
    }
}

/// The free terrain slots after unloading `removed`: their slots pushed on the
/// free list in unloading order.
pub open spec fn refilled_terrain(free: Seq<usize>, m: Map<(i32, i32), ChunkData>, removed: Seq<(i32, i32)>) -> Seq<usize> {
    free + mesh_slots_of(m, removed)
}

/// `t` occurs in `v`.
spec fn takes_value(v: Seq<int>, t: int) -> bool {
    exists|a: int| 0 <= a < v.len() && v[a] == t
}

/// A strictly increasing sequence drawn from `0 .. n` that takes every value
/// of `0 .. n` is `0, 1, ..., n - 1`.
proof fn lemma_increasing_cover(v: Seq<int>, n: int)
    requires
        0 <= n,
        forall|a: int, b: int| 0 <= a < b < v.len() ==> #[trigger] v[a] < #[trigger] v[b],
        forall|a: int| 0 <= a < v.len() ==> 0 <= #[trigger] v[a] < n,
        forall|t: int| 0 <= t < n ==> #[trigger] takes_value(v, t),
    ensures
        v.len() == n,
        forall|a: int| 0 <= a < v.len() ==> #[trigger] v[a] == a,
{
    lemma_increasing_lower(v, v.len() as int);
    if v.len() > n {
        assert(v[n] >= n);
    }
    lemma_increasing_prefix(v, n, v.len() as int);
    if v.len() < n {
        let t = v.len() as int;
        assert(takes_value(v, t));
        let p = choose|a: int| 0 <= a < v.len() && v[a] == t;
        assert(v[p] == p);
    }
}

proof fn lemma_increasing_prefix(v: Seq<int>, n: int, k: int)
    requires
        0 <= k <= v.len(),
        k <= n,
        forall|a: int, b: int| 0 <= a < b < v.len() ==> #[trigger] v[a] < #[trigger] v[b],
        forall|a: int| 0 <= a < v.len() ==> a <= #[trigger] v[a],
        forall|t: int| 0 <= t < n ==> #[trigger] takes_value(v, t),
    ensures
        forall|a: int| 0 <= a < k ==> #[trigger] v[a] == a,
    decreases k,
{
    if k > 0 {
        lemma_increasing_prefix(v, n, k - 1);
        let t = k - 1;
        assert(takes_value(v, t));
        let p = choose|a: int| 0 <= a < v.len() && v[a] == t;
        if p < t {
            assert(v[p] == p);
        }
        if p > t {
            assert(v[t] < v[p]);
            assert(t <= v[t]);
        }
        assert(p == t);
    }
}

proof fn lemma_increasing_lower(v: Seq<int>, len: int)
    requires
        len == v.len(),
        forall|a: int, b: int| 0 <= a < b < v.len() ==> #[trigger] v[a] < #[trigger] v[b],
        forall|a: int| 0 <= a < v.len() ==> 0 <= #[trigger] v[a],
    ensures
        forall|a: int| 0 <= a < v.len() ==> a <= #[trigger] v[a],
    decreases len,
{
    if len > 0 {
        let w = v.drop_last();
        lemma_increasing_lower(w, len - 1);
        assert forall|a: int| 0 <= a < v.len() implies a <= #[trigger] v[a] by {
            if a < len - 1 {
                assert(w[a] == v[a]);
            } else if a > 0 {
                assert(w[a - 1] == v[a - 1]);
                assert(v[a - 1] < v[a]);
            }
        }
    }
}

/// `center` leaves room for the whole window inside the `i32` range.
pub open spec fn center_in_range(center: (i32, i32)) -> bool {
    &&& i32::MIN + VIEW_RADIUS <= center.0 <= i32::MAX - VIEW_RADIUS
    &&& i32::MIN + VIEW_RADIUS <= center.1 <= i32::MAX - VIEW_RADIUS
}

/// Entries with distinct keys that cover exactly the window are exactly
/// `MAX_CHUNKS` many, and so are the keys of their map.
pub proof fn lemma_window_count(center: (i32, i32), s: Seq<ChunkEntry>)
    requires
        center_in_range(center),
        keys_distinct(s),
        forall|i: int| 0 <= i < s.len() ==> in_view(center, #[trigger] s[i].key),
        forall|k: (i32, i32)| in_view(center, k) ==> has_key(s, k),
    ensures
        s.len() == MAX_CHUNKS,
        entries_map(s).dom().len() == MAX_CHUNKS,
{
    let idx = s.map_values(|e: ChunkEntry| view_index(center, e.key));
    assert forall|a: int, b: int| 0 <= a < idx.len() && 0 <= b < idx.len() && a != b implies idx[a]
        != idx[b] by {
        assert(idx[a] == view_index(center, s[a].key));
        assert(idx[b] == view_index(center, s[b].key));
        assert(in_view(center, s[a].key));
        assert(in_view(center, s[b].key));
        assert(s[a].key != s[b].key);
        if idx[a] == idx[b] {
            lemma_view_index_injective(center, s[a].key, s[b].key);
        }
    }
    idx.unique_seq_to_set();
    let range = vstd::set_lib::set_int_range(0, MAX_CHUNKS as int);
    lemma_int_range(0, MAX_CHUNKS as int);
    assert forall|v: int| idx.to_set().contains(v) <==> range.contains(v) by {
        if idx.to_set().contains(v) {
            let a = choose|a: int| 0 <= a < idx.len() && idx[a] == v;
            assert(idx[a] == view_index(center, s[a].key));
            assert(in_view(center, s[a].key));
        }
        if range.contains(v) {
            let k = ((center.0 + v % 5 - 2) as i32, (center.1 + v / 5 - 2) as i32);
            assert(in_view(center, k));
            assert(view_index(center, k) == v);
            assert(has_key(s, k));
            let a = choose|a: int| 0 <= a < s.len() && #[trigger] s[a].key == k;
            assert(idx[a] == v);
        }
    }
    assert(idx.to_set() =~= range);
    let ks = s.map_values(|e: ChunkEntry| e.key);
    assert forall|a: int, b: int| 0 <= a < ks.len() && 0 <= b < ks.len() && a != b implies ks[a] != ks[b] by {
        assert(s[a].key != s[b].key);
    }
    ks.unique_seq_to_set();
    assert forall|k: (i32, i32)| entries_map(s).dom().contains(k) <==> ks.to_set().contains(k) by {
        if has_key(s, k) {
            let a = choose|a: int| 0 <= a < s.len() && #[trigger] s[a].key == k;
            assert(ks[a] == k);
        }
        if ks.to_set().contains(k) {
            let a = choose|a: int| 0 <= a < ks.len() && ks[a] == k;
            assert(s[a].key == k);
        }
    }
    assert(entries_map(s).dom() =~= ks.to_set());
}

/// The free list after an entry releases its slots.
pub open spec fn release_water(free_w: Seq<usize>, e: ChunkEntry) -> Seq<usize> {
    match e.data.water_slot {
        Some(w) => free_w.push(w),
        None => free_w,
    }
}

/// Dropping entry `e` from between `a` and `b` and pushing its slots back on
/// the free lists keeps the bookkeeping sound.
pub proof fn lemma_release(
    free_t: Seq<usize>,
    free_w: Seq<usize>,
    a: Seq<ChunkEntry>,
    e: ChunkEntry,
    b: Seq<ChunkEntry>,
)
    requires
        slots_disjoint(free_t, free_w, a + seq![e] + b),
        slots_counted(free_t, free_w, a + seq![e] + b),
    ensures
        slots_disjoint(free_t.push(e.data.mesh_slot), release_water(free_w, e), a + b),
        slots_counted(free_t.push(e.data.mesh_slot), release_water(free_w, e), a + b),
{
    let c = a + seq![e] + b;
    let d = a + b;
    let ft = free_t.push(e.data.mesh_slot);
    let fw = release_water(free_w, e);
    let p = a.len() as int;
    assert(c[p] == e);
    // position of d[i] inside c
    assert forall|i: int| 0 <= i < d.len() implies #[trigger] d[i] == c[if i < p {
        i
    } else {
        i + 1
    }] by {}
    assert forall|i: int| 0 <= i < d.len() implies #[trigger] d[i].data.mesh_slot < MAX_CHUNKS by {
        let ci = if i < p { i } else { i + 1 };
        assert(d[i] == c[ci]);
    }
    assert forall|i: int, j: int|
        0 <= i < d.len() && 0 <= j < d.len() && i != j implies #[trigger] d[i].data.mesh_slot
        != #[trigger] d[j].data.mesh_slot by {
        let ci = if i < p { i } else { i + 1 };
        let cj = if j < p { j } else { j + 1 };
        assert(d[i] == c[ci]);
        assert(d[j] == c[cj]);
    }
    assert forall|x: int| 0 <= x < ft.len() implies #[trigger] ft[x] < MAX_CHUNKS by {
        if x == free_t.len() {
            assert(c[p].data.mesh_slot < MAX_CHUNKS);
        }
    }
    assert forall|x: int, y: int|
        0 <= x < ft.len() && 0 <= y < ft.len() && x != y implies #[trigger] ft[x] != #[trigger] ft[y] by {
        if x == free_t.len() {
            assert(free_t[y] != c[p].data.mesh_slot);
        } else if y == free_t.len() {
            assert(free_t[x] != c[p].data.mesh_slot);
        }
    }
    assert forall|x: int, i: int|
        0 <= x < ft.len() && 0 <= i < d.len() implies #[trigger] ft[x] != #[trigger] d[i].data.mesh_slot by {
        let ci = if i < p { i } else { i + 1 };
        assert(d[i] == c[ci]);
        if x == free_t.len() {
            assert(c[p].data.mesh_slot != c[ci].data.mesh_slot);
        }
    }
    assert forall|i: int|
        0 <= i < d.len() && #[trigger] d[i].data.water_slot is Some implies d[i].data.water_slot->0
        < MAX_CHUNKS by {
        let ci = if i < p { i } else { i + 1 };
        assert(d[i] == c[ci]);
    }
    assert forall|i: int, j: int|
        0 <= i < d.len() && 0 <= j < d.len() && i != j && d[i].data.water_slot is Some
            && d[j].data.water_slot is Some implies #[trigger] d[i].data.water_slot
        != #[trigger] d[j].data.water_slot by {
        let ci = if i < p { i } else { i + 1 };
        let cj = if j < p { j } else { j + 1 };
        assert(d[i] == c[ci]);
        assert(d[j] == c[cj]);
    }
    assert forall|x: int| 0 <= x < fw.len() implies #[trigger] fw[x] < MAX_CHUNKS by {
        if x == free_w.len() {
            assert(c[p].data.water_slot is Some);
        }
    }
    assert forall|x: int, y: int|
        0 <= x < fw.len() && 0 <= y < fw.len() && x != y implies #[trigger] fw[x] != #[trigger] fw[y] by {
        if x == free_w.len() {
            assert(c[p].data.water_slot != Some(free_w[y]));
        } else if y == free_w.len() {
            assert(c[p].data.water_slot != Some(free_w[x]));
        }
    }
    assert forall|x: int, i: int|
        0 <= x < fw.len() && 0 <= i < d.len() implies #[trigger] d[i].data.water_slot != Some(
        #[trigger] fw[x],
    ) by {
        let ci = if i < p { i } else { i + 1 };
        assert(d[i] == c[ci]);
        if x == free_w.len() {
            assert(c[p].data.water_slot is Some);
            assert(c[ci].data.water_slot != c[p].data.water_slot);
        }
    }
    lemma_water_count_concat(a + seq![e], b);
    lemma_water_count_concat(a, b);
    lemma_water_count_push(a, e);
    assert(a.push(e) =~= a + seq![e]);
}

/// Loading a new chunk on the top free mesh slot, without water, keeps the
/// bookkeeping sound.
pub proof fn lemma_acquire(free_t: Seq<usize>, free_w: Seq<usize>, s: Seq<ChunkEntry>, key: (i32, i32))
    requires
        slots_disjoint(free_t, free_w, s),
        slots_counted(free_t, free_w, s),
        free_t.len() > 0,
    ensures
        ({
            let e = ChunkEntry {
                key,
                data: ChunkData { mesh_slot: free_t.last(), water_slot: None },
            };
            &&& slots_disjoint(free_t.drop_last(), free_w, s.push(e))
            &&& slots_counted(free_t.drop_last(), free_w, s.push(e))
        }),
{
    let e = ChunkEntry { key, data: ChunkData { mesh_slot: free_t.last(), water_slot: None } };
    let d = s.push(e);
    let ft = free_t.drop_last();
    let last = free_t.len() - 1;
    assert forall|i: int, j: int|
        0 <= i < d.len() && 0 <= j < d.len() && i != j implies #[trigger] d[i].data.mesh_slot
        != #[trigger] d[j].data.mesh_slot by {
        if i == s.len() {
            assert(free_t[last] != s[j].data.mesh_slot);
        } else if j == s.len() {
            assert(free_t[last] != s[i].data.mesh_slot);
        }
    }
    assert forall|x: int, i: int|
        0 <= x < ft.len() && 0 <= i < d.len() implies #[trigger] ft[x] != #[trigger] d[i].data.mesh_slot by {
        assert(ft[x] == free_t[x]);
        if i == s.len() {
            assert(free_t[x] != free_t[last]);
        }
    }
    assert forall|x: int, i: int|
        0 <= x < free_w.len() && 0 <= i < d.len() implies #[trigger] d[i].data.water_slot != Some(
        #[trigger] free_w[x],
    ) by {
        if i < s.len() {
            assert(d[i] == s[i]);
        }
    }
    assert(d[s.len() as int].data.mesh_slot < MAX_CHUNKS) by {
        assert(free_t[last] < MAX_CHUNKS);
    }
    lemma_water_count_push(s, e);
}

/// Giving entry `i` (which has no water) the top free water slot keeps the
/// bookkeeping sound.
pub proof fn lemma_assign_water(free_t: Seq<usize>, free_w: Seq<usize>, s: Seq<ChunkEntry>, i: int)
    requires
        slots_disjoint(free_t, free_w, s),
        slots_counted(free_t, free_w, s),
        0 <= i < s.len(),
        s[i].data.water_slot is None,
        free_w.len() > 0,
    ensures
        ({
            let e = ChunkEntry {
                key: s[i].key,
                data: ChunkData { mesh_slot: s[i].data.mesh_slot, water_slot: Some(free_w.last()) },
            };
            &&& slots_disjoint(free_t, free_w.drop_last(), s.update(i, e))
            &&& slots_counted(free_t, free_w.drop_last(), s.update(i, e))
        }),
{
    let e = ChunkEntry {
        key: s[i].key,
        data: ChunkData { mesh_slot: s[i].data.mesh_slot, water_slot: Some(free_w.last()) },
    };
    let d = s.update(i, e);
    let fw = free_w.drop_last();
    let last = free_w.len() - 1;
    assert forall|a: int, b: int|
        0 <= a < d.len() && 0 <= b < d.len() && a != b && d[a].data.water_slot is Some
            && d[b].data.water_slot is Some implies #[trigger] d[a].data.water_slot
        != #[trigger] d[b].data.water_slot by {
        if a == i {
            assert(s[b].data.water_slot != Some(free_w[last]));
        } else if b == i {
            assert(s[a].data.water_slot != Some(free_w[last]));
        }
    }
    assert forall|x: int, j: int|
        0 <= x < fw.len() && 0 <= j < d.len() implies #[trigger] d[j].data.water_slot != Some(
        #[trigger] fw[x],
    ) by {
        assert(fw[x] == free_w[x]);
        if j == i {
            assert(free_w[x] != free_w[last]);
        }
    }
    assert forall|a: int, b: int|
        0 <= a < d.len() && 0 <= b < d.len() && a != b implies #[trigger] d[a].data.mesh_slot
        != #[trigger] d[b].data.mesh_slot by {
        assert(s[a].data.mesh_slot != s[b].data.mesh_slot);
    }
    assert forall|x: int, j: int|
        0 <= x < free_t.len() && 0 <= j < d.len() implies #[trigger] free_t[x]
        != #[trigger] d[j].data.mesh_slot by {
        assert(free_t[x] != s[j].data.mesh_slot);
    }
    assert(free_w[last] < MAX_CHUNKS);
    // the count of entries with water grows by one
    let pre = s.subrange(0, i);
    let post = s.subrange(i + 1, s.len() as int);
    assert(s =~= pre + seq![s[i]] + post);
    assert(d =~= pre + seq![e] + post);
    lemma_water_count_concat(pre + seq![s[i]], post);
    lemma_water_count_concat(pre + seq![e], post);
    lemma_water_count_push(pre, s[i]);
    lemma_water_count_push(pre, e);
    assert(pre.push(s[i]) =~= pre + seq![s[i]]);
    assert(pre.push(e) =~= pre + seq![e]);
}

/// `k` comes before window offset `(dx, dz)` in row-major order around
/// `center` (rows along z, then columns along x).
pub open spec fn visited_before(center: (i32, i32), k: (i32, i32), dz: int, dx: int) -> bool {
    (k.1 - center.1 < dz) || (k.1 - center.1 == dz && k.0 - center.0 < dx)
}

/// Streams a square window of terrain chunks around the player and hands out
/// slots of the renderer's fixed mesh pools to them.
pub struct TerrainManager {
    /// Noise table every chunk's heights are drawn from.
    pub noise: Perlin,
    chunks: Vec<ChunkEntry>,
    center: (i32, i32),
    free_terrain: Vec<usize>,
    free_water: Vec<usize>,
}

impl View for TerrainManager {
    type V = Map<(i32, i32), ChunkData>;

    /// Loaded chunks by grid coordinates.
    closed spec fn view(&self) -> Map<(i32, i32), ChunkData> {
        entries_map(self.chunks@)
    }
}

impl TerrainManager {
    /// The noise table the chunks are generated from.
    pub closed spec fn noise_table(&self) -> Seq<u8> {
        self.noise@
    }

    /// Free terrain slots; the next chunk loaded takes the last one.
    pub closed spec fn free_terrain_slots(&self) -> Seq<usize> {
        self.free_terrain@
    }

    /// Free water slots; the next chunk given water takes the last one.
    pub closed spec fn free_water_slots(&self) -> Seq<usize> {
        self.free_water@
    }

    /// The chunk the window is centred on.
    pub closed spec fn center(&self) -> (i32, i32) {
        self.center
    }

    /// Sound bookkeeping: distinct keys, each slot free or held exactly once,
    /// every loaded chunk inside the window.
    closed spec fn books_ok(&self) -> bool {
        &&& keys_distinct(self.chunks@)
        &&& slots_disjoint(self.free_terrain@, self.free_water@, self.chunks@)
        &&& slots_counted(self.free_terrain@, self.free_water@, self.chunks@)
        &&& forall|i: int| 0 <= i < self.chunks@.len() ==> in_view(self.center, #[trigger] self.chunks@[i].key)
    }

    /// Well-formed: sound bookkeeping and the whole window loaded.
    pub closed spec fn wf(&self) -> bool {
        &&& self.books_ok()
        &&& center_in_range(self.center)
        &&& forall|k: (i32, i32)| in_view(self.center, k) ==> has_key(self.chunks@, k)
    }

    /// The window always holds exactly the chunks around its centre, and no
    /// two loaded chunks share a terrain slot or a water slot.
    pub proof fn lemma_window(&self)
        requires
            self.wf(),
        ensures
            forall|k: (i32, i32)| #[trigger] self@.contains_key(k) <==> in_view(self.center(), k),
            self@.dom().len() == MAX_CHUNKS,
            forall|k: (i32, i32)| #[trigger] self@.contains_key(k) ==> self@[k].mesh_slot < MAX_CHUNKS,
            forall|k: (i32, i32)|
                #[trigger] self@.contains_key(k) && self@[k].water_slot is Some ==> self@[k].water_slot->0
                    < MAX_CHUNKS,
            forall|k1: (i32, i32), k2: (i32, i32)|
                #[trigger] self@.contains_key(k1) && #[trigger] self@.contains_key(k2) && k1 != k2
                    ==> self@[k1].mesh_slot != self@[k2].mesh_slot,
            forall|k1: (i32, i32), k2: (i32, i32)|
                #[trigger] self@.contains_key(k1) && #[trigger] self@.contains_key(k2) && k1 != k2
                    && self@[k1].water_slot is Some ==> self@[k1].water_slot != self@[k2].water_slot,
    {
        let s = self.chunks@;
        lemma_window_count(self.center, s);
        assert forall|k: (i32, i32)| #[trigger] self@.contains_key(k) <==> in_view(self.center(), k) by {
            if self@.contains_key(k) {
                let i = choose|i: int| 0 <= i < s.len() && #[trigger] s[i].key == k;
                assert(in_view(self.center, s[i].key));
            }
        }
        assert forall|k: (i32, i32)| #[trigger] self@.contains_key(k) implies self@[k].mesh_slot
            < MAX_CHUNKS && (self@[k].water_slot is Some ==> self@[k].water_slot->0 < MAX_CHUNKS) by {
            let i = choose|i: int| 0 <= i < s.len() && #[trigger] s[i].key == k;
            lemma_entries_map_at(s, i);
        }
        assert forall|k1: (i32, i32), k2: (i32, i32)|
            #[trigger] self@.contains_key(k1) && #[trigger] self@.contains_key(k2) && k1 != k2 implies
            self@[k1].mesh_slot != self@[k2].mesh_slot && (self@[k1].water_slot is Some
                ==> self@[k1].water_slot != self@[k2].water_slot) by {
            let i = choose|i: int| 0 <= i < s.len() && #[trigger] s[i].key == k1;
            let j = choose|j: int| 0 <= j < s.len() && #[trigger] s[j].key == k2;
            lemma_entries_map_at(s, i);
            lemma_entries_map_at(s, j);
        }
    }

    /// Index of the loaded chunk `key`, if any.
    fn find(&self, key: (i32, i32)) -> (r: Option<usize>)
        ensures
            r matches Some(i) ==> i < self.chunks@.len() && self.chunks@[i as int].key == key,
            r is None ==> !has_key(self.chunks@, key),
    {
        let n = self.chunks.len();
        let mut i: usize = 0;
        while i < n
            invariant
                n == self.chunks@.len(),
                i <= n,
                forall|j: int| 0 <= j < i ==> #[trigger] self.chunks@[j].key != key,
            decreases n - i,
        {
            if self.chunks[i].key.0 == key.0 && self.chunks[i].key.1 == key.1 {
                return Some(i);
            }
            i = i + 1;
        }
        None
    }

    /// Recentres the window on chunk `(cx, cz)`: unloads the chunks that fell
    /// outside it (their slots go back on the free lists), then loads every
    /// missing chunk of the window on a free terrain slot, rows along z first.
    /// Returns the loaded and the unloaded chunk coordinates.
    fn update_center(&mut self, cx: i32, cz: i32) -> (r: (Vec<(i32, i32)>, Vec<(i32, i32)>))
        requires
            old(self).books_ok(),
            i32::MIN + VIEW_RADIUS <= cx <= i32::MAX - VIEW_RADIUS,
            i32::MIN + VIEW_RADIUS <= cz <= i32::MAX - VIEW_RADIUS,
        ensures
            final(self).wf(),
            final(self).center() == (cx, cz),
            final(self).noise_table() == old(self).noise_table(),
            forall|k: (i32, i32)| #[trigger] final(self)@.contains_key(k) <==> in_view((cx, cz), k),
            forall|k: (i32, i32)|
                old(self)@.contains_key(k) && in_view((cx, cz), k) ==> #[trigger] final(self)@[k]
                    == old(self)@[k],
            forall|k: (i32, i32)|
                !old(self)@.contains_key(k) && in_view((cx, cz), k) ==> (#[trigger] final(self)@[k]).water_slot
                    is None,
            r.0@.no_duplicates(),
            forall|k: (i32, i32)|
                #[trigger] r.0@.contains(k) <==> (in_view((cx, cz), k) && !old(self)@.contains_key(k)),
            forall|a: int, b: int|
                0 <= a < b < r.0@.len() ==> view_index((cx, cz), #[trigger] r.0@[a]) < view_index(
                    (cx, cz),
                    #[trigger] r.0@[b],
                ),
            r.1@.no_duplicates(),
            forall|k: (i32, i32)|
                #[trigger] r.1@.contains(k) <==> (old(self)@.contains_key(k) && !in_view((cx, cz), k)),
            ({
                let f = refilled_terrain(old(self).free_terrain_slots(), old(self)@, r.1@);
                &&& r.0@.len() <= f.len()
                &&& final(self).free_terrain_slots() == f.subrange(0, f.len() - r.0@.len())
                &&& forall|m: int|
                    0 <= m < r.0@.len() ==> #[trigger] final(self)@[r.0@[m]].mesh_slot == f[f.len() - 1 - m]
            }),
            final(self).free_water_slots() == old(self).free_water_slots() + water_slots_of(old(self)@, r.1@),
    {
        let c = (cx, cz);
        self.center = c;
        let ghost old_noise = self.noise@;
        let ghost old_entries = self.chunks@;
        let ghost old_map = entries_map(old_entries);
        let ghost ft0 = self.free_terrain@;
        let ghost fw0 = self.free_water@;
        let n = self.chunks.len();
        let mut kept: Vec<ChunkEntry> = Vec::new();
        let mut removed: Vec<(i32, i32)> = Vec::new();
        let ghost mut kidx: Seq<int> = Seq::empty();
        let ghost mut ridx: Seq<int> = Seq::empty();
        let mut idx: usize = 0;
        proof {
            assert(kept@ + old_entries.subrange(0, n as int) =~= old_entries);
        }
        while idx < n
            invariant
                c == (cx, cz),
                i32::MIN + VIEW_RADIUS <= cx <= i32::MAX - VIEW_RADIUS,
                i32::MIN + VIEW_RADIUS <= cz <= i32::MAX - VIEW_RADIUS,
                self.noise@ == old_noise,
                n == old_entries.len(),
                self.chunks@ == old_entries,
                self.center == c,
                idx <= n,
                keys_distinct(old_entries),
                slots_disjoint(
                    self.free_terrain@,
                    self.free_water@,
                    kept@ + old_entries.subrange(idx as int, n as int),
                ),
                slots_counted(
                    self.free_terrain@,
                    self.free_water@,
                    kept@ + old_entries.subrange(idx as int, n as int),
                ),
                kidx.len() == kept@.len(),
                forall|m: int| 0 <= m < kidx.len() ==> 0 <= #[trigger] kidx[m] < idx,
                forall|m: int, m2: int| 0 <= m < m2 < kidx.len() ==> #[trigger] kidx[m] < #[trigger] kidx[m2],
                forall|m: int| 0 <= m < kidx.len() ==> #[trigger] kept@[m] == old_entries[kidx[m]],
                forall|m: int| 0 <= m < kept@.len() ==> in_view(c, #[trigger] kept@[m].key),
                forall|i: int|
                    0 <= i < idx && in_view(c, #[trigger] old_entries[i].key) ==> exists|m: int|
                        0 <= m < kidx.len() && kidx[m] == i,
                ridx.len() == removed@.len(),
                forall|m: int| 0 <= m < ridx.len() ==> 0 <= #[trigger] ridx[m] < idx,
                forall|m: int, m2: int| 0 <= m < m2 < ridx.len() ==> #[trigger] ridx[m] < #[trigger] ridx[m2],
                forall|m: int| 0 <= m < ridx.len() ==> #[trigger] removed@[m] == old_entries[ridx[m]].key,
                forall|m: int| 0 <= m < removed@.len() ==> !in_view(c, #[trigger] removed@[m]),
                forall|i: int|
                    0 <= i < idx && !in_view(c, #[trigger] old_entries[i].key) ==> exists|m: int|
                        0 <= m < ridx.len() && ridx[m] == i,
                old_map == entries_map(old_entries),
                self.free_terrain@ == ft0 + mesh_slots_of(old_map, removed@),
                self.free_water@ == fw0 + water_slots_of(old_map, removed@),
            decreases n - idx,
        {
            let e = self.chunks[idx];
            let ghost before = kept@ + old_entries.subrange(idx as int, n as int);
            let inside = cx - VIEW_RADIUS <= e.key.0 && e.key.0 <= cx + VIEW_RADIUS && cz - VIEW_RADIUS
                <= e.key.1 && e.key.1 <= cz + VIEW_RADIUS;
            if inside {
                kept.push(e);
                proof {
                    let ghost k0 = kidx;
                    kidx = kidx.push(idx as int);
                    assert(kept@ + old_entries.subrange(idx + 1, n as int) =~= before);
                    assert(kidx[kidx.len() - 1] == idx);
                    assert forall|i: int|
                        0 <= i < idx + 1 && in_view(c, #[trigger] old_entries[i].key) implies exists|m: int|
                        0 <= m < kidx.len() && kidx[m] == i by {
                        if i < idx {
                            let m = choose|m: int| 0 <= m < k0.len() && k0[m] == i;
                            assert(kidx[m] == i);
                        } else {
                            assert(kidx[kidx.len() - 1] == i);
                        }
                    }
                }
            } else {
                proof {
                    assert(kept@ + seq![e] + old_entries.subrange(idx + 1, n as int) =~= before);
                    lemma_release(
                        self.free_terrain@,
                        self.free_water@,
                        kept@,
                        e,
                        old_entries.subrange(idx + 1, n as int),
                    );
                    lemma_entries_map_at(old_entries, idx as int);
                }
                let ghost removed_before = removed@;
                removed.push(e.key);
                self.free_terrain.push(e.data.mesh_slot);
                match e.data.water_slot {
                    Some(w) => {
                        self.free_water.push(w);
                    },
                    None => {},
                }
                proof {
                    assert(removed@.drop_last() =~= removed_before);
                    assert(mesh_slots_of(old_map, removed@) =~= mesh_slots_of(old_map, removed_before).push(
                        e.data.mesh_slot,
                    ));
                    let ghost r0 = ridx;
                    ridx = ridx.push(idx as int);
                    assert(ridx[ridx.len() - 1] == idx);
                    assert forall|i: int|
                        0 <= i < idx + 1 && !in_view(c, #[trigger] old_entries[i].key) implies exists|m: int|
                        0 <= m < ridx.len() && ridx[m] == i by {
                        if i < idx {
                            let m = choose|m: int| 0 <= m < r0.len() && r0[m] == i;
                            assert(ridx[m] == i);
                        } else {
                            assert(ridx[ridx.len() - 1] == i);
                        }
                    }
                }
            }
            idx = idx + 1;
        }
        proof {
            assert(old_entries.subrange(n as int, n as int) =~= Seq::<ChunkEntry>::empty());
            assert(kept@ + old_entries.subrange(n as int, n as int) =~= kept@);
            assert forall|a: int, b: int|
                0 <= a < kept@.len() && 0 <= b < kept@.len() && a != b implies #[trigger] kept@[a].key
                != #[trigger] kept@[b].key by {
                if a < b {
                    assert(kidx[a] < kidx[b]);
                } else {
                    assert(kidx[b] < kidx[a]);
                }
            }
        }
        self.chunks = kept;
        let ghost mid = kept@;
        let ghost f1 = self.free_terrain@;
        let ghost w1 = self.free_water@;
        let mut added: Vec<(i32, i32)> = Vec::new();
        let mut dz: i32 = -VIEW_RADIUS;
        while dz <= VIEW_RADIUS
            invariant
                c == (cx, cz),
                self.noise@ == old_noise,
                -VIEW_RADIUS <= dz <= VIEW_RADIUS + 1,
                i32::MIN + VIEW_RADIUS <= cx <= i32::MAX - VIEW_RADIUS,
                i32::MIN + VIEW_RADIUS <= cz <= i32::MAX - VIEW_RADIUS,
                self.center == c,
                keys_distinct(self.chunks@),
                slots_disjoint(self.free_terrain@, self.free_water@, self.chunks@),
                slots_counted(self.free_terrain@, self.free_water@, self.chunks@),
                forall|i: int| 0 <= i < self.chunks@.len() ==> in_view(c, #[trigger] self.chunks@[i].key),
                self.chunks@.len() == mid.len() + added@.len(),
                forall|i: int| 0 <= i < mid.len() ==> #[trigger] self.chunks@[i] == mid[i],
                forall|m: int|
                    0 <= m < added@.len() ==> #[trigger] added@[m] == self.chunks@[mid.len() + m].key,
                forall|i: int|
                    mid.len() <= i < self.chunks@.len() ==> (#[trigger] self.chunks@[i]).data.water_slot
                        is None && !has_key(mid, self.chunks@[i].key),
                forall|k: (i32, i32)|
                    in_view(c, k) && visited_before(c, k, dz as int, -VIEW_RADIUS as int) ==> #[trigger] has_key(
                        self.chunks@,
                        k,
                    ),
                forall|m: int|
                    0 <= m < added@.len() ==> visited_before(c, #[trigger] added@[m], dz as int, -VIEW_RADIUS as int),
                f1.len() >= added@.len(),
                self.free_terrain@ == f1.subrange(0, f1.len() - added@.len()),
                self.free_water@ == w1,
                forall|m: int|
                    0 <= m < added@.len() ==> #[trigger] self.chunks@[mid.len() + m].data.mesh_slot == f1[f1.len() - 1
                        - m],
                forall|a: int, b: int|
                    0 <= a < b < added@.len() ==> view_index(c, #[trigger] added@[a]) < view_index(
                        c,
                        #[trigger] added@[b],
                    ),
            decreases VIEW_RADIUS + 1 - dz,
        {
            let mut dx: i32 = -VIEW_RADIUS;
            while dx <= VIEW_RADIUS
                invariant
                    c == (cx, cz),
                    self.noise@ == old_noise,
                    -VIEW_RADIUS <= dz <= VIEW_RADIUS,
                    -VIEW_RADIUS <= dx <= VIEW_RADIUS + 1,
                    i32::MIN + VIEW_RADIUS <= cx <= i32::MAX - VIEW_RADIUS,
                    i32::MIN + VIEW_RADIUS <= cz <= i32::MAX - VIEW_RADIUS,
                    self.center == c,
                    keys_distinct(self.chunks@),
                    slots_disjoint(self.free_terrain@, self.free_water@, self.chunks@),
                    slots_counted(self.free_terrain@, self.free_water@, self.chunks@),
                    forall|i: int| 0 <= i < self.chunks@.len() ==> in_view(c, #[trigger] self.chunks@[i].key),
                    self.chunks@.len() == mid.len() + added@.len(),
                    forall|i: int| 0 <= i < mid.len() ==> #[trigger] self.chunks@[i] == mid[i],
                    forall|m: int|
                        0 <= m < added@.len() ==> #[trigger] added@[m] == self.chunks@[mid.len() + m].key,
                    forall|i: int|
                        mid.len() <= i < self.chunks@.len() ==> (#[trigger] self.chunks@[i]).data.water_slot
                            is None && !has_key(mid, self.chunks@[i].key),
                    forall|k: (i32, i32)|
                        in_view(c, k) && visited_before(c, k, dz as int, dx as int) ==> #[trigger] has_key(
                            self.chunks@,
                            k,
                        ),
                    forall|m: int|
                        0 <= m < added@.len() ==> visited_before(c, #[trigger] added@[m], dz as int, dx as int),
                f1.len() >= added@.len(),
                self.free_terrain@ == f1.subrange(0, f1.len() - added@.len()),
                self.free_water@ == w1,
                forall|m: int|
                    0 <= m < added@.len() ==> #[trigger] self.chunks@[mid.len() + m].data.mesh_slot == f1[f1.len() - 1
                        - m],
                    forall|a: int, b: int|
                        0 <= a < b < added@.len() ==> view_index(c, #[trigger] added@[a]) < view_index(
                            c,
                            #[trigger] added@[b],
                        ),
                decreases VIEW_RADIUS + 1 - dx,
            {
                let key = (cx + dx, cz + dz);
                let ghost prev = self.chunks@;
                match self.find(key) {
                    Some(_) => {},
                    None => {
                        proof {
                            lemma_view_capacity(c, self.chunks@, key);
                        }
                        let ghost ft = self.free_terrain@;
                        match self.free_terrain.pop() {
                            Some(slot) => {
                                proof {
                                    lemma_acquire(ft, self.free_water@, prev, key);
                                }
                                let e = ChunkEntry {
                                    key,
                                    data: ChunkData { mesh_slot: slot, water_slot: None },
                                };
                                self.chunks.push(e);
                                added.push(key);
                                proof {
                                    assert(self.free_terrain@ =~= f1.subrange(0, f1.len() - added@.len()));
                                    assert(self.chunks@[prev.len() as int].key == key);
                                    assert(has_key(self.chunks@, key));
                                    assert forall|i: int, j: int|
                                        0 <= i < self.chunks@.len() && 0 <= j < self.chunks@.len() && i
                                            != j implies #[trigger] self.chunks@[i].key
                                        != #[trigger] self.chunks@[j].key by {
                                        if i == prev.len() {
                                            assert(prev[j].key != key);
                                        } else if j == prev.len() {
                                            assert(prev[i].key != key);
                                        }
                                    }
                                    assert(!has_key(mid, key)) by {
                                        if has_key(mid, key) {
                                            let i = choose|i: int| 0 <= i < mid.len() && #[trigger] mid[i].key == key;
                                            assert(prev[i].key == key);
                                        }
                                    }
                                }
                            },
                            None => {},
                        }
                    },
                }
                proof {
                    assert forall|m: int| 0 <= m < added@.len() implies visited_before(
                        c,
                        #[trigger] added@[m],
                        dz as int,
                        dx + 1,
                    ) by {
                        assert(in_view(c, self.chunks@[mid.len() + m].key));
                    }
                    assert forall|a: int, b: int|
                        0 <= a < b < added@.len() implies view_index(c, #[trigger] added@[a]) < view_index(
                        c,
                        #[trigger] added@[b],
                    ) by {
                        assert(in_view(c, self.chunks@[mid.len() + a].key));
                        assert(in_view(c, self.chunks@[mid.len() + b].key));
                    }
                    assert forall|k: (i32, i32)|
                        in_view(c, k) && visited_before(c, k, dz as int, dx + 1) implies #[trigger] has_key(
                        self.chunks@,
                        k,
                    ) by {
                        if visited_before(c, k, dz as int, dx as int) {
                            assert(has_key(prev, k));
                            let i = choose|i: int| 0 <= i < prev.len() && #[trigger] prev[i].key == k;
                            assert(self.chunks@[i] == prev[i]);
                        } else {
                            assert(k == key);
                        }
                    }
                }
                dx = dx + 1;
            }
            proof {
                assert forall|m: int| 0 <= m < added@.len() implies visited_before(
                    c,
                    #[trigger] added@[m],
                    dz + 1,
                    -VIEW_RADIUS as int,
                ) by {
                    assert(visited_before(c, added@[m], dz as int, dx as int));
                }
                assert forall|k: (i32, i32)|
                    in_view(c, k) && visited_before(c, k, dz + 1, -VIEW_RADIUS as int) implies #[trigger] has_key(
                    self.chunks@,
                    k,
                ) by {
                    assert(visited_before(c, k, dz as int, dx as int));
                }
            }
            dz = dz + 1;
        }
        proof {
            let s = self.chunks@;
            assert forall|k: (i32, i32)| in_view(c, k) implies has_key(s, k) by {
                assert(visited_before(c, k, dz as int, -VIEW_RADIUS as int));
            }
            // the unloaded chunks
            assert forall|k: (i32, i32)|
                #[trigger] removed@.contains(k) <==> (old_map.contains_key(k) && !in_view(c, k)) by {
                if removed@.contains(k) {
                    let m = choose|m: int| 0 <= m < removed@.len() && removed@[m] == k;
                    assert(old_entries[ridx[m]].key == k);
                    assert(has_key(old_entries, k));
                }
                if old_map.contains_key(k) && !in_view(c, k) {
                    let i = choose|i: int| 0 <= i < old_entries.len() && #[trigger] old_entries[i].key == k;
                    let m = choose|m: int| 0 <= m < ridx.len() && ridx[m] == i;
                    assert(removed@[m] == k);
                }
            }
            assert forall|a: int, b: int| 0 <= a < removed@.len() && 0 <= b < removed@.len() && a != b implies removed@[a]
                != removed@[b] by {
                if a < b {
                    assert(ridx[a] < ridx[b]);
                } else {
                    assert(ridx[b] < ridx[a]);
                }
            }
            // the loaded chunks
            assert forall|k: (i32, i32)|
                #[trigger] added@.contains(k) <==> (in_view(c, k) && !old_map.contains_key(k)) by {
                if added@.contains(k) {
                    let m = choose|m: int| 0 <= m < added@.len() && added@[m] == k;
                    let i = mid.len() + m;
                    assert(s[i].key == k);
                    assert(in_view(c, s[i].key));
                    assert(!has_key(mid, k));
                    if old_map.contains_key(k) {
                        let j = choose|j: int| 0 <= j < old_entries.len() && #[trigger] old_entries[j].key == k;
                        let m2 = choose|m2: int| 0 <= m2 < kidx.len() && kidx[m2] == j;
                        assert(mid[m2].key == k);
                    }
                }
                if in_view(c, k) && !old_map.contains_key(k) {
                    assert(has_key(s, k));
                    let i = choose|i: int| 0 <= i < s.len() && #[trigger] s[i].key == k;
                    if i < mid.len() {
                        assert(mid[i] == old_entries[kidx[i]]);
                        assert(has_key(old_entries, k));
                    } else {
                        assert(added@[i - mid.len()] == k);
                    }
                }
            }
            assert forall|a: int, b: int| 0 <= a < added@.len() && 0 <= b < added@.len() && a != b implies added@[a]
                != added@[b] by {
                assert(s[mid.len() + a].key != s[mid.len() + b].key);
            }
            // the map view
            assert forall|k: (i32, i32)| #[trigger] entries_map(s).contains_key(k) <==> in_view(c, k) by {
                if has_key(s, k) {
                    let i = choose|i: int| 0 <= i < s.len() && #[trigger] s[i].key == k;
                    assert(in_view(c, s[i].key));
                }
            }
            assert forall|k: (i32, i32)|
                old_map.contains_key(k) && in_view(c, k) implies #[trigger] entries_map(s)[k] == old_map[k] by {
                let j = choose|j: int| 0 <= j < old_entries.len() && #[trigger] old_entries[j].key == k;
                let m = choose|m: int| 0 <= m < kidx.len() && kidx[m] == j;
                lemma_entries_map_at(old_entries, j);
                assert(s[m] == old_entries[j]);
                lemma_entries_map_at(s, m);
            }
            assert forall|m: int| 0 <= m < added@.len() implies #[trigger] entries_map(s)[added@[m]].mesh_slot
                == f1[f1.len() - 1 - m] by {
                lemma_entries_map_at(s, mid.len() + m);
            }
            assert forall|k: (i32, i32)|
                !old_map.contains_key(k) && in_view(c, k) implies (#[trigger] entries_map(s)[k]).water_slot
                is None by {
                assert(has_key(s, k));
                let i = choose|i: int| 0 <= i < s.len() && #[trigger] s[i].key == k;
                lemma_entries_map_at(s, i);
                if i < mid.len() {
                    assert(mid[i] == old_entries[kidx[i]]);
                    assert(has_key(old_entries, k));
                }
            }
        }
        (added, removed)
    }


    /// A manager with noise seed 42 and the window around chunk `(0, 0)`
    /// loaded on terrain slots 0, 1, 2, ... in row-major order; no chunk has a
    /// water slot yet (see `assign_water_slot`).
    pub fn new() -> (r: Self)
        ensures
            r.wf(),
            r.center() == (0i32, 0i32),
            r.noise_table() == perlin::perlin_table(42),
            forall|k: (i32, i32)| #[trigger] r@.contains_key(k) <==> in_view((0i32, 0i32), k),
            forall|k: (i32, i32)| #[trigger] r@.contains_key(k) ==> r@[k].water_slot is None,
            forall|k: (i32, i32)| #[trigger] r@.contains_key(k) ==> r@[k].mesh_slot == view_index((0i32, 0i32), k),
            r.free_terrain_slots().len() == 0,
            r.free_water_slots() == Seq::new(MAX_CHUNKS as nat, |a: int| (MAX_CHUNKS - 1 - a) as usize),
    {
        let noise = Perlin::new(42);
        let mut free_terrain: Vec<usize> = Vec::new();
        let mut free_water: Vec<usize> = Vec::new();
        let mut k: usize = 0;
        while k < MAX_CHUNKS
            invariant
                k <= MAX_CHUNKS,
                free_terrain@.len() == k,
                free_water@.len() == k,
                forall|a: int| 0 <= a < k ==> #[trigger] free_terrain@[a] == MAX_CHUNKS - 1 - a,
                forall|a: int| 0 <= a < k ==> #[trigger] free_water@[a] == MAX_CHUNKS - 1 - a,
            decreases MAX_CHUNKS - k,
        {
            free_terrain.push(MAX_CHUNKS - 1 - k);
            free_water.push(MAX_CHUNKS - 1 - k);
            k = k + 1;
        }
        let mut mgr = TerrainManager {
            noise,
            chunks: Vec::new(),
            center: (i32::MIN, i32::MIN),
            free_terrain,
            free_water,
        };
        assert(water_count(mgr.chunks@) == 0);
        let ghost f0 = mgr.free_terrain@;
        assert(entries_map(mgr.chunks@) =~= Map::empty());
        let (added, removed) = mgr.update_center(0, 0);
        proof {
            let c = (0i32, 0i32);
            assert(removed@.len() == 0) by {
                if removed@.len() > 0 {
                    assert(removed@.contains(removed@[0]));
                }
            }
            assert(mesh_slots_of(Map::empty(), removed@) =~= Seq::<usize>::empty());
            assert(water_slots_of(Map::empty(), removed@) =~= Seq::<usize>::empty());
            let f = refilled_terrain(f0, Map::empty(), removed@);
            assert(f =~= f0);
            let v = added@.map_values(|k: (i32, i32)| view_index(c, k));
            assert forall|a: int| 0 <= a < v.len() implies 0 <= #[trigger] v[a] < 25 by {
                assert(added@.contains(added@[a]));
                assert(in_view(c, added@[a]));
            }
            assert forall|t: int| 0 <= t < 25 implies #[trigger] takes_value(v, t) by {
                let k = ((t % 5 - 2) as i32, (t / 5 - 2) as i32);
                assert(in_view(c, k));
                assert(added@.contains(k));
                let a = choose|a: int| 0 <= a < added@.len() && added@[a] == k;
                assert(v[a] == t);
            }
            lemma_increasing_cover(v, 25);
            assert forall|k: (i32, i32)| #[trigger] mgr@.contains_key(k) implies mgr@[k].mesh_slot == view_index(c, k) by {
                assert(added@.contains(k));
                let a = choose|a: int| 0 <= a < added@.len() && added@[a] == k;
                assert(v[a] == a);
                assert(mgr@[added@[a]].mesh_slot == f[f.len() - 1 - a]);
            }
            assert(mgr.free_water@ =~= Seq::new(MAX_CHUNKS as nat, |a: int| (MAX_CHUNKS - 1 - a) as usize));
        }
        mgr
    }

    /// Keeps the window centred on chunk `(cx, cz)`, the chunk under the
    /// player. If it already is, nothing changes; otherwise the window moves
    /// (see the ensures). Returns the chunks loaded and the chunks unloaded, so
    /// that the caller can update its meshes and colliders.
    pub fn update(&mut self, cx: i32, cz: i32) -> (r: (Vec<(i32, i32)>, Vec<(i32, i32)>))
        requires
            old(self).wf(),
            i32::MIN + VIEW_RADIUS <= cx <= i32::MAX - VIEW_RADIUS,
            i32::MIN + VIEW_RADIUS <= cz <= i32::MAX - VIEW_RADIUS,
        ensures
            final(self).wf(),
            final(self).center() == (cx, cz),
            final(self).noise_table() == old(self).noise_table(),
            forall|k: (i32, i32)| #[trigger] final(self)@.contains_key(k) <==> in_view((cx, cz), k),
            forall|k: (i32, i32)|
                old(self)@.contains_key(k) && in_view((cx, cz), k) ==> #[trigger] final(self)@[k]
                    == old(self)@[k],
            forall|k: (i32, i32)|
                !old(self)@.contains_key(k) && in_view((cx, cz), k) ==> (#[trigger] final(self)@[k]).water_slot
                    is None,
            r.0@.no_duplicates(),
            forall|k: (i32, i32)|
                #[trigger] r.0@.contains(k) <==> (in_view((cx, cz), k) && !old(self)@.contains_key(k)),
            forall|a: int, b: int|
                0 <= a < b < r.0@.len() ==> view_index((cx, cz), #[trigger] r.0@[a]) < view_index(
                    (cx, cz),
                    #[trigger] r.0@[b],
                ),
            r.1@.no_duplicates(),
            forall|k: (i32, i32)|
                #[trigger] r.1@.contains(k) <==> (old(self)@.contains_key(k) && !in_view((cx, cz), k)),
            ({
                let f = refilled_terrain(old(self).free_terrain_slots(), old(self)@, r.1@);
                &&& r.0@.len() <= f.len()
                &&& final(self).free_terrain_slots() == f.subrange(0, f.len() - r.0@.len())
                &&& forall|m: int|
                    0 <= m < r.0@.len() ==> #[trigger] final(self)@[r.0@[m]].mesh_slot == f[f.len() - 1 - m]
            }),
            final(self).free_water_slots() == old(self).free_water_slots() + water_slots_of(old(self)@, r.1@),
            (cx, cz) == old(self).center() ==> final(self)@ == old(self)@ && r.0@.len() == 0 && r.1@.len()
                == 0,
    {
        if cx == self.center.0 && cz == self.center.1 {
            proof {
                let s = self.chunks@;
                assert forall|k: (i32, i32)| #[trigger] self@.contains_key(k) <==> in_view((cx, cz), k) by {
                    if has_key(s, k) {
                        let i = choose|i: int| 0 <= i < s.len() && #[trigger] s[i].key == k;
                        assert(in_view(self.center, s[i].key));
                    }
                }
            }
            (Vec::new(), Vec::new())
        } else {
            self.update_center(cx, cz)
        }
    }

    /// Gives the loaded chunk `key` a water mesh slot, once its heights show
    /// water. A chunk that already has one keeps it; an unloaded key gets
    /// nothing. A loaded chunk always finds a free water slot.
    pub fn assign_water_slot(&mut self, key: (i32, i32)) -> (r: Option<usize>)
        requires
            old(self).wf(),
        ensures
            final(self).wf(),
            final(self).center() == old(self).center(),
            final(self).noise_table() == old(self).noise_table(),
            !old(self)@.contains_key(key) ==> r is None && final(self)@ == old(self)@,
            old(self)@.contains_key(key) && old(self)@[key].water_slot is Some ==> r == old(self)@[key].water_slot
                && final(self)@ == old(self)@,
            old(self)@.contains_key(key) && old(self)@[key].water_slot is None ==> r is Some && final(self)@
                == old(self)@.insert(
                key,
                ChunkData { mesh_slot: old(self)@[key].mesh_slot, water_slot: r },
            ),
            old(self)@.contains_key(key) && old(self)@[key].water_slot is None ==> r == Some(
                old(self).free_water_slots().last(),
            ) && final(self).free_water_slots() == old(self).free_water_slots().drop_last(),
            !(old(self)@.contains_key(key) && old(self)@[key].water_slot is None) ==> final(self).free_water_slots()
                == old(self).free_water_slots(),
            final(self).free_terrain_slots() == old(self).free_terrain_slots(),
    {
        match self.find(key) {
            None => None,
            Some(i) => {
                let e = self.chunks[i];
                proof {
                    lemma_entries_map_at(self.chunks@, i as int);
                }
                match e.data.water_slot {
                    Some(w) => Some(w),
                    None => {
                        proof {
                            lemma_water_count_bound(self.chunks@);
                            assert(self.chunks@[i as int].data.water_slot is None);
                        }
                        let ghost s = self.chunks@;
                        let ghost fw = self.free_water@;
                        let w = self.free_water.pop().unwrap();
                        let ne = ChunkEntry {
                            key: e.key,
                            data: ChunkData { mesh_slot: e.data.mesh_slot, water_slot: Some(w) },
                        };
                        self.chunks.set(i, ne);
                        proof {
                            lemma_assign_water(self.free_terrain@, fw, s, i as int);
                            let t = self.chunks@;
                            assert(t == s.update(i as int, ne));
                            assert forall|a: int, b: int|
                                0 <= a < t.len() && 0 <= b < t.len() && a != b implies #[trigger] t[a].key
                                != #[trigger] t[b].key by {
                                assert(s[a].key != s[b].key);
                            }
                            assert forall|a: int| 0 <= a < t.len() implies in_view(
                                self.center,
                                #[trigger] t[a].key,
                            ) by {
                                assert(in_view(self.center, s[a].key));
                            }
                            assert forall|k: (i32, i32)| in_view(self.center, k) implies has_key(t, k) by {
                                assert(has_key(s, k));
                                let a = choose|a: int| 0 <= a < s.len() && #[trigger] s[a].key == k;
                                assert(t[a].key == k);
                            }
                            assert forall|k: (i32, i32)| #[trigger] entries_map(t).contains_key(k)
                                == entries_map(s).insert(key, ne.data).contains_key(k) by {
                                if has_key(s, k) {
                                    let a = choose|a: int| 0 <= a < s.len() && #[trigger] s[a].key == k;
                                    assert(t[a].key == k);
                                }
                                if has_key(t, k) {
                                    let a = choose|a: int| 0 <= a < t.len() && #[trigger] t[a].key == k;
                                    assert(s[a].key == k);
                                }
                            }
                            assert forall|k: (i32, i32)| #[trigger] entries_map(t).contains_key(k) implies entries_map(t)[k]
                                == entries_map(s).insert(key, ne.data)[k] by {
                                let a = choose|a: int| 0 <= a < t.len() && #[trigger] t[a].key == k;
                                lemma_entries_map_at(t, a);
                                assert(s[a].key == k);
                                lemma_entries_map_at(s, a);
                            }
                            assert(entries_map(t) =~= entries_map(s).insert(key, ne.data));
                        }
                        Some(w)
                    },
                }
            },
        }
    }

    /// Data of the loaded chunk `key`, if it is loaded.
    pub fn chunk(&self, key: &(i32, i32)) -> (r: Option<&ChunkData>)
        requires
            self.wf(),
        ensures
            r is Some <==> self@.contains_key(*key),
            r matches Some(d) ==> *d == self@[*key],
    {
        match self.find(*key) {
            None => None,
            Some(i) => {
                proof {
                    lemma_entries_map_at(self.chunks@, i as int);
                }
                Some(&self.chunks[i].data)
            },
        }
    }

    /// All loaded chunks, each key once.
    pub fn chunks(&self) -> (r: &Vec<ChunkEntry>)
        requires
            self.wf(),
        ensures
            keys_distinct(r@),
            entries_map(r@) == self@,
    {
        &self.chunks
    }

}

} // verus!
