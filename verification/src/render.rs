//! Draw-list bookkeeping of the renderer: which mesh a draw command names,
//! how the per-object uniform pool is shared between passes, and the sizes a
//! surface is configured with.
use vstd::prelude::*;
use crate::terrain::MAX_CHUNKS;

verus! {

/// Static mesh: unit cube (also the sky box).
pub const MESH_CUBE: usize = 0;
/// Static mesh: cylinder along X (wheels, trunks, branches).
pub const MESH_WHEEL: usize = 1;
/// Placeholder slot; terrain is drawn from the chunk pool.
pub const MESH_TERRAIN: usize = 2;
/// Placeholder slot; water is drawn from the chunk pool.
pub const MESH_WATER: usize = 3;
/// Static mesh: the road surface.
pub const MESH_ROAD: usize = 4;
/// Static mesh: upward cone.
pub const MESH_CONE: usize = 5;
/// Static mesh: sphere.
pub const MESH_SPHERE: usize = 6;
/// First mesh id of the terrain chunk pool.
pub const MESH_TERRAIN_BASE: usize = 10;
/// First mesh id of the water chunk pool.
pub const MESH_WATER_BASE: usize = 10 + MAX_CHUNKS;

/// Per-object uniforms the transform pool holds.
pub const MAX_INSTANCES: usize = 8192;

/// Byte stride between per-object uniforms (the dynamic-offset alignment).
pub const UNIFORM_ALIGN: usize = 256;

/// Where the mesh of a draw command lives.
#[derive(Clone, Copy, Debug, PartialEq, Eq)]
pub enum MeshRef {
    /// Entry of the static mesh list.
    Static(usize),
    /// Slot of the terrain chunk pool.
    Terrain(usize),
    /// Slot of the water chunk pool.
    Water(usize),
}

/// The mesh a mesh id names: ids from `MESH_WATER_BASE` on are water slots,
/// ids from `MESH_TERRAIN_BASE` on are terrain slots, smaller ids are static.
pub open spec fn resolve_mesh_spec(mesh_id: usize) -> MeshRef {
    if mesh_id >= MESH_WATER_BASE {
        MeshRef::Water((mesh_id - MESH_WATER_BASE) as usize)
    } else if mesh_id >= MESH_TERRAIN_BASE {
        MeshRef::Terrain((mesh_id - MESH_TERRAIN_BASE) as usize)
    } else {
        MeshRef::Static(mesh_id)
    }
}

/// Resolves a mesh id to the pool and slot holding its mesh.
pub fn resolve_mesh(mesh_id: usize) -> (r: MeshRef)
    ensures
        r == resolve_mesh_spec(mesh_id),
{
    if mesh_id >= MESH_WATER_BASE {
        MeshRef::Water(mesh_id - MESH_WATER_BASE)
    } else if mesh_id >= MESH_TERRAIN_BASE {
        MeshRef::Terrain(mesh_id - MESH_TERRAIN_BASE)
    } else {
        MeshRef::Static(mesh_id)
    }
}

/// Ids of terrain slots and water slots resolve back to their slots, and
/// every id below the terrain pool names that entry of the static list.
pub proof fn lemma_pool_ids_round_trip(slot: usize)
    requires
        slot < MAX_CHUNKS,
    ensures
        slot < MESH_TERRAIN_BASE ==> resolve_mesh_spec(slot) == MeshRef::Static(slot),
        resolve_mesh_spec((MESH_TERRAIN_BASE + slot) as usize) == MeshRef::Terrain(slot),
        resolve_mesh_spec((MESH_WATER_BASE + slot) as usize) == MeshRef::Water(slot),
{
}

/// How many commands of each pass get a uniform this frame.
#[derive(Clone, Copy, Debug, PartialEq, Eq)]
pub struct BatchPlan {
    pub sky: usize,
    pub opaque: usize,
    pub water: usize,
}

/// The smaller of `a` and `b`.
pub open spec fn min_spec(a: int, b: int) -> int {
    if a <= b {
        a
    } else {
        b
    }
}

/// Shares the uniform pool between the passes in draw order: sky first,
/// then opaque, then water; each takes what it needs of what is left.
/// The sky pass's uniforms start at slot 0, the opaque pass's at `sky`, the
/// water pass's at `sky + opaque`.
pub fn plan_batches(sky: usize, opaque: usize, water: usize) -> (r: BatchPlan)
    ensures
        r.sky == min_spec(sky as int, MAX_INSTANCES as int),
        r.opaque == min_spec(opaque as int, MAX_INSTANCES - r.sky),
        r.water == min_spec(water as int, MAX_INSTANCES - r.sky - r.opaque),
        r.sky + r.opaque + r.water <= MAX_INSTANCES,
{
    let sky_n = if sky <= MAX_INSTANCES { sky } else { MAX_INSTANCES };
    let left = MAX_INSTANCES - sky_n;
    let opaque_n = if opaque <= left { opaque } else { left };
    let left = left - opaque_n;
    let water_n = if water <= left { water } else { left };
    BatchPlan { sky: sky_n, opaque: opaque_n, water: water_n }
}

/// Dynamic offset, in bytes, of uniform slot `slot` of the pool.
pub fn uniform_offset(slot: usize) -> (r: u32)
    requires
        slot < MAX_INSTANCES,
    ensures
        r == slot * UNIFORM_ALIGN,
{
    (slot * UNIFORM_ALIGN) as u32
}

/// Surface size after a resize to `w` by `h`: none for a zero-sized window
/// (the surface is left as it is), otherwise each side capped at the
/// device's largest texture side.
pub fn resized_extent(w: u32, h: u32, max_dim: u32) -> (r: Option<(u32, u32)>)
    ensures
        (w == 0 || h == 0) ==> r is None,
        (w != 0 && h != 0) ==> r == Some(
            (min_spec(w as int, max_dim as int) as u32, min_spec(h as int, max_dim as int) as u32),
        ),
{
    if w == 0 || h == 0 {
        None
    } else {
        let cw = if w <= max_dim { w } else { max_dim };
        let ch = if h <= max_dim { h } else { max_dim };
        Some((cw, ch))
    }
}

/// Surface size at start-up: each side clamped to `1 ..= max_dim`.
pub fn initial_extent(w: u32, h: u32, max_dim: u32) -> (r: (u32, u32))
    requires
        max_dim >= 1,
    ensures
        r.0 == if w < 1 { 1 } else if w > max_dim { max_dim } else { w },
        r.1 == if h < 1 { 1 } else if h > max_dim { max_dim } else { h },
        1 <= r.0 <= max_dim,
        1 <= r.1 <= max_dim,
{
    let cw = if w < 1 { 1 } else if w > max_dim { max_dim } else { w };
    let ch = if h < 1 { 1 } else if h > max_dim { max_dim } else { h };
    (cw, ch)
}

} // verus!
