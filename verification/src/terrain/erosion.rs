//! Integer side of the hydraulic erosion pass over a chunk's height grid:
//! where each droplet starts and which grid sample it flows to.
use vstd::prelude::*;
use crate::rng::{xorshift32, xorshift32_spec, xorshift32_iter};
use super::{CHUNK_CELLS, CHUNK_VERTS};

verus! {

/// Droplets simulated per chunk.
pub const DROPLETS: usize = 400;

/// Most steps a droplet takes.
pub const DROPLET_STEPS: usize = 30;

/// Generator state an erosion pass starts from, given the chunk's seed.
pub fn erosion_rng(seed: u32) -> (r: u32)
    ensures
        r == seed ^ 0xDEAD_BEEFu32,
{
    seed ^ 0xDEAD_BEEFu32
}

/// Start of one droplet: the generator after two draws, and the column and
/// row those draws picked.
#[derive(Clone, Copy, Debug, PartialEq, Eq)]
pub struct DropletStart {
    pub rng: u32,
    pub col: usize,
    pub row: usize,
}

/// Draws a droplet's starting cell: the first draw picks the column, the
/// second the row, each taken modulo `CHUNK_CELLS`.
pub fn droplet_start(rng: u32) -> (r: DropletStart)
    ensures
        r.rng == xorshift32_iter(rng, 2),
        r.col == xorshift32_spec(rng) % (CHUNK_CELLS as u32),
        r.row == r.rng % (CHUNK_CELLS as u32),
        r.col < CHUNK_CELLS,
        r.row < CHUNK_CELLS,
{
    let a = xorshift32(rng);
    let col = (a as usize) % CHUNK_CELLS;
    let b = xorshift32(a);
    let row = (b as usize) % CHUNK_CELLS;
    assert(xorshift32_iter(rng, 2) == xorshift32_spec(xorshift32_iter(rng, 1)));
    assert(xorshift32_iter(rng, 1) == xorshift32_spec(xorshift32_iter(rng, 0)));
    DropletStart { rng: b, col, row }
}

/// A step to one of the four edge neighbours of a grid sample.
#[derive(Clone, Copy, Debug, PartialEq, Eq)]
pub enum Flow {
    /// column - 1
    West,
    /// column + 1
    East,
    /// row - 1
    South,
    /// row + 1
    North,
}

/// The sample one step from `(col, row)`, or none off the grid.
pub open spec fn flow_target_spec(col: int, row: int, f: Flow) -> Option<(int, int)> {
    let (c, r) = match f {
        Flow::West => (col - 1, row),
        Flow::East => (col + 1, row),
        Flow::South => (col, row - 1),
        Flow::North => (col, row + 1),
    };
    if 0 <= c < CHUNK_VERTS && 0 <= r < CHUNK_VERTS {
        Some((c, r))
    } else {
        None
    }
}

/// The opposite direction.
pub open spec fn reverse_flow(f: Flow) -> Flow {
    match f {
        Flow::West => Flow::East,
        Flow::East => Flow::West,
        Flow::South => Flow::North,
        Flow::North => Flow::South,
    }
}

/// A flow step lands on an edge neighbour (one sample away along exactly one
/// axis, west/east along columns, south/north along rows) inside the grid,
/// and stepping back the opposite way returns to the start. A step is
/// refused only at the grid's edge it points across.
pub proof fn lemma_flow_step(col: int, row: int, f: Flow)
    requires
        0 <= col < CHUNK_VERTS,
        0 <= row < CHUNK_VERTS,
    ensures
        flow_target_spec(col, row, f) matches Some(p) ==> {
            &&& 0 <= p.0 < CHUNK_VERTS && 0 <= p.1 < CHUNK_VERTS
            &&& (f == Flow::West ==> p == (col - 1, row))
            &&& (f == Flow::East ==> p == (col + 1, row))
            &&& (f == Flow::South ==> p == (col, row - 1))
            &&& (f == Flow::North ==> p == (col, row + 1))
            &&& flow_target_spec(p.0, p.1, reverse_flow(f)) == Some((col, row))
        },
        flow_target_spec(col, row, f) is None <==> ((f == Flow::West && col == 0) || (f == Flow::East && col
            == CHUNK_VERTS - 1) || (f == Flow::South && row == 0) || (f == Flow::North && row == CHUNK_VERTS
            - 1)),
{
}

/// Where a droplet at `(col, row)` flowing `f` lands, or none if it would
/// leave the grid.
pub fn flow_target(col: usize, row: usize, f: Flow) -> (r: Option<(usize, usize)>)
    requires
        col < CHUNK_VERTS,
        row < CHUNK_VERTS,
    ensures
        r is Some <==> flow_target_spec(col as int, row as int, f) is Some,
        r matches Some(p) ==> flow_target_spec(col as int, row as int, f) == Some((p.0 as int, p.1 as int)),
{
    match f {
        Flow::West => if col > 0 {
            Some((col - 1, row))
        } else {
            None
        },
        Flow::East => if col + 1 < CHUNK_VERTS {
            Some((col + 1, row))
        } else {
            None
        },
        Flow::South => if row > 0 {
            Some((col, row - 1))
        } else {
            None
        },
        Flow::North => if row + 1 < CHUNK_VERTS {
            Some((col, row + 1))
        } else {
            None
        },
    }
}

/// Position of sample `(col, row)` in a chunk's row-major height grid.
pub fn grid_index(col: usize, row: usize) -> (r: usize)
    requires
        col < CHUNK_VERTS,
        row < CHUNK_VERTS,
    ensures
        r == row * CHUNK_VERTS + col,
        r < CHUNK_VERTS * CHUNK_VERTS,
{
    assert(CHUNK_VERTS == 65);
    assert(row * 65 + col < 65 * 65) by (nonlinear_arith)
        requires
            col < 65,
            row < 65,
    ;
    row * CHUNK_VERTS + col
}

/// Grid index of the neighbour of `(col, row)` in direction `f`, if on the grid.
pub fn neighbour_index(col: usize, row: usize, f: Flow) -> (r: Option<usize>)
    requires
        col < CHUNK_VERTS,
        row < CHUNK_VERTS,
    ensures
        r is Some <==> flow_target_spec(col as int, row as int, f) is Some,
        r matches Some(i) ==> ({
            let p = flow_target_spec(col as int, row as int, f)->0;
            i == p.1 * CHUNK_VERTS + p.0
        }),
        r matches Some(i) ==> i < CHUNK_VERTS * CHUNK_VERTS,
{
    match flow_target(col, row, f) {
        Some((c, r)) => Some(grid_index(c, r)),
        None => None,
    }
}

} // verus!
