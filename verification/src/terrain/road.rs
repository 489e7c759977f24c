//! Index arithmetic of the road spline: sample windows for smoothing and for
//! nearest-point search, and the segment an arc length falls in.
use vstd::prelude::*;

verus! {

/// Road samples along the spline.
pub const N_SPLINE: usize = 2501;

/// Half-width, in samples, of the moving average that smooths road heights.
pub const SMOOTH_HALF_WINDOW: usize = 40;

/// Stride of the coarse nearest-sample search.
pub const COARSE_STRIDE: usize = 8;

/// Half-width, in samples, of the fine nearest-sample search.
pub const FINE_HALF_WINDOW: usize = 16;

/// Most segments the road mesh is built from.
pub const ROAD_MESH_SEGMENTS: usize = 2499;

/// The samples `lo ..= hi` within `half` of sample `i`, cut off at both ends
/// of a spline of `n` samples.
pub open spec fn window_spec(i: int, half: int, n: int) -> (int, int) {
    (if i >= half { i - half } else { 0 }, if i + half <= n - 1 { i + half } else { n - 1 })
}

/// Samples averaged into the smoothed height of sample `i` of `n`.
pub fn smoothing_window(i: usize, n: usize) -> (r: (usize, usize))
    requires
        i < n,
    ensures
        (r.0 as int, r.1 as int) == window_spec(i as int, SMOOTH_HALF_WINDOW as int, n as int),
        r.0 <= i <= r.1 < n,
{
    window(i, SMOOTH_HALF_WINDOW, n)
}

/// Samples the fine search visits around the coarse best sample `best` of `n`.
pub fn search_window(best: usize, n: usize) -> (r: (usize, usize))
    requires
        best < n,
    ensures
        (r.0 as int, r.1 as int) == window_spec(best as int, FINE_HALF_WINDOW as int, n as int),
        r.0 <= best <= r.1 < n,
{
    window(best, FINE_HALF_WINDOW, n)
}

fn window(i: usize, half: usize, n: usize) -> (r: (usize, usize))
    requires
        i < n,
        half <= 64,
    ensures
        (r.0 as int, r.1 as int) == window_spec(i as int, half as int, n as int),
        r.0 <= i <= r.1 < n,
{
    let lo = i.saturating_sub(half);
    let hi = if half <= n - 1 - i {
        i + half
    } else {
        n - 1
    };
    (lo, hi)
}

/// Segment holding the point `raw` whole steps along a spline of `n`
/// samples: `raw` itself, kept so that the segment's far end `r + 1` is still
/// a sample.
pub fn segment_index(raw: usize, n: usize) -> (r: usize)
    requires
        n >= 2,
    ensures
        r == if raw <= n - 2 { raw } else { (n - 2) as usize },
        r + 1 < n,
{
    if raw <= n - 2 {
        raw
    } else {
        n - 2
    }
}

/// Segments of the road mesh for a spline of `n` samples.
pub fn road_segments(n: usize) -> (r: usize)
    ensures
        r == if n < 2 {
            0
        } else if n - 2 <= ROAD_MESH_SEGMENTS {
            (n - 2) as usize
        } else {
            ROAD_MESH_SEGMENTS
        },
{
    let m = n.saturating_sub(2);
    if m <= ROAD_MESH_SEGMENTS {
        m
    } else {
        ROAD_MESH_SEGMENTS
    }
}

} // verus!
