//! Index buffers of the procedural meshes. Vertex positions are computed by
//! the caller; these functions fix how the vertices are joined into
//! triangles, and prove that every index names an existing vertex.
use vstd::prelude::*;

verus! {

/// Corner `j` (0..6) of the two triangles of quad `(row, col)` in a grid of
/// vertices `cols + 1` wide. With `flip == false` the triangles are
/// `a b c, b d c`; with `flip == true` they are `a c b, b c d`, where `a`, `b`
/// are the quad's corners on `row` and `c`, `d` those on `row + 1`.
pub open spec fn grid_corner(cols: int, flip: bool, row: int, col: int, j: int) -> int {
    let w = cols + 1;
    let a = row * w + col;
    let b = a + 1;
    let c = (row + 1) * w + col;
    let d = c + 1;
    if !flip {
        if j == 0 {
            a
        } else if j == 1 {
            b
        } else if j == 2 {
            c
        } else if j == 3 {
            b
        } else if j == 4 {
            d
        } else {
            c
        }
    } else {
        if j == 0 {
            a
        } else if j == 1 {
            c
        } else if j == 2 {
            b
        } else if j == 3 {
            b
        } else if j == 4 {
            c
        } else {
            d
        }
    }
}

proof fn lemma_grid_bounds(rows: int, cols: int, row: int, col: int)
    requires
        0 <= row < rows,
        0 <= col < cols,
    ensures
        (row + 1) * (cols + 1) + col + 1 < (rows + 1) * (cols + 1),
        0 <= row * (cols + 1) + col,
        row * (cols + 1) + col < (row + 1) * (cols + 1) + col,
        (row + 1) * (cols + 1) == row * (cols + 1) + cols + 1,
{
    assert((row + 1) * (cols + 1) + col + 1 < (rows + 1) * (cols + 1)) by (nonlinear_arith)
        requires
            0 <= row < rows,
            0 <= col < cols,
    ;
    assert(0 <= row * (cols + 1)) by (nonlinear_arith)
        requires
            0 <= row,
            0 <= cols,
    ;
    assert((row + 1) * (cols + 1) == row * (cols + 1) + cols + 1) by (nonlinear_arith);
}

proof fn lemma_quad_order(cols: int, r1: int, c1: int, r2: int, c2: int)
    requires
        0 <= c1 < cols,
        0 <= c2 < cols,
        0 <= r1,
        0 <= r2,
        r1 < r2 || (r1 == r2 && c1 < c2),
    ensures
        r1 * cols + c1 < r2 * cols + c2,
{
    if r1 < r2 {
        assert(r1 * cols + c1 < r2 * cols + c2) by (nonlinear_arith)
            requires
                r1 < r2,
                0 <= c1 < cols,
                0 <= c2,
        ;
    }
}

/// Grid coordinates `(column, row)` of vertex `v` in a grid `w` vertices wide.
pub open spec fn grid_point(w: int, v: int) -> (int, int) {
    (v % w, v / w)
}

/// Twice the signed area of triangle `p q s` laid out in grid coordinates:
/// positive when it turns from the column axis towards the row axis.
pub open spec fn grid_orientation(w: int, p: int, q: int, s: int) -> int {
    let (px, py) = grid_point(w, p);
    let (qx, qy) = grid_point(w, q);
    let (sx, sy) = grid_point(w, s);
    (qx - px) * (sy - py) - (qy - py) * (sx - px)
}

proof fn lemma_grid_point(w: int, row: int, col: int)
    requires
        0 <= col < w,
        0 <= row,
    ensures
        grid_point(w, row * w + col) == (col, row),
{
    vstd::arithmetic::div_mod::lemma_fundamental_div_mod_converse(row * w + col, w, row, col);
}

/// Every quad of a grid is split into two triangles of the same winding,
/// whatever its position: both are unit-area triangles turning one way
/// (`+1`) without `flip` and the other way (`-1`) with it, and together they
/// use exactly the quad's four corners. The triangles of the quad one column
/// further are the same shifted by one vertex, those of the quad one row
/// further the same shifted by a row of vertices, and the first quad is
/// `0 1 w, 1 w+1 w` (`0 w 1, 1 w w+1` with `flip`) for `w = cols + 1`.
pub proof fn lemma_grid_winding(cols: int, flip: bool, row: int, col: int)
    requires
        0 <= row,
        0 <= col < cols,
    ensures
        grid_orientation(cols + 1, grid_corner(cols, flip, row, col, 0), grid_corner(cols, flip, row, col, 1),
            grid_corner(cols, flip, row, col, 2)) == if flip { -1int } else { 1int },
        grid_orientation(cols + 1, grid_corner(cols, flip, row, col, 3), grid_corner(cols, flip, row, col, 4),
            grid_corner(cols, flip, row, col, 5)) == if flip { -1int } else { 1int },
        forall|j: int| 0 <= j < 6 ==> {
            let v = #[trigger] grid_corner(cols, flip, row, col, j);
            ||| v == row * (cols + 1) + col
            ||| v == row * (cols + 1) + col + 1
            ||| v == (row + 1) * (cols + 1) + col
            ||| v == (row + 1) * (cols + 1) + col + 1
        },
        forall|j: int| 0 <= j < 6 ==> #[trigger] grid_corner(cols, flip, row, col + 1, j)
            == grid_corner(cols, flip, row, col, j) + 1,
        forall|j: int| 0 <= j < 6 ==> #[trigger] grid_corner(cols, flip, row + 1, col, j)
            == grid_corner(cols, flip, row, col, j) + cols + 1,
        !flip ==> seq![0int, 1, 2, 3, 4, 5].map_values(|j: int| grid_corner(cols, flip, 0, 0, j))
            == seq![0int, 1, cols + 1, 1, cols + 2, cols + 1],
        flip ==> seq![0int, 1, 2, 3, 4, 5].map_values(|j: int| grid_corner(cols, flip, 0, 0, j))
            == seq![0int, cols + 1, 1, 1, cols + 1, cols + 2],
{
    let w = cols + 1;
    lemma_grid_point(w, row, col);
    lemma_grid_point(w, row, col + 1);
    lemma_grid_point(w, row + 1, col);
    lemma_grid_point(w, row + 1, col + 1);
    assert(row * w + col + 1 == row * w + (col + 1));
    assert((row + 1) * w + col + 1 == (row + 1) * w + (col + 1));
    assert((row + 1) * w == row * w + w) by (nonlinear_arith);
    assert((row + 2) * w == (row + 1) * w + w) by (nonlinear_arith);
    let a = row * w + col;
    let b = a + 1;
    let c = (row + 1) * w + col;
    let d = c + 1;
    assert(grid_point(w, a) == (col, row));
    assert(grid_point(w, b) == (col + 1, row));
    assert(grid_point(w, c) == (col, row + 1));
    assert(grid_point(w, d) == (col + 1, row + 1));
    if flip {
        assert(grid_orientation(w, a, c, b) == -1) by {
            assert((col - col) * (row - row) - (row + 1 - row) * (col + 1 - col) == -1) by (nonlinear_arith);
        }
        assert(grid_orientation(w, b, c, d) == -1) by {
            assert((col - (col + 1)) * (row + 1 - row) - (row + 1 - row) * (col + 1 - (col + 1)) == -1) by (nonlinear_arith);
        }
    } else {
        assert(grid_orientation(w, a, b, c) == 1) by {
            assert((col + 1 - col) * (row + 1 - row) - (row - row) * (col - col) == 1) by (nonlinear_arith);
        }
        assert(grid_orientation(w, b, d, c) == 1) by {
            assert((col + 1 - (col + 1)) * (row + 1 - row) - (row + 1 - row) * (col - (col + 1)) == 1) by (nonlinear_arith);
        }
    }
    assert(seq![0int, 1, 2, 3, 4, 5].map_values(|j: int| grid_corner(cols, flip, 0, 0, j))
        =~= if flip { seq![0int, cols + 1, 1, 1, cols + 1, cols + 2] } else { seq![0int, 1, cols + 1, 1, cols + 2, cols + 1] });
}

/// Triangle list of a `rows` by `cols` grid of quads (see `grid_corner`):
/// quad `(row, col)` owns entries `6 * (row * cols + col)` to `+ 5`.
pub fn quad_grid_indices(rows: usize, cols: usize, flip: bool) -> (r: Vec<u16>)
    requires
        (rows + 1) * (cols + 1) <= 0x1_0000,
    ensures
        r@.len() == rows * cols * 6,
        forall|row: int, col: int, j: int|
            0 <= row < rows && 0 <= col < cols && 0 <= j < 6 ==> #[trigger] r@[(row * cols + col) * 6 + j]
                == grid_corner(cols as int, flip, row, col, j),
        forall|t: int| 0 <= t < r@.len() ==> #[trigger] r@[t] < (rows + 1) * (cols + 1),
{
    let ghost nverts = (rows + 1) * (cols + 1);
    let mut out: Vec<u16> = Vec::new();
    assert(cols + 1 <= 0x1_0000 && rows + 1 <= 0x1_0000) by (nonlinear_arith)
        requires
            (rows + 1) * (cols + 1) <= 0x1_0000,
            rows >= 0,
            cols >= 0,
    ;
    let w = cols + 1;
    let mut row: usize = 0;
    assert(0 * cols == 0) by (nonlinear_arith);
    while row < rows
        invariant
            nverts == (rows + 1) * (cols + 1),
            nverts <= 0x1_0000,
            w == cols + 1,
            row <= rows,
            out@.len() == (row * cols) * 6,
            forall|r1: int, c1: int, j: int|
                0 <= r1 < row && 0 <= c1 < cols && 0 <= j < 6 ==> #[trigger] out@[(r1 * cols + c1) * 6 + j]
                    == grid_corner(cols as int, flip, r1, c1, j),
            forall|t: int| 0 <= t < out@.len() ==> #[trigger] out@[t] < nverts,
        decreases rows - row,
    {
        let mut col: usize = 0;
        while col < cols
            invariant
                nverts == (rows + 1) * (cols + 1),
                nverts <= 0x1_0000,
                w == cols + 1,
                row < rows,
                col <= cols,
                out@.len() == (row * cols + col) * 6,
                forall|r1: int, c1: int, j: int|
                    ((0 <= r1 < row && 0 <= c1 < cols) || (r1 == row && 0 <= c1 < col)) && 0 <= j < 6
                        ==> #[trigger] out@[(r1 * cols + c1) * 6 + j] == grid_corner(
                        cols as int,
                        flip,
                        r1,
                        c1,
                        j,
                    ),
                forall|t: int| 0 <= t < out@.len() ==> #[trigger] out@[t] < nverts,
            decreases cols - col,
        {
            proof {
                lemma_grid_bounds(rows as int, cols as int, row as int, col as int);
            }
            let a = row * w + col;
            let b = a + 1;
            let c = (row + 1) * w + col;
            let d = c + 1;
            let ghost prev = out@;
            if !flip {
                out.push(a as u16);
                out.push(b as u16);
                out.push(c as u16);
                out.push(b as u16);
                out.push(d as u16);
                out.push(c as u16);
            } else {
                out.push(a as u16);
                out.push(c as u16);
                out.push(b as u16);
                out.push(b as u16);
                out.push(c as u16);
                out.push(d as u16);
            }
            proof {
                let base = (row * cols + col) * 6;
                assert forall|r1: int, c1: int, j: int|
                    ((0 <= r1 < row && 0 <= c1 < cols) || (r1 == row && 0 <= c1 < col + 1)) && 0 <= j < 6
                        implies #[trigger] out@[(r1 * cols + c1) * 6 + j] == grid_corner(
                    cols as int,
                    flip,
                    r1,
                    c1,
                    j,
                ) by {
                    if r1 == row && c1 == col {
                        assert(out@[base + j] == grid_corner(cols as int, flip, r1, c1, j));
                    } else {
                        lemma_quad_order(cols as int, r1, c1, row as int, col as int);
                        assert(out@[(r1 * cols + c1) * 6 + j] == prev[(r1 * cols + c1) * 6 + j]);
                    }
                }
            }
            col = col + 1;
        }
        proof {
            assert((row + 1) * cols == row * cols + cols) by (nonlinear_arith);
        }
        row = row + 1;
    }
    out
}

/// Two triangles `0 1 2, 0 2 3` over a quad whose vertices start at `base`.
pub open spec fn fan_quad_corner(base: int, j: int) -> int {
    base + if j == 0 || j == 3 {
        0int
    } else if j == 1 {
        1int
    } else if j == 2 || j == 4 {
        2int
    } else {
        3int
    }
}

proof fn lemma_div_mod(x: int, d: int, q: int, r: int)
    requires
        d > 0,
        0 <= r < d,
        x == q * d + r,
    ensures
        x / d == q,
        x % d == r,
{
    vstd::arithmetic::div_mod::lemma_fundamental_div_mod_converse(x, d, q, r);
}

/// The cube's faces are all split the same way: face `f + 1` is face `f`
/// shifted by four vertices, and face 0 is `0 1 2, 0 2 3`.
pub proof fn lemma_cube_faces(f: int)
    requires
        0 <= f < 5,
    ensures
        forall|j: int| 0 <= j < 6 ==> #[trigger] fan_quad_corner(4 * (f + 1), j) == fan_quad_corner(4 * f, j) + 4,
        seq![0int, 1, 2, 3, 4, 5].map_values(|j: int| fan_quad_corner(0, j)) == seq![0int, 1, 2, 0, 2, 3],
{
    assert(seq![0int, 1, 2, 3, 4, 5].map_values(|j: int| fan_quad_corner(0, j)) =~= seq![0int, 1, 2, 0, 2, 3]);
}

/// The cube: six faces of four vertices each, face `f` owning vertices
/// `4f .. 4f + 3` and indices `6f .. 6f + 5`.
pub fn cube_indices() -> (r: Vec<u16>)
    ensures
        r@.len() == 36,
        forall|f: int, j: int| 0 <= f < 6 && 0 <= j < 6 ==> #[trigger] r@[6 * f + j] == fan_quad_corner(4 * f, j),
        forall|t: int| 0 <= t < r@.len() ==> #[trigger] r@[t] < 24,
{
    let mut out: Vec<u16> = Vec::new();
    let mut f: u16 = 0;
    while f < 6
        invariant
            f <= 6,
            out@.len() == 6 * f,
            forall|g: int, j: int| 0 <= g < f && 0 <= j < 6 ==> #[trigger] out@[6 * g + j] == fan_quad_corner(4 * g, j),
            forall|t: int| 0 <= t < out@.len() ==> #[trigger] out@[t] < 24,
        decreases 6 - f,
    {
        let b = f * 4;
        let ghost prev = out@;
        out.push(b);
        out.push(b + 1);
        out.push(b + 2);
        out.push(b);
        out.push(b + 2);
        out.push(b + 3);
        assert forall|g: int, j: int| 0 <= g < f + 1 && 0 <= j < 6 implies #[trigger] out@[6 * g + j]
            == fan_quad_corner(4 * g, j) by {
            if g < f {
                assert(out@[6 * g + j] == prev[6 * g + j]);
            }
        }
        f = f + 1;
    }
    out
}

/// Entry `t` of the cylinder's index list for `sides` sides. Vertices: the
/// `+X` cap centre `0` and ring `1 ..= sides`, the `-X` cap centre `sides + 1`
/// and ring `sides + 2 ..= 2 sides + 1`, then four vertices per side quad.
/// Triangles: one per side on each cap (the `-X` cap wound the other way),
/// then two per side quad.
pub open spec fn cylinder_corner(sides: int, t: int) -> int {
    if t < 3 * sides {
        let i = t / 3;
        let j = t % 3;
        if j == 0 {
            0int
        } else if j == 1 {
            1 + i
        } else {
            1 + (i + 1) % sides
        }
    } else if t < 6 * sides {
        let i = (t - 3 * sides) / 3;
        let j = (t - 3 * sides) % 3;
        if j == 0 {
            sides + 1
        } else if j == 1 {
            sides + 2 + (i + 1) % sides
        } else {
            sides + 2 + i
        }
    } else {
        let i = (t - 6 * sides) / 6;
        let j = (t - 6 * sides) % 6;
        fan_quad_corner(2 * sides + 2 + 4 * i, j)
    }
}

/// The cylinder's triangles repeat around its axis:
/// - the `+X` cap is a closed fan around vertex 0: triangle `i` starts at the
///   centre and its last ring vertex is the first ring vertex of triangle
///   `i + 1` (the last triangle closes onto the first);
/// - the `-X` cap is the `+X` cap moved to the other ring (`sides + 1`
///   vertices on) with each triangle's two ring vertices swapped, so it faces
///   the other way;
/// - every side quad is split the same way: the second triangle reuses the
///   first triangle's first and last vertices, quad `i + 1` is quad `i`
///   shifted by four vertices, and quad 0 is `b b+1 b+2, b b+2 b+3` with
///   `b = 2 sides + 2`.
pub proof fn lemma_cylinder_layout(sides: int, i: int)
    requires
        0 <= i < sides,
    ensures
        cylinder_corner(sides, 3 * i) == 0,
        cylinder_corner(sides, 3 * i + 1) == 1 + i,
        cylinder_corner(sides, 3 * i + 2) == cylinder_corner(sides, 3 * ((i + 1) % sides) + 1),
        cylinder_corner(sides, 3 * sides + 3 * i) == cylinder_corner(sides, 3 * i) + sides + 1,
        cylinder_corner(sides, 3 * sides + 3 * i + 1) == cylinder_corner(sides, 3 * i + 2) + sides + 1,
        cylinder_corner(sides, 3 * sides + 3 * i + 2) == cylinder_corner(sides, 3 * i + 1) + sides + 1,
        cylinder_corner(sides, 6 * sides + 6 * i + 3) == cylinder_corner(sides, 6 * sides + 6 * i),
        cylinder_corner(sides, 6 * sides + 6 * i + 4) == cylinder_corner(sides, 6 * sides + 6 * i + 2),
        i + 1 < sides ==> forall|j: int| 0 <= j < 6 ==> #[trigger] cylinder_corner(sides, 6 * sides + 6 * (i + 1) + j)
            == cylinder_corner(sides, 6 * sides + 6 * i + j) + 4,
        seq![0int, 1, 2, 3, 4, 5].map_values(|j: int| cylinder_corner(sides, 6 * sides + j)) == seq![
            2 * sides + 2,
            2 * sides + 3,
            2 * sides + 4,
            2 * sides + 2,
            2 * sides + 4,
            2 * sides + 5,
        ],
{
    let i2 = (i + 1) % sides;
    lemma_div_mod(3 * i, 3, i, 0);
    lemma_div_mod(3 * i + 1, 3, i, 1);
    lemma_div_mod(3 * i + 2, 3, i, 2);
    assert(0 <= i2 < sides);
    lemma_div_mod(3 * i2 + 1, 3, i2, 1);
    lemma_div_mod(3 * i, 3, i, 0);
    lemma_div_mod(3 * sides + 3 * i - 3 * sides, 3, i, 0);
    lemma_div_mod(3 * sides + 3 * i + 1 - 3 * sides, 3, i, 1);
    lemma_div_mod(3 * sides + 3 * i + 2 - 3 * sides, 3, i, 2);
    assert forall|j: int| 0 <= j < 6 implies #[trigger] cylinder_corner(sides, 6 * sides + 6 * i + j)
        == fan_quad_corner(2 * sides + 2 + 4 * i, j) by {
        lemma_div_mod(6 * sides + 6 * i + j - 6 * sides, 6, i, j);
    }
    if i + 1 < sides {
        assert forall|j: int| 0 <= j < 6 implies #[trigger] cylinder_corner(sides, 6 * sides + 6 * (i + 1) + j)
            == cylinder_corner(sides, 6 * sides + 6 * i + j) + 4 by {
            lemma_div_mod(6 * sides + 6 * i + j - 6 * sides, 6, i, j);
            lemma_div_mod(6 * sides + 6 * (i + 1) + j - 6 * sides, 6, i + 1, j);
        }
    }
    assert forall|j: int| 0 <= j < 6 implies #[trigger] cylinder_corner(sides, 6 * sides + j)
        == fan_quad_corner(2 * sides + 2, j) by {
        lemma_div_mod(6 * sides + j - 6 * sides, 6, 0, j);
    }
    assert(seq![0int, 1, 2, 3, 4, 5].map_values(|j: int| cylinder_corner(sides, 6 * sides + j)) =~= seq![
        2 * sides + 2,
        2 * sides + 3,
        2 * sides + 4,
        2 * sides + 2,
        2 * sides + 4,
        2 * sides + 5,
    ]);
}

/// Index list of the cylinder built with `sides` sides (see `cylinder_corner`).
pub fn cylinder_indices(sides: u32) -> (r: Vec<u16>)
    requires
        6 * sides + 2 <= 0x1_0000,
    ensures
        r@.len() == 12 * sides,
        forall|t: int| 0 <= t < r@.len() ==> #[trigger] r@[t] == cylinder_corner(sides as int, t),
        forall|t: int| 0 <= t < r@.len() ==> #[trigger] r@[t] < 6 * sides + 2,
{
    let n = sides as u16;
    let mut out: Vec<u16> = Vec::new();
    // +X cap
    let mut i: u16 = 0;
    while i < n
        invariant
            n == sides,
            6 * n + 2 <= 0x1_0000,
            i <= n,
            out@.len() == 3 * i,
            forall|t: int| 0 <= t < out@.len() ==> #[trigger] out@[t] == cylinder_corner(n as int, t),
        decreases n - i,
    {
        let ghost prev = out@;
        out.push(0);
        out.push(1 + i);
        out.push(1 + (i + 1) % n);
        assert forall|t: int| 0 <= t < out@.len() implies #[trigger] out@[t] == cylinder_corner(n as int, t) by {
            if t < 3 * i {
                assert(out@[t] == prev[t]);
            } else {
                assert(t / 3 == i as int);
            }
        }
        i = i + 1;
    }
    // -X cap
    let mut i: u16 = 0;
    while i < n
        invariant
            n == sides,
            6 * n + 2 <= 0x1_0000,
            i <= n,
            out@.len() == 3 * n + 3 * i,
            forall|t: int| 0 <= t < out@.len() ==> #[trigger] out@[t] == cylinder_corner(n as int, t),
        decreases n - i,
    {
        let ghost prev = out@;
        out.push(n + 1);
        out.push(n + 2 + (i + 1) % n);
        out.push(n + 2 + i);
        assert forall|t: int| 0 <= t < out@.len() implies #[trigger] out@[t] == cylinder_corner(n as int, t) by {
            if t < 3 * n + 3 * i {
                assert(out@[t] == prev[t]);
            } else {
                assert((t - 3 * n) / 3 == i as int);
            }
        }
        i = i + 1;
    }
    // side quads
    let mut i: u16 = 0;
    while i < n
        invariant
            n == sides,
            6 * n + 2 <= 0x1_0000,
            i <= n,
            out@.len() == 6 * n + 6 * i,
            forall|t: int| 0 <= t < out@.len() ==> #[trigger] out@[t] == cylinder_corner(n as int, t),
        decreases n - i,
    {
        let ghost prev = out@;
        let base = 2 * n + 2 + 4 * i;
        out.push(base);
        out.push(base + 1);
        out.push(base + 2);
        out.push(base);
        out.push(base + 2);
        out.push(base + 3);
        assert forall|t: int| 0 <= t < out@.len() implies #[trigger] out@[t] == cylinder_corner(n as int, t) by {
            if t < 6 * n + 6 * i {
                assert(out@[t] == prev[t]);
            } else {
                assert((t - 6 * n) / 6 == i as int);
            }
        }
        i = i + 1;
    }
    assert forall|t: int| 0 <= t < out@.len() implies #[trigger] out@[t] < 6 * sides + 2 by {
        assert(out@[t] == cylinder_corner(n as int, t));
        if t >= 6 * n {
            assert((t - 6 * n) / 6 < n);
        } else if t >= 3 * n {
            assert((t - 3 * n) / 3 < n);
        } else {
            assert(t / 3 < n);
        }
    }
    out
}

/// Entry `t` of the cone's index list for `sides` sectors. Vertices: the
/// base centre `0`, the base ring `1 ..= sides`, then three private vertices
/// per side face (two base corners and the tip). Triangles: a fan over the
/// base, then one per side face wound `base_a, tip, base_b`.
pub open spec fn cone_corner(sides: int, t: int) -> int {
    if t < 3 * sides {
        let i = t / 3;
        let j = t % 3;
        if j == 0 {
            0int
        } else if j == 1 {
            1 + i
        } else {
            1 + (i + 1) % sides
        }
    } else {
        let i = (t - 3 * sides) / 3;
        let j = (t - 3 * sides) % 3;
        let base_a = 1 + sides + 3 * i;
        if j == 0 {
            base_a
        } else if j == 1 {
            base_a + 2
        } else {
            base_a + 1
        }
    }
}

/// The cone's triangles repeat around its axis: the base is a closed fan
/// around vertex 0 (triangle `i` ends on the ring vertex where triangle
/// `i + 1` starts), and every side face is wound the same way: face `i + 1`
/// is face `i` shifted by three vertices, and face 0 is
/// `sides+1, sides+3, sides+2` (base corner, tip, other base corner).
pub proof fn lemma_cone_layout(sides: int, i: int)
    requires
        0 <= i < sides,
    ensures
        cone_corner(sides, 3 * i) == 0,
        cone_corner(sides, 3 * i + 1) == 1 + i,
        cone_corner(sides, 3 * i + 2) == cone_corner(sides, 3 * ((i + 1) % sides) + 1),
        i + 1 < sides ==> forall|j: int| 0 <= j < 3 ==> #[trigger] cone_corner(sides, 3 * sides + 3 * (i + 1) + j)
            == cone_corner(sides, 3 * sides + 3 * i + j) + 3,
        seq![0int, 1, 2].map_values(|j: int| cone_corner(sides, 3 * sides + j)) == seq![
            sides + 1,
            sides + 3,
            sides + 2,
        ],
{
    let i2 = (i + 1) % sides;
    lemma_div_mod(3 * i, 3, i, 0);
    lemma_div_mod(3 * i + 1, 3, i, 1);
    lemma_div_mod(3 * i + 2, 3, i, 2);
    assert(0 <= i2 < sides);
    lemma_div_mod(3 * i2 + 1, 3, i2, 1);
    if i + 1 < sides {
        assert forall|j: int| 0 <= j < 3 implies #[trigger] cone_corner(sides, 3 * sides + 3 * (i + 1) + j)
            == cone_corner(sides, 3 * sides + 3 * i + j) + 3 by {
            lemma_div_mod(3 * sides + 3 * i + j - 3 * sides, 3, i, j);
            lemma_div_mod(3 * sides + 3 * (i + 1) + j - 3 * sides, 3, i + 1, j);
        }
    }
    assert forall|j: int| 0 <= j < 3 implies #[trigger] cone_corner(sides, 3 * sides + j) == (if j == 0 {
        sides + 1
    } else if j == 1 {
        sides + 3
    } else {
        sides + 2
    }) by {
        lemma_div_mod(3 * sides + j - 3 * sides, 3, 0, j);
    }
    assert(seq![0int, 1, 2].map_values(|j: int| cone_corner(sides, 3 * sides + j)) =~= seq![
        sides + 1,
        sides + 3,
        sides + 2,
    ]);
}

/// Index list of the cone built with `sides` sectors (see `cone_corner`).
pub fn cone_indices(sides: u32) -> (r: Vec<u16>)
    requires
        4 * sides + 1 <= 0x1_0000,
    ensures
        r@.len() == 6 * sides,
        forall|t: int| 0 <= t < r@.len() ==> #[trigger] r@[t] == cone_corner(sides as int, t),
        forall|t: int| 0 <= t < r@.len() ==> #[trigger] r@[t] < 4 * sides + 1,
{
    let n = sides as u16;
    let mut out: Vec<u16> = Vec::new();
    let mut i: u16 = 0;
    while i < n
        invariant
            n == sides,
            4 * n + 1 <= 0x1_0000,
            i <= n,
            out@.len() == 3 * i,
            forall|t: int| 0 <= t < out@.len() ==> #[trigger] out@[t] == cone_corner(n as int, t),
        decreases n - i,
    {
        let ghost prev = out@;
        out.push(0);
        out.push(1 + i);
        out.push(1 + (i + 1) % n);
        assert forall|t: int| 0 <= t < out@.len() implies #[trigger] out@[t] == cone_corner(n as int, t) by {
            if t < 3 * i {
                assert(out@[t] == prev[t]);
            } else {
                assert(t / 3 == i as int);
            }
        }
        i = i + 1;
    }
    let mut i: u16 = 0;
    while i < n
        invariant
            n == sides,
            4 * n + 1 <= 0x1_0000,
            i <= n,
            out@.len() == 3 * n + 3 * i,
            forall|t: int| 0 <= t < out@.len() ==> #[trigger] out@[t] == cone_corner(n as int, t),
        decreases n - i,
    {
        let ghost prev = out@;
        let base_a = 1 + n + 3 * i;
        out.push(base_a);
        out.push(base_a + 2);
        out.push(base_a + 1);
        assert forall|t: int| 0 <= t < out@.len() implies #[trigger] out@[t] == cone_corner(n as int, t) by {
            if t < 3 * n + 3 * i {
                assert(out@[t] == prev[t]);
            } else {
                assert((t - 3 * n) / 3 == i as int);
            }
        }
        i = i + 1;
    }
    assert forall|t: int| 0 <= t < out@.len() implies #[trigger] out@[t] < 4 * sides + 1 by {
        assert(out@[t] == cone_corner(n as int, t));
        if t >= 3 * n {
            assert((t - 3 * n) / 3 < n);
        } else {
            assert(t / 3 < n);
        }
    }
    out
}

/// The two triangles of a water quad whose four vertices start at `base`:
/// `base, base+2, base+1` and `base+1, base+2, base+3`.
pub fn water_quad_indices(base: u16) -> (r: Vec<u16>)
    requires
        base + 3 <= u16::MAX,
    ensures
        r@ == seq![base, (base + 2) as u16, (base + 1) as u16, (base + 1) as u16, (base + 2) as u16, (base + 3) as u16],
{
    let mut out: Vec<u16> = Vec::new();
    out.push(base);
    out.push(base + 2);
    out.push(base + 1);
    out.push(base + 1);
    out.push(base + 2);
    out.push(base + 3);
    assert(out@ =~= seq![base, (base + 2) as u16, (base + 1) as u16, (base + 1) as u16, (base + 2) as u16, (base + 3) as u16]);
    out
}

/// Vertices per grass blade: five left/right pairs up the blade and the tip.
pub const BLADE_VERTS: u16 = 11;

/// Blades per grass clump.
pub const CLUMP_BLADES: u16 = 3;

/// Entry `t` of the grass clump's index list: blade `b` owns vertices
/// `11 b .. 11 b + 10` and indices `27 b .. 27 b + 26`, nine triangles of a
/// strip where triangle `k` is `k, k+2, k+1` for even `k` and `k, k+1, k+2`
/// for odd `k`.
pub open spec fn clump_corner(t: int) -> int {
    let b = t / 27;
    let k = (t % 27) / 3;
    let j = t % 3;
    11 * b + k + if j == 0 {
        0int
    } else if (j == 1) == (k % 2 == 0) {
        2int
    } else {
        1int
    }
}

/// Triangle `p q s` walks from `x` straight to `y` along one of its edges.
pub open spec fn directed_edge(tri: (int, int, int), x: int, y: int) -> bool {
    ||| (tri.0 == x && tri.1 == y)
    ||| (tri.1 == x && tri.2 == y)
    ||| (tri.2 == x && tri.0 == y)
}

/// The triangle of the clump whose three indices start at entry `t`.
pub open spec fn clump_triangle(t: int) -> (int, int, int) {
    (clump_corner(t), clump_corner(t + 1), clump_corner(t + 2))
}

/// The grass clump is three copies of one blade strip, each `BLADE_VERTS`
/// vertices further on, and every strip is consistently wound: triangle `k`
/// of a blade (over vertices `k, k+1, k+2` of the blade) and triangle `k + 1`
/// share the edge between vertices `k + 1` and `k + 2` and walk it in opposite
/// directions; triangle `k + 2` is triangle `k` two vertices on, and
/// triangle 0 is `0 2 1`.
pub proof fn lemma_clump_layout(b: int, k: int)
    requires
        0 <= b < 3,
        0 <= k < 9,
    ensures
        b + 1 < 3 ==> forall|j: int| 0 <= j < 3 ==> #[trigger] clump_corner(27 * (b + 1) + 3 * k + j)
            == clump_corner(27 * b + 3 * k + j) + 11,
        k + 1 < 9 ==> {
            let t0 = clump_triangle(27 * b + 3 * k);
            let t1 = clump_triangle(27 * b + 3 * (k + 1));
            let v = 11 * b + k;
            &&& directed_edge(t0, v + 1, v + 2) || directed_edge(t0, v + 2, v + 1)
            &&& directed_edge(t0, v + 1, v + 2) == directed_edge(t1, v + 2, v + 1)
            &&& directed_edge(t0, v + 2, v + 1) == directed_edge(t1, v + 1, v + 2)
        },
        k + 2 < 9 ==> forall|j: int| 0 <= j < 3 ==> #[trigger] clump_corner(27 * b + 3 * (k + 2) + j)
            == clump_corner(27 * b + 3 * k + j) + 2,
        seq![0int, 1, 2].map_values(|j: int| clump_corner(j)) == seq![0int, 2, 1],
{
    assert forall|bb: int, kk: int, j: int| 0 <= bb < 3 && 0 <= kk < 9 && 0 <= j < 3 implies #[trigger] clump_corner(27 * bb + 3 * kk + j)
        == 11 * bb + kk + (if j == 0 {
        0int
    } else if (j == 1) == (kk % 2 == 0) {
        2int
    } else {
        1int
    }) by {
        lemma_div_mod(27 * bb + 3 * kk + j, 27, bb, 3 * kk + j);
        lemma_div_mod(3 * kk + j, 3, kk, j);
        lemma_div_mod(27 * bb + 3 * kk + j, 3, 9 * bb + kk, j);
    }
    assert(clump_corner(27 * 0int + 3 * 0int + 0) == 0);
    assert(clump_corner(27 * 0int + 3 * 0int + 1) == 2);
    assert(clump_corner(27 * 0int + 3 * 0int + 2) == 1);
    assert(seq![0int, 1, 2].map_values(|j: int| clump_corner(j)) =~= seq![0int, 2, 1]);
}

/// Index list of a grass clump (see `clump_corner`).
pub fn clump_indices() -> (r: Vec<u16>)
    ensures
        r@.len() == 81,
        forall|t: int| 0 <= t < r@.len() ==> #[trigger] r@[t] == clump_corner(t),
        forall|t: int| 0 <= t < r@.len() ==> #[trigger] r@[t] < 33,
{
    let mut out: Vec<u16> = Vec::new();
    let mut b: u16 = 0;
    while b < CLUMP_BLADES
        invariant
            b <= 3,
            out@.len() == 27 * b,
            forall|t: int| 0 <= t < out@.len() ==> #[trigger] out@[t] == clump_corner(t),
        decreases 3 - b,
    {
        let base = b * BLADE_VERTS;
        let mut k: u16 = 0;
        while k < 9
            invariant
                b < 3,
                base == 11 * b,
                k <= 9,
                out@.len() == 27 * b + 3 * k,
                forall|t: int| 0 <= t < out@.len() ==> #[trigger] out@[t] == clump_corner(t),
            decreases 9 - k,
        {
            let ghost prev = out@;
            if k % 2 == 0 {
                out.push(base + k);
                out.push(base + k + 2);
                out.push(base + k + 1);
            } else {
                out.push(base + k);
                out.push(base + k + 1);
                out.push(base + k + 2);
            }
            assert forall|t: int| 0 <= t < out@.len() implies #[trigger] out@[t] == clump_corner(t) by {
                if t < 27 * b + 3 * k {
                    assert(out@[t] == prev[t]);
                } else {
                    assert(t / 27 == b as int);
                    assert((t % 27) / 3 == k as int);
                }
            }
            k = k + 1;
        }
        b = b + 1;
    }
    assert forall|t: int| 0 <= t < out@.len() implies #[trigger] out@[t] < 33 by {
        assert(out@[t] == clump_corner(t));
        assert(t / 27 < 3);
        assert((t % 27) / 3 < 9);
    }
    out
}

} // verus!
