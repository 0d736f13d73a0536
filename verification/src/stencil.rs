//! Cell selection for the fluid solver.
//!
//! The solver's arithmetic is floating point and lives outside this crate;
//! which cells each pass touches, which neighbours it reads, and how the work
//! is split across worker tasks is decided here:
//!   * the upwind inflow slab (`x < 2`) driven at the wind speed,
//!   * the interior cells swept by diffusion, vorticity confinement and the
//!     pressure projection, in the solver's `z`, `y`, `x` order,
//!   * the cells that keep their previous value in the advection and Jacobi
//!     kernels (the tunnel walls and obstacle cells),
//!   * the six face neighbours of a cell and the Neumann wall rule: a fluid
//!     cell reads its own value in place of a blocked neighbour's,
//!   * the chunking of a per-cell fill across worker tasks.

use vstd::prelude::*;
use crate::lattice::{
    cell_count, flat_index, in_lattice, index_x, index_y, index_z, lemma_index_decompose,
    lemma_index_partials, lemma_index_recompose, spec_index,
};
use vstd::arithmetic::div_mod::{lemma_fundamental_div_mod, lemma_mod_pos_bound};

verus! {

/// Cells of the upwind inflow slab along x: the first two columns, or the
/// whole lattice when it is narrower than that.
pub open spec fn inflow_width(w: int) -> int {
    if w < 2 {
        w
    } else {
        2
    }
}

/// The `k`-th cell of the inflow slab, in `z`, `y`, `x` order.
pub open spec fn inflow_cell(w: int, h: int, k: int) -> int {
    let xm = inflow_width(w);
    spec_index(w, h, index_x(k, xm, h), index_y(k, xm, h), index_z(k, xm, h))
}

/// Number of interior cells (cells not on any tunnel wall) of a
/// `w × h × d` lattice; none when an axis has fewer than three cells.
pub open spec fn interior_count(w: int, h: int, d: int) -> int {
    if w < 3 || h < 3 || d < 3 {
        0
    } else {
        cell_count(w - 2, h - 2, d - 2)
    }
}

/// The `k`-th interior cell, in `z`, `y`, `x` order.
pub open spec fn interior_cell(w: int, h: int, k: int) -> int {
    spec_index(
        w,
        h,
        1 + index_x(k, w - 2, h - 2),
        1 + index_y(k, w - 2, h - 2),
        1 + index_z(k, w - 2, h - 2),
    )
}

/// Flat position `i` lies on a tunnel wall of a `w × h × d` lattice.
pub open spec fn on_wall(i: int, w: int, h: int, d: int) -> bool {
    let x = index_x(i, w, h);
    let y = index_y(i, w, h);
    let z = index_z(i, w, h);
    x == 0 || y == 0 || z == 0 || x >= w - 1 || y >= h - 1 || z >= d - 1
}

/// Position of the `k`-th face neighbour of `i` (`+x`, `-x`, `+y`, `-y`,
/// `+z`, `-z` for `k` = 0 .. 5).
pub open spec fn neighbor(i: int, w: int, h: int, k: int) -> int {
    let x = index_x(i, w, h);
    let y = index_y(i, w, h);
    let z = index_z(i, w, h);
    if k == 0 {
        spec_index(w, h, x + 1, y, z)
    } else if k == 1 {
        spec_index(w, h, x - 1, y, z)
    } else if k == 2 {
        spec_index(w, h, x, y + 1, z)
    } else if k == 3 {
        spec_index(w, h, x, y - 1, z)
    } else if k == 4 {
        spec_index(w, h, x, y, z + 1)
    } else {
        spec_index(w, h, x, y, z - 1)
    }
}

/// Neumann wall rule: the value read for neighbour `j` of cell `i` comes from
/// `j` itself unless `j` is blocked, in which case `i` reads its own value.
pub open spec fn wall_source(solid: Seq<bool>, i: int, j: int) -> int {
    if solid[j] {
        i
    } else {
        j
    }
}

/// `ceil(a / b)` for positive `b`.
pub open spec fn ceil_div(a: int, b: int) -> int {
    (a + b - 1) / b
}

/// Size of each chunk when `len` cells are split across `threads` workers
/// (at least one worker, at least one cell per chunk).
pub open spec fn spec_chunk_len(len: int, threads: int) -> int {
    let t = if threads < 1 {
        1
    } else {
        threads
    };
    let c = ceil_div(len, t);
    if c < 1 {
        1
    } else {
        c
    }
}

/// Flat positions of the upwind inflow slab (`x < 2`), in the solver's `z`,
/// `y`, `x` order.
pub fn inflow_cells(w: usize, h: usize, d: usize) -> (r: Vec<usize>)
    requires
        w * h <= usize::MAX,
        w * h * d <= usize::MAX,
    ensures
        r@.len() == cell_count(inflow_width(w as int), h as int, d as int),
        forall|k: int| 0 <= k < r@.len() ==> #[trigger] r@[k] == inflow_cell(w as int, h as int, k),
{
    let xm: usize = if w < 2 {
        w
    } else {
        2
    };
    let ghost wi = w as int;
    let ghost hi = h as int;
    let ghost di = d as int;
    let ghost xmi = xm as int;
    let mut r: Vec<usize> = Vec::new();
    assert(spec_index(xmi, hi, 0, 0, 0) == 0) by (nonlinear_arith);
    let mut z: usize = 0;
    while z < d
        invariant
            xm == inflow_width(wi),
            wi == w,
            hi == h,
            di == d,
            xmi == xm,
            w * h <= usize::MAX,
            w * h * d <= usize::MAX,
            z <= d,
            r@.len() == spec_index(xmi, hi, 0, 0, z as int),
            forall|k: int| 0 <= k < r@.len() ==> #[trigger] r@[k] == inflow_cell(wi, hi, k),
        decreases d - z,
    {
        let mut y: usize = 0;
        while y < h
            invariant
                xm == inflow_width(wi),
                wi == w,
                hi == h,
                di == d,
                xmi == xm,
                w * h <= usize::MAX,
                w * h * d <= usize::MAX,
                z < d,
                y <= h,
                r@.len() == spec_index(xmi, hi, 0, y as int, z as int),
                forall|k: int| 0 <= k < r@.len() ==> #[trigger] r@[k] == inflow_cell(wi, hi, k),
            decreases h - y,
        {
            let mut x: usize = 0;
            while x < xm
                invariant
                    xm == inflow_width(wi),
                    wi == w,
                    hi == h,
                    di == d,
                    xmi == xm,
                    w * h <= usize::MAX,
                    w * h * d <= usize::MAX,
                    z < d,
                    y < h,
                    x <= xm,
                    r@.len() == spec_index(xmi, hi, x as int, y as int, z as int),
                    forall|k: int| 0 <= k < r@.len() ==> #[trigger] r@[k] == inflow_cell(wi, hi, k),
                decreases xm - x,
            {
                proof {
                    lemma_index_partials(wi, hi, di, x as int, y as int, z as int);
                    lemma_index_decompose(xmi, hi, x as int, y as int, z as int);
                }
                let i = flat_index(w, h, x, y, z);
                r.push(i);
                x += 1;
            }
            proof {
                assert(spec_index(xmi, hi, xmi, y as int, z as int) == spec_index(
                    xmi,
                    hi,
                    0,
                    y + 1,
                    z as int,
                )) by (nonlinear_arith);
            }
            y += 1;
        }
        proof {
            assert(spec_index(xmi, hi, 0, hi, z as int) == spec_index(xmi, hi, 0, 0, z + 1))
                by (nonlinear_arith);
        }
        z += 1;
    }
    proof {
        assert(spec_index(xmi, hi, 0, 0, di) == cell_count(xmi, hi, di)) by (nonlinear_arith);
    }
    r
}

/// Flat positions of the interior cells (those on no tunnel wall), in the
/// solver's `z`, `y`, `x` sweep order; empty when an axis has fewer than
/// three cells.
pub fn interior_cells(w: usize, h: usize, d: usize) -> (r: Vec<usize>)
    requires
        w * h <= usize::MAX,
        w * h * d <= usize::MAX,
    ensures
        r@.len() == interior_count(w as int, h as int, d as int),
        forall|k: int| 0 <= k < r@.len() ==> #[trigger] r@[k] == interior_cell(w as int, h as int, k),
{
    let mut r: Vec<usize> = Vec::new();
    if w < 3 || h < 3 || d < 3 {
        return r;
    }
    let ghost wi = w as int;
    let ghost hi = h as int;
    let ghost di = d as int;
    let ghost a = wi - 2;
    let ghost b = hi - 2;
    let ghost c = di - 2;
    assert(spec_index(a, b, 0, 0, 0) == 0) by (nonlinear_arith);
    let mut z: usize = 1;
    while z < d - 1
        invariant
            wi == w,
            hi == h,
            di == d,
            a == wi - 2,
            b == hi - 2,
            c == di - 2,
            3 <= w,
            3 <= h,
            3 <= d,
            w * h <= usize::MAX,
            w * h * d <= usize::MAX,
            1 <= z <= d - 1,
            r@.len() == spec_index(a, b, 0, 0, z - 1),
            forall|k: int| 0 <= k < r@.len() ==> #[trigger] r@[k] == interior_cell(wi, hi, k),
        decreases d - z,
    {
        let mut y: usize = 1;
        while y < h - 1
            invariant
                wi == w,
                hi == h,
                di == d,
                a == wi - 2,
                b == hi - 2,
                c == di - 2,
                3 <= w,
                3 <= h,
                3 <= d,
                w * h <= usize::MAX,
                w * h * d <= usize::MAX,
                1 <= z < d - 1,
                1 <= y <= h - 1,
                r@.len() == spec_index(a, b, 0, y - 1, z - 1),
                forall|k: int| 0 <= k < r@.len() ==> #[trigger] r@[k] == interior_cell(wi, hi, k),
            decreases h - y,
        {
            let mut x: usize = 1;
            while x < w - 1
                invariant
                    wi == w,
                    hi == h,
                    di == d,
                    a == wi - 2,
                    b == hi - 2,
                    c == di - 2,
                    3 <= w,
                    3 <= h,
                    3 <= d,
                    w * h <= usize::MAX,
                    w * h * d <= usize::MAX,
                    1 <= z < d - 1,
                    1 <= y < h - 1,
                    1 <= x <= w - 1,
                    r@.len() == spec_index(a, b, x - 1, y - 1, z - 1),
                    forall|k: int| 0 <= k < r@.len() ==> #[trigger] r@[k] == interior_cell(wi, hi, k),
                decreases w - x,
            {
                proof {
                    lemma_index_partials(wi, hi, di, x as int, y as int, z as int);
                    lemma_index_decompose(a, b, x - 1, y - 1, z - 1);
                }
                let i = flat_index(w, h, x, y, z);
                r.push(i);
                x += 1;
            }
            proof {
                assert(spec_index(a, b, a, y - 1, z - 1) == spec_index(a, b, 0, y as int, z - 1))
                    by (nonlinear_arith);
            }
            y += 1;
        }
        proof {
            assert(spec_index(a, b, 0, b, z - 1) == spec_index(a, b, 0, 0, z as int))
                by (nonlinear_arith);
        }
        z += 1;
    }
    proof {
        assert(spec_index(a, b, 0, 0, c) == cell_count(a, b, c)) by (nonlinear_arith);
    }
    r
}

/// Whether flat position `i` keeps its previous value in the advection and
/// Jacobi kernels: cells on a tunnel wall and blocked cells are not updated.
pub fn is_boundary_or_solid(i: usize, w: usize, h: usize, d: usize, solid: &[bool]) -> (r: bool)
    requires
        w * h <= usize::MAX,
        solid@.len() == cell_count(w as int, h as int, d as int),
        i < solid@.len(),
    ensures
        r == (on_wall(i as int, w as int, h as int, d as int) || solid@[i as int]),
{
    proof {
        lemma_index_recompose(w as int, h as int, d as int, i as int);
        if w == 0 || h == 0 || d == 0 {
            assert(cell_count(w as int, h as int, d as int) == 0) by (nonlinear_arith)
                requires
                    w == 0 || h == 0 || d == 0,
            ;
        }
    }
    let (x, y, z) = crate::lattice::cell_coords(i, w, h);
    x == 0 || y == 0 || z == 0 || x >= w - 1 || y >= h - 1 || z >= d - 1 || solid[i]
}

/// The six face neighbours of an interior cell, in the order `+x`, `-x`,
/// `+y`, `-y`, `+z`, `-z`.
pub fn neighbors(i: usize, w: usize, h: usize, d: usize) -> (r: [usize; 6])
    requires
        w * h <= usize::MAX,
        cell_count(w as int, h as int, d as int) <= usize::MAX,
        i < cell_count(w as int, h as int, d as int),
        !on_wall(i as int, w as int, h as int, d as int),
    ensures
        forall|k: int| 0 <= k < 6 ==> #[trigger] r@[k] == neighbor(i as int, w as int, h as int, k),
        forall|k: int| 0 <= k < 6 ==> r@[k] < cell_count(w as int, h as int, d as int),
        r@[0] == i + 1,
        r@[1] == i - 1,
        r@[2] == i + w,
        r@[3] == i - w,
        r@[4] == i + w * h,
        r@[5] == i - w * h,
{
    let ghost wi = w as int;
    let ghost hi = h as int;
    let ghost di = d as int;
    proof {
        lemma_index_recompose(wi, hi, di, i as int);
    }
    let ghost x = index_x(i as int, wi, hi);
    let ghost y = index_y(i as int, wi, hi);
    let ghost z = index_z(i as int, wi, hi);
    proof {
        lemma_index_in_range_all(wi, hi, di, x, y, z);
        assert(spec_index(wi, hi, x, y, z + 1) == i + wi * hi) by (nonlinear_arith)
            requires
                spec_index(wi, hi, x, y, z) == i,
        ;
        assert(spec_index(wi, hi, x, y, z - 1) == i - wi * hi) by (nonlinear_arith)
            requires
                spec_index(wi, hi, x, y, z) == i,
        ;
        assert(spec_index(wi, hi, x, y + 1, z) == i + wi) by (nonlinear_arith)
            requires
                spec_index(wi, hi, x, y, z) == i,
        ;
        assert(spec_index(wi, hi, x, y - 1, z) == i - wi) by (nonlinear_arith)
            requires
                spec_index(wi, hi, x, y, z) == i,
        ;
    }
    let wh = w * h;
    [i + 1, i - 1, i + w, i - w, i + wh, i - wh]
}

/// Where each of the six neighbour values of interior cell `i` is read from
/// under the Neumann wall rule: the neighbour itself, or `i` when the
/// neighbour is blocked. Used by the Jacobi pressure update, the viscous
/// diffusion sweep and the pressure-gradient subtraction.
pub fn neumann_sources(i: usize, w: usize, h: usize, d: usize, solid: &[bool]) -> (r: [usize; 6])
    requires
        w * h <= usize::MAX,
        solid@.len() == cell_count(w as int, h as int, d as int),
        i < solid@.len(),
        !on_wall(i as int, w as int, h as int, d as int),
    ensures
        forall|k: int|
            0 <= k < 6 ==> #[trigger] r@[k] == wall_source(
                solid@,
                i as int,
                neighbor(i as int, w as int, h as int, k),
            ),
        r@[0] == if solid@[i + 1] { i as int } else { i + 1 },
        r@[1] == if solid@[i - 1] { i as int } else { i - 1 },
        r@[2] == if solid@[i + w] { i as int } else { i + w },
        r@[3] == if solid@[i - w] { i as int } else { i - w },
        r@[4] == if solid@[i + w * h] { i as int } else { i + w * h },
        r@[5] == if solid@[i - w * h] { i as int } else { i - w * h },
{
    let n = solid.len();
    let nb = neighbors(i, w, h, d);
    let s0 = if solid[nb[0]] { i } else { nb[0] };
    let s1 = if solid[nb[1]] { i } else { nb[1] };
    let s2 = if solid[nb[2]] { i } else { nb[2] };
    let s3 = if solid[nb[3]] { i } else { nb[3] };
    let s4 = if solid[nb[4]] { i } else { nb[4] };
    let s5 = if solid[nb[5]] { i } else { nb[5] };
    let r = [s0, s1, s2, s3, s4, s5];
    assert forall|k: int| 0 <= k < 6 implies #[trigger] r@[k] == wall_source(
        solid@,
        i as int,
        neighbor(i as int, w as int, h as int, k),
    ) by {
        assert(nb@[k] == neighbor(i as int, w as int, h as int, k));
    }
    r
}

/// Size of the chunks a per-cell fill of `len` cells is split into when it
/// is spread over `threads` worker tasks.
pub fn chunk_len(len: usize, threads: usize) -> (r: usize)
    ensures
        r == spec_chunk_len(len as int, threads as int),
{
    let t = if threads < 1 {
        1
    } else {
        threads
    };
    let q = len / t;
    proof {
        lemma_fundamental_div_mod(len as int, t as int);
        lemma_mod_pos_bound(len as int, t as int);
        if len % t != 0 {
            assert(t >= 2);
            assert(q < usize::MAX) by (nonlinear_arith)
                requires
                    len == t * q + len % t,
                    t >= 2,
                    0 <= q,
                    len <= usize::MAX,
            ;
        }
    }
    let c = if len % t == 0 {
        q
    } else {
        q + 1
    };
    proof {
        lemma_fundamental_div_mod(len as int, t as int);
        lemma_mod_pos_bound(len as int, t as int);
        lemma_ceil_div(len as int, t as int);
    }
    if c < 1 {
        1
    } else {
        c
    }
}

/// `ceil(a / b)` is the quotient, plus one when the division leaves a
/// remainder.
proof fn lemma_ceil_div(a: int, b: int)
    requires
        0 <= a,
        0 < b,
    ensures
        ceil_div(a, b) == if a % b == 0 {
            a / b
        } else {
            a / b + 1
        },
{
    lemma_fundamental_div_mod(a, b);
    lemma_mod_pos_bound(a, b);
    let q = a / b;
    let r = a % b;
    assert(a == q * b + r) by (nonlinear_arith)
        requires
            a == b * q + r,
    ;
    if r == 0 {
        vstd::arithmetic::div_mod::lemma_fundamental_div_mod_converse(a + b - 1, b, q, b - 1);
    } else {
        assert(a + b - 1 == (q + 1) * b + (r - 1)) by (nonlinear_arith)
            requires
                a == q * b + r,
        ;
        vstd::arithmetic::div_mod::lemma_fundamental_div_mod_converse(a + b - 1, b, q + 1, r - 1);
    }
}

/// In-range helper: every neighbour of an interior cell is a cell.
proof fn lemma_index_in_range_all(w: int, h: int, d: int, x: int, y: int, z: int)
    requires
        in_lattice(w, h, d, x, y, z),
        1 <= x < w - 1,
        1 <= y < h - 1,
        1 <= z < d - 1,
    ensures
        0 <= spec_index(w, h, x + 1, y, z) < cell_count(w, h, d),
        0 <= spec_index(w, h, x - 1, y, z) < cell_count(w, h, d),
        0 <= spec_index(w, h, x, y + 1, z) < cell_count(w, h, d),
        0 <= spec_index(w, h, x, y - 1, z) < cell_count(w, h, d),
        0 <= spec_index(w, h, x, y, z + 1) < cell_count(w, h, d),
        0 <= spec_index(w, h, x, y, z - 1) < cell_count(w, h, d),
{
    crate::lattice::lemma_index_in_range(w, h, d, x + 1, y, z);
    crate::lattice::lemma_index_in_range(w, h, d, x - 1, y, z);
    crate::lattice::lemma_index_in_range(w, h, d, x, y + 1, z);
    crate::lattice::lemma_index_in_range(w, h, d, x, y - 1, z);
    crate::lattice::lemma_index_in_range(w, h, d, x, y, z + 1);
    crate::lattice::lemma_index_in_range(w, h, d, x, y, z - 1);
}


/// Law: the interior sweep visits exactly the cells on no tunnel wall. The
/// `k`-th visited position is a cell of the lattice on no wall, and every
/// cell `(x, y, z)` on no wall is visited, as the
/// `spec_index(w - 2, h - 2, x - 1, y - 1, z - 1)`-th one.
pub proof fn lemma_interior_sweep_exact(w: int, h: int, d: int)
    requires
        3 <= w,
        3 <= h,
        3 <= d,
    ensures
        forall|k: int|
            0 <= k < interior_count(w, h, d) ==> 0 <= #[trigger] interior_cell(w, h, k) < cell_count(
                w,
                h,
                d,
            ) && !on_wall(interior_cell(w, h, k), w, h, d),
        forall|x: int, y: int, z: int|
            in_lattice(w, h, d, x, y, z) && !on_wall(#[trigger] spec_index(w, h, x, y, z), w, h, d)
                ==> {
                let k = spec_index(w - 2, h - 2, x - 1, y - 1, z - 1);
                &&& 0 <= k < interior_count(w, h, d)
                &&& interior_cell(w, h, k) == spec_index(w, h, x, y, z)
            },
{
    let (a, b, c) = (w - 2, h - 2, d - 2);
    assert forall|k: int| 0 <= k < interior_count(w, h, d) implies 0 <= #[trigger] interior_cell(
        w,
        h,
        k,
    ) < cell_count(w, h, d) && !on_wall(interior_cell(w, h, k), w, h, d) by {
        lemma_index_recompose(a, b, c, k);
        let (x, y, z) = (
            1 + index_x(k, a, b),
            1 + index_y(k, a, b),
            1 + index_z(k, a, b),
        );
        crate::lattice::lemma_index_in_range(w, h, d, x, y, z);
        lemma_index_decompose(w, h, x, y, z);
    }
    assert forall|x: int, y: int, z: int|
        in_lattice(w, h, d, x, y, z) && !on_wall(#[trigger] spec_index(w, h, x, y, z), w, h, d)
            implies {
        let k = spec_index(a, b, x - 1, y - 1, z - 1);
        &&& 0 <= k < interior_count(w, h, d)
        &&& interior_cell(w, h, k) == spec_index(w, h, x, y, z)
    } by {
        lemma_index_decompose(w, h, x, y, z);
        crate::lattice::lemma_index_in_range(a, b, c, x - 1, y - 1, z - 1);
        lemma_index_decompose(a, b, x - 1, y - 1, z - 1);
    }
}

/// Law: the inflow slab is exactly the cells with `x < inflow_width(w)`. The
/// `k`-th listed position is such a cell, and every such cell `(x, y, z)` is
/// listed, as the `spec_index(inflow_width(w), h, x, y, z)`-th one.
pub proof fn lemma_inflow_slab_exact(w: int, h: int, d: int)
    requires
        0 <= w,
        0 <= h,
        0 <= d,
    ensures
        forall|k: int|
            0 <= k < cell_count(inflow_width(w), h, d) ==> {
                let i = #[trigger] inflow_cell(w, h, k);
                &&& 0 <= i < cell_count(w, h, d)
                &&& index_x(i, w, h) < inflow_width(w)
            },
        forall|x: int, y: int, z: int|
            in_lattice(w, h, d, x, y, z) && x < inflow_width(w) ==> {
                let k = #[trigger] spec_index(inflow_width(w), h, x, y, z);
                &&& 0 <= k < cell_count(inflow_width(w), h, d)
                &&& inflow_cell(w, h, k) == spec_index(w, h, x, y, z)
            },
{
    let xm = inflow_width(w);
    assert forall|k: int| 0 <= k < cell_count(xm, h, d) implies {
        let i = #[trigger] inflow_cell(w, h, k);
        &&& 0 <= i < cell_count(w, h, d)
        &&& index_x(i, w, h) < xm
    } by {
        lemma_index_recompose(xm, h, d, k);
        let (x, y, z) = (index_x(k, xm, h), index_y(k, xm, h), index_z(k, xm, h));
        crate::lattice::lemma_index_in_range(w, h, d, x, y, z);
        lemma_index_decompose(w, h, x, y, z);
    }
    assert forall|x: int, y: int, z: int| in_lattice(w, h, d, x, y, z) && x < xm implies {
        let k = #[trigger] spec_index(xm, h, x, y, z);
        &&& 0 <= k < cell_count(xm, h, d)
        &&& inflow_cell(w, h, k) == spec_index(w, h, x, y, z)
    } by {
        crate::lattice::lemma_index_in_range(xm, h, d, x, y, z);
        lemma_index_decompose(xm, h, x, y, z);
    }
}

/// Law: under the Neumann wall rule a fluid cell never reads a blocked
/// cell. For an interior cell `i` that is not blocked, each of its six value
/// sources is a cell of the lattice that is not blocked.
pub proof fn lemma_wall_sources_are_fluid(solid: Seq<bool>, i: int, w: int, h: int, d: int)
    requires
        0 <= w,
        0 <= h,
        solid.len() == cell_count(w, h, d),
        0 <= i < solid.len(),
        !on_wall(i, w, h, d),
        !solid[i],
    ensures
        forall|k: int|
            0 <= k < 6 ==> {
                let j = #[trigger] wall_source(solid, i, neighbor(i, w, h, k));
                0 <= j < solid.len() && !solid[j]
            },
{
    lemma_index_recompose(w, h, d, i);
    lemma_index_in_range_all(w, h, d, index_x(i, w, h), index_y(i, w, h), index_z(i, w, h));
}

/// Law: splitting a fill of `len` cells into chunks of
/// `spec_chunk_len(len, threads)` cells needs at most `max(threads, 1)`
/// chunks, so every cell `i` lies in chunk `i / c`, one of the tasks.
pub proof fn lemma_chunks_cover(len: int, threads: int)
    requires
        0 <= len,
    ensures
        ({
            let t = if threads < 1 {
                1
            } else {
                threads
            };
            let c = spec_chunk_len(len, threads);
            &&& 1 <= c
            &&& ceil_div(len, c) <= t
            &&& forall|i: int| 0 <= i < len ==> #[trigger] (i / c) < t
            &&& len <= c * t
            &&& c > 1 ==> (c - 1) * t < len
        }),
{
    let t = if threads < 1 {
        1
    } else {
        threads
    };
    let c = spec_chunk_len(len, threads);
    lemma_ceil_div(len, t);
    lemma_fundamental_div_mod(len, t);
    lemma_mod_pos_bound(len, t);
    let q = len / t;
    assert(len <= t * ceil_div(len, t)) by (nonlinear_arith)
        requires
            len == t * q + len % t,
            0 <= len % t < t,
            ceil_div(len, t) == if len % t == 0 {
                q
            } else {
                q + 1
            },
    ;
    assert(len <= t * c) by (nonlinear_arith)
        requires
            len <= t * ceil_div(len, t),
            ceil_div(len, t) <= c,
            0 < t,
    ;
    assert(c > 1 ==> (c - 1) * t < len) by (nonlinear_arith)
        requires
            len == t * q + len % t,
            0 <= len % t < t,
            0 <= q,
            c == if ceil_div(len, t) < 1 {
                1
            } else {
                ceil_div(len, t)
            },
            ceil_div(len, t) == if len % t == 0 {
                q
            } else {
                q + 1
            },
    ;
    lemma_ceil_div(len, c);
    lemma_fundamental_div_mod(len, c);
    lemma_mod_pos_bound(len, c);
    assert(ceil_div(len, c) <= t) by (nonlinear_arith)
        requires
            len == c * (len / c) + len % c,
            0 <= len % c < c,
            len <= t * c,
            ceil_div(len, c) == if len % c == 0 {
                len / c
            } else {
                len / c + 1
            },
    ;
    assert forall|i: int| 0 <= i < len implies #[trigger] (i / c) < t by {
        lemma_fundamental_div_mod(i, c);
        lemma_mod_pos_bound(i, c);
        assert(i / c < t) by (nonlinear_arith)
            requires
                i == c * (i / c) + i % c,
                0 <= i % c,
                i < len,
                len <= t * c,
                0 < c,
        ;
    }
}


/// Law: the six neighbours of an interior cell are its face-adjacent cells,
/// in the order `+x`, `-x`, `+y`, `-y`, `+z`, `-z`: neighbour `k` sits one
/// step along its own axis (`±1` in flat position for x, `±w` for y, `±w*h`
/// for z) and keeps the other two coordinates.
pub proof fn lemma_neighbors_face_adjacent(i: int, w: int, h: int, d: int)
    requires
        0 <= w,
        0 <= h,
        0 <= i < cell_count(w, h, d),
        !on_wall(i, w, h, d),
    ensures
        neighbor(i, w, h, 0) == i + 1,
        neighbor(i, w, h, 1) == i - 1,
        neighbor(i, w, h, 2) == i + w,
        neighbor(i, w, h, 3) == i - w,
        neighbor(i, w, h, 4) == i + w * h,
        neighbor(i, w, h, 5) == i - w * h,
        index_x(neighbor(i, w, h, 0), w, h) == index_x(i, w, h) + 1,
        index_x(neighbor(i, w, h, 1), w, h) == index_x(i, w, h) - 1,
        index_y(neighbor(i, w, h, 2), w, h) == index_y(i, w, h) + 1,
        index_y(neighbor(i, w, h, 3), w, h) == index_y(i, w, h) - 1,
        index_z(neighbor(i, w, h, 4), w, h) == index_z(i, w, h) + 1,
        index_z(neighbor(i, w, h, 5), w, h) == index_z(i, w, h) - 1,
        forall|k: int|
            0 <= k < 2 ==> index_y(#[trigger] neighbor(i, w, h, k), w, h) == index_y(i, w, h)
                && index_z(neighbor(i, w, h, k), w, h) == index_z(i, w, h),
        forall|k: int|
            2 <= k < 4 ==> index_x(#[trigger] neighbor(i, w, h, k), w, h) == index_x(i, w, h)
                && index_z(neighbor(i, w, h, k), w, h) == index_z(i, w, h),
        forall|k: int|
            4 <= k < 6 ==> index_x(#[trigger] neighbor(i, w, h, k), w, h) == index_x(i, w, h)
                && index_y(neighbor(i, w, h, k), w, h) == index_y(i, w, h),
{
    lemma_index_recompose(w, h, d, i);
    let x = index_x(i, w, h);
    let y = index_y(i, w, h);
    let z = index_z(i, w, h);
    assert(spec_index(w, h, x, y, z + 1) == i + w * h) by (nonlinear_arith)
        requires
            spec_index(w, h, x, y, z) == i,
    ;
    assert(spec_index(w, h, x, y, z - 1) == i - w * h) by (nonlinear_arith)
        requires
            spec_index(w, h, x, y, z) == i,
    ;
    assert(spec_index(w, h, x, y + 1, z) == i + w) by (nonlinear_arith)
        requires
            spec_index(w, h, x, y, z) == i,
    ;
    assert(spec_index(w, h, x, y - 1, z) == i - w) by (nonlinear_arith)
        requires
            spec_index(w, h, x, y, z) == i,
    ;
    lemma_index_decompose(w, h, x + 1, y, z);
    lemma_index_decompose(w, h, x - 1, y, z);
    lemma_index_decompose(w, h, x, y + 1, z);
    lemma_index_decompose(w, h, x, y - 1, z);
    lemma_index_decompose(w, h, x, y, z + 1);
    lemma_index_decompose(w, h, x, y, z - 1);
}


/// Law: under the Neumann wall rule a cell reads each fluid neighbour from
/// that neighbour and each blocked neighbour from itself: for an interior
/// cell `i`, the `+x` source is `i + 1` when that cell is free and `i` when
/// it is blocked, and likewise `i - 1`, `i ± w`, `i ± w*h` for the others.
pub proof fn lemma_wall_sources_read_free_neighbours(solid: Seq<bool>, i: int, w: int, h: int, d: int)
    requires
        0 <= w,
        0 <= h,
        solid.len() == cell_count(w, h, d),
        0 <= i < solid.len(),
        !on_wall(i, w, h, d),
    ensures
        wall_source(solid, i, neighbor(i, w, h, 0)) == if solid[i + 1] { i } else { i + 1 },
        wall_source(solid, i, neighbor(i, w, h, 1)) == if solid[i - 1] { i } else { i - 1 },
        wall_source(solid, i, neighbor(i, w, h, 2)) == if solid[i + w] { i } else { i + w },
        wall_source(solid, i, neighbor(i, w, h, 3)) == if solid[i - w] { i } else { i - w },
        wall_source(solid, i, neighbor(i, w, h, 4)) == if solid[i + w * h] { i } else { i + w * h },
        wall_source(solid, i, neighbor(i, w, h, 5)) == if solid[i - w * h] { i } else { i - w * h },
{
    lemma_neighbors_face_adjacent(i, w, h, d);
}

} // verus!
