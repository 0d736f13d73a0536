//! Index arithmetic of the tunnel lattice.
//!
//! Every per-cell field of the wind tunnel (obstacle mask, velocity
//! components, pressure, divergence) is a flat array laid out x-fastest, then
//! y, then z: cell `(x, y, z)` of a `w × h × d` lattice lives at
//! `z * w * h + y * w + x`. This module states that layout once, proves that
//! it is a bijection between in-bounds coordinates and `0 .. w*h*d`, and
//! provides the verified decomposition used by the per-cell solver kernels.

use vstd::prelude::*;
use vstd::arithmetic::div_mod::{
    lemma_fundamental_div_mod, lemma_fundamental_div_mod_converse, lemma_mod_pos_bound,
};
use vstd::arithmetic::mul::{lemma_mul_is_associative, lemma_mul_is_commutative};

verus! {

/// Flat position of cell `(x, y, z)` in a lattice `w` cells wide and `h` high.
pub open spec fn spec_index(w: int, h: int, x: int, y: int, z: int) -> int {
    z * w * h + y * w + x
}

/// The x coordinate of flat position `i`.
pub open spec fn index_x(i: int, w: int, h: int) -> int {
    (i % (w * h)) % w
}

/// The y coordinate of flat position `i`.
pub open spec fn index_y(i: int, w: int, h: int) -> int {
    (i % (w * h)) / w
}

/// The z coordinate of flat position `i`.
pub open spec fn index_z(i: int, w: int, h: int) -> int {
    i / (w * h)
}

/// `(x, y, z)` lies inside a `w × h × d` lattice.
pub open spec fn in_lattice(w: int, h: int, d: int, x: int, y: int, z: int) -> bool {
    0 <= x < w && 0 <= y < h && 0 <= z < d
}

/// Number of cells of a `w × h × d` lattice.
pub open spec fn cell_count(w: int, h: int, d: int) -> int {
    w * h * d
}

/// Decomposing the flat position of an in-bounds cell gives back its
/// coordinates.
pub proof fn lemma_index_decompose(w: int, h: int, x: int, y: int, z: int)
    requires
        0 <= x < w,
        0 <= y < h,
        0 <= z,
    ensures
        0 <= spec_index(w, h, x, y, z),
        index_x(spec_index(w, h, x, y, z), w, h) == x,
        index_y(spec_index(w, h, x, y, z), w, h) == y,
        index_z(spec_index(w, h, x, y, z), w, h) == z,
{
    let i = spec_index(w, h, x, y, z);
    let rem = y * w + x;
    assert(0 <= y * w <= (h - 1) * w) by (nonlinear_arith)
        requires
            0 <= y < h,
            0 < w,
    ;
    assert((h - 1) * w + w == w * h) by (nonlinear_arith);
    assert(0 <= rem < w * h);
    lemma_mul_is_associative(z, w, h);
    assert(0 <= z * (w * h)) by (nonlinear_arith)
        requires
            0 <= z,
            0 < w * h,
    ;
    assert(i == z * (w * h) + rem);
    lemma_fundamental_div_mod_converse(i, w * h, z, rem);
    lemma_fundamental_div_mod_converse(rem, w, y, x);
}

/// In-bounds cells have flat positions inside `0 .. w*h*d`.
pub proof fn lemma_index_in_range(w: int, h: int, d: int, x: int, y: int, z: int)
    requires
        in_lattice(w, h, d, x, y, z),
    ensures
        0 <= spec_index(w, h, x, y, z) < cell_count(w, h, d),
{
    lemma_index_decompose(w, h, x, y, z);
    let rem = y * w + x;
    assert(0 <= y * w <= (h - 1) * w) by (nonlinear_arith)
        requires
            0 <= y < h,
            0 < w,
    ;
    assert((h - 1) * w + w == w * h) by (nonlinear_arith);
    lemma_mul_is_associative(z, w, h);
    lemma_mul_is_associative(w, h, d);
    lemma_mul_is_commutative(w * h, d);
    assert(z * (w * h) + rem < d * (w * h)) by (nonlinear_arith)
        requires
            0 <= z < d,
            0 <= rem < w * h,
    ;
}

/// Every flat position of the lattice is the position of exactly one
/// in-bounds cell, the one given by `index_x`, `index_y`, `index_z`.
pub proof fn lemma_index_recompose(w: int, h: int, d: int, i: int)
    requires
        0 <= w,
        0 <= h,
        0 <= i < cell_count(w, h, d),
    ensures
        in_lattice(w, h, d, index_x(i, w, h), index_y(i, w, h), index_z(i, w, h)),
        spec_index(w, h, index_x(i, w, h), index_y(i, w, h), index_z(i, w, h)) == i,
{
    if w == 0 || h == 0 {
        assert(cell_count(w, h, d) == 0) by (nonlinear_arith)
            requires
                w == 0 || h == 0,
        ;
        return;
    }
    let wh = w * h;
    assert(0 < wh) by (nonlinear_arith)
        requires
            wh == w * h,
            0 < w,
            0 < h,
    ;
    let z = i / wh;
    let rem = i % wh;
    lemma_fundamental_div_mod(i, wh);
    lemma_mod_pos_bound(i, wh);
    let y = rem / w;
    let x = rem % w;
    lemma_fundamental_div_mod(rem, w);
    lemma_mod_pos_bound(rem, w);
    assert(0 <= z) by (nonlinear_arith)
        requires
            i == wh * z + rem,
            0 <= i,
            rem < wh,
            0 < wh,
    ;
    assert(0 <= y) by (nonlinear_arith)
        requires
            rem == w * y + x,
            0 <= rem,
            x < w,
            0 < w,
    ;
    assert(y < h) by (nonlinear_arith)
        requires
            rem == w * y + x,
            rem < w * h,
            0 <= x,
            0 < w,
    ;
    lemma_mul_is_associative(w, h, d);
    lemma_mul_is_commutative(w * h, d);
    assert(z < d) by (nonlinear_arith)
        requires
            i == wh * z + rem,
            i < wh * d,
            0 <= rem,
            0 < wh,
    ;
    lemma_mul_is_associative(z, w, h);
    assert(z * w * h == wh * z) by (nonlinear_arith)
        requires
            wh == w * h,
            z * w * h == z * (w * h),
    ;
    assert(y * w == w * y) by (nonlinear_arith);
}

/// The lattice layout is injective: two in-bounds cells share a flat
/// position only if they are the same cell.
pub proof fn lemma_index_injective(
    w: int,
    h: int,
    d: int,
    x1: int,
    y1: int,
    z1: int,
    x2: int,
    y2: int,
    z2: int,
)
    requires
        in_lattice(w, h, d, x1, y1, z1),
        in_lattice(w, h, d, x2, y2, z2),
        spec_index(w, h, x1, y1, z1) == spec_index(w, h, x2, y2, z2),
    ensures
        x1 == x2,
        y1 == y2,
        z1 == z2,
{
    lemma_index_decompose(w, h, x1, y1, z1);
    lemma_index_decompose(w, h, x2, y2, z2);
}

/// Computing the flat position of an in-bounds cell left to right never
/// leaves `0 ..= w*h*d`: the partial product `z * w` and the sum stay below
/// the cell count.
pub proof fn lemma_index_partials(w: int, h: int, d: int, x: int, y: int, z: int)
    requires
        in_lattice(w, h, d, x, y, z),
    ensures
        0 <= z * w <= spec_index(w, h, x, y, z),
        0 <= y * w,
        spec_index(w, h, x, y, z) < cell_count(w, h, d),
{
    lemma_index_in_range(w, h, d, x, y, z);
    assert(0 <= z * w <= z * w * h) by (nonlinear_arith)
        requires
            0 <= z,
            0 < w,
            1 <= h,
    ;
    assert(0 <= y * w) by (nonlinear_arith)
        requires
            0 <= y,
            0 < w,
    ;
}

/// Splits flat position `i` of a lattice `w` wide and `h` high into its cell
/// coordinates `(x, y, z)`, the way the advection and pressure kernels
/// recover the cell they update.
pub fn cell_coords(i: usize, w: usize, h: usize) -> (r: (usize, usize, usize))
    requires
        0 < w,
        0 < h,
        w * h <= usize::MAX,
    ensures
        r.0 == index_x(i as int, w as int, h as int),
        r.1 == index_y(i as int, w as int, h as int),
        r.2 == index_z(i as int, w as int, h as int),
        r.0 < w,
        r.1 < h,
        spec_index(w as int, h as int, r.0 as int, r.1 as int, r.2 as int) == i,
{
    let wh = w * h;
    assert(0 < wh) by (nonlinear_arith)
        requires
            wh == w * h,
            0 < w,
            0 < h,
    ;
    let z = i / wh;
    proof {
        lemma_fundamental_div_mod(i as int, wh as int);
        lemma_mod_pos_bound(i as int, wh as int);
        assert(z * wh <= i) by (nonlinear_arith)
            requires
                i == wh * z + i % wh,
                0 <= i % wh,
        ;
    }
    let rem = i - z * wh;
    let y = rem / w;
    proof {
        assert(rem == i % wh) by (nonlinear_arith)
            requires
                i == wh * z + i % wh,
                rem == i - z * wh,
        ;
        lemma_fundamental_div_mod(rem as int, w as int);
        lemma_mod_pos_bound(rem as int, w as int);
        assert(y * w <= rem) by (nonlinear_arith)
            requires
                rem == w * y + rem % w,
                0 <= rem % w,
        ;
    }
    let x = rem - y * w;
    proof {
        assert(x == rem % w) by (nonlinear_arith)
            requires
                rem == w * y + rem % w,
                x == rem - y * w,
        ;
        assert(y < h) by (nonlinear_arith)
            requires
                rem == w * y + x,
                rem < w * h,
                0 <= x,
                0 < w,
        ;
        lemma_mul_is_associative(z as int, w as int, h as int);
        assert(z * w * h == z * wh) by (nonlinear_arith)
            requires
                wh == w * h,
                z * w * h == z * (w * h),
        ;
    }
    (x, y, z)
}


/// Flat position of cell `(x, y, z)` in a lattice `w` cells wide and `h` high,
/// computed left to right as `z * w * h + y * w + x`.
pub fn flat_index(w: usize, h: usize, x: usize, y: usize, z: usize) -> (r: usize)
    requires
        z * w <= usize::MAX,
        z * w * h + y * w + x <= usize::MAX,
    ensures
        r == spec_index(w as int, h as int, x as int, y as int, z as int),
{
    assert(0 <= z * w * h) by (nonlinear_arith)
        requires
            0 <= z * w,
            0 <= h,
    ;
    assert(0 <= y * w) by (nonlinear_arith)
        requires
            0 <= y,
            0 <= w,
    ;
    z * w * h + y * w + x
}

} // verus!
