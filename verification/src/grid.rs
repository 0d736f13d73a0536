//! The wind-tunnel domain: lattice dimensions and the obstacle mask.
//!
//! `Grid3D` is the shared "world" that the solver reads the obstacle from and
//! that imported geometry (or the default cube) is voxelized into. The mask is
//! a flat array in the layout of [`crate::lattice`]; everything here is stated
//! over that layout.

use vstd::prelude::*;
use crate::lattice::{
    cell_count, flat_index, in_lattice, index_x, index_y, index_z, lemma_index_decompose,
    lemma_index_partials, lemma_index_recompose, spec_index,
};

verus! {

/// Cells along the flow direction (x).
pub const GRID_WIDTH: usize = 48;

/// Cells from the tunnel floor to its ceiling (y).
pub const GRID_HEIGHT: usize = 28;

/// Cells across the tunnel (z).
pub const GRID_DEPTH: usize = 28;

/// Number of cells the default cube obstacle spans along each axis.
pub const CUBE_CELLS: usize = 6;

/// Number of `true` entries of a mask.
pub open spec fn count_solid(s: Seq<bool>) -> nat
    decreases s.len(),
{
    if s.len() == 0 {
        0
    } else {
        count_solid(s.drop_last()) + if s.last() {
            1nat
        } else {
            0nat
        }
    }
}

/// First x (or z) cell of the default cube: `CUBE_CELLS / 2` cells before the
/// anchor, clamped at the wall.
pub open spec fn cube_start(anchor: int) -> int {
    if anchor >= CUBE_CELLS / 2 {
        anchor - CUBE_CELLS / 2
    } else {
        0
    }
}

/// Flat position `i` of a `w × h` lattice falls inside the default cube: a
/// `CUBE_CELLS`-wide block centred a third of the way down the tunnel, in the
/// middle of its width, whose lowest layer is `start_y`.
pub open spec fn in_default_cube(w: int, h: int, d: int, start_y: int, i: int) -> bool {
    let x0 = cube_start(w / 3);
    let z0 = cube_start(d / 2);
    let x = index_x(i, w, h);
    let y = index_y(i, w, h);
    let z = index_z(i, w, h);
    &&& x0 <= x < x0 + CUBE_CELLS
    &&& start_y <= y < start_y + CUBE_CELLS
    &&& z0 <= z < z0 + CUBE_CELLS
}

/// `mn` / `mx` are the componentwise minimum and maximum cell coordinates of
/// the solid cells of `solid`, and at least one cell is solid.
pub open spec fn is_solid_bbox(
    solid: Seq<bool>,
    w: int,
    h: int,
    mn: (usize, usize, usize),
    mx: (usize, usize, usize),
) -> bool {
    &&& forall|i: int|
        0 <= i < solid.len() && #[trigger] solid[i] ==> {
            &&& mn.0 <= index_x(i, w, h) <= mx.0
            &&& mn.1 <= index_y(i, w, h) <= mx.1
            &&& mn.2 <= index_z(i, w, h) <= mx.2
        }
    &&& exists|i: int| 0 <= i < solid.len() && #[trigger] solid[i] && index_x(i, w, h) == mn.0
    &&& exists|i: int| 0 <= i < solid.len() && #[trigger] solid[i] && index_y(i, w, h) == mn.1
    &&& exists|i: int| 0 <= i < solid.len() && #[trigger] solid[i] && index_z(i, w, h) == mn.2
    &&& exists|i: int| 0 <= i < solid.len() && #[trigger] solid[i] && index_x(i, w, h) == mx.0
    &&& exists|i: int| 0 <= i < solid.len() && #[trigger] solid[i] && index_y(i, w, h) == mx.1
    &&& exists|i: int| 0 <= i < solid.len() && #[trigger] solid[i] && index_z(i, w, h) == mx.2
}

/// Scan state of [`Grid3D::solid_bbox`] after visiting the flat positions
/// `0 .. p`: either nothing solid was seen, or `mn`/`mx` bound every solid
/// cell seen so far and are attained by the witnesses in `wit`.
pub open spec fn bbox_scan(
    solid: Seq<bool>,
    w: int,
    h: int,
    p: int,
    any: bool,
    mn: (usize, usize, usize),
    mx: (usize, usize, usize),
    wit: (int, int, int, int, int, int),
) -> bool {
    &&& !any ==> forall|i: int| 0 <= i < p ==> !(#[trigger] solid[i])
    &&& any ==> {
        &&& forall|i: int|
            0 <= i < p && #[trigger] solid[i] ==> {
                &&& mn.0 <= index_x(i, w, h) <= mx.0
                &&& mn.1 <= index_y(i, w, h) <= mx.1
                &&& mn.2 <= index_z(i, w, h) <= mx.2
            }
        &&& 0 <= wit.0 < p && solid[wit.0] && index_x(wit.0, w, h) == mn.0
        &&& 0 <= wit.1 < p && solid[wit.1] && index_y(wit.1, w, h) == mn.1
        &&& 0 <= wit.2 < p && solid[wit.2] && index_z(wit.2, w, h) == mn.2
        &&& 0 <= wit.3 < p && solid[wit.3] && index_x(wit.3, w, h) == mx.0
        &&& 0 <= wit.4 < p && solid[wit.4] && index_y(wit.4, w, h) == mx.1
        &&& 0 <= wit.5 < p && solid[wit.5] && index_z(wit.5, w, h) == mx.2
    }
}

/// Lattice dimensions plus the obstacle mask (`true` = blocked cell).
pub struct Grid3D {
    pub width: usize,
    pub height: usize,
    pub depth: usize,
    /// Marks cells occupied by an obstacle (the seeded cube or an imported model).
    pub solid: Vec<bool>,
}

impl Grid3D {
    /// The mask holds exactly one entry per lattice cell.
    pub open spec fn wf(&self) -> bool {
        &&& self.width * self.height <= usize::MAX
        &&& cell_count(self.width as int, self.height as int, self.depth as int) <= usize::MAX
        &&& self.solid@.len() == cell_count(
            self.width as int,
            self.height as int,
            self.depth as int,
        )
    }

    /// Flat position of cell `(x, y, z)` in this grid's layout.
    pub open spec fn cell(&self, x: int, y: int, z: int) -> int {
        spec_index(self.width as int, self.height as int, x, y, z)
    }

    /// `(x, y, z)` is a cell of this grid.
    pub open spec fn contains_cell(&self, x: int, y: int, z: int) -> bool {
        in_lattice(self.width as int, self.height as int, self.depth as int, x, y, z)
    }

    /// Cell `(x, y, z)` exists and is blocked.
    pub open spec fn solid_at(&self, x: int, y: int, z: int) -> bool {
        self.contains_cell(x, y, z) && self.solid@[self.cell(x, y, z)]
    }

    /// An empty `width × height × depth` tunnel: no cell is blocked.
    pub fn new(width: usize, height: usize, depth: usize) -> (g: Self)
        requires
            width * height <= usize::MAX,
            width * height * depth <= usize::MAX,
        ensures
            g.wf(),
            g.width == width,
            g.height == height,
            g.depth == depth,
            forall|i: int| 0 <= i < g.solid@.len() ==> !(#[trigger] g.solid@[i]),
    {
        let size = width * height * depth;
        let mut solid: Vec<bool> = Vec::new();
        let mut k: usize = 0;
        while k < size
            invariant
                k <= size,
                solid@.len() == k,
                forall|i: int| 0 <= i < k ==> !(#[trigger] solid@[i]),
            decreases size - k,
        {
            solid.push(false);
            k += 1;
        }
        Grid3D { width, height, depth, solid }
    }

    /// Flat position of cell `(x, y, z)`.
    pub fn index(&self, x: usize, y: usize, z: usize) -> (r: usize)
        requires
            z * self.width <= usize::MAX,
            z * self.width * self.height + y * self.width + x <= usize::MAX,
        ensures
            r == self.cell(x as int, y as int, z as int),
    {
        flat_index(self.width, self.height, x, y, z)
    }

    /// Whether the cell at (already rounded) grid coordinates `(x, y, z)` is
    /// blocked; coordinates outside the tunnel are never solid.
    pub fn is_solid_cell(&self, x: i64, y: i64, z: i64) -> (r: bool)
        requires
            self.wf(),
        ensures
            r == self.solid_at(x as int, y as int, z as int),
    {
        if x < 0 || y < 0 || z < 0 {
            return false;
        }
        let (xu, yu, zu) = (x as u64, y as u64, z as u64);
        if xu >= self.width as u64 || yu >= self.height as u64 || zu >= self.depth as u64 {
            return false;
        }
        let (xs, ys, zs) = (xu as usize, yu as usize, zu as usize);
        proof {
            lemma_index_partials(
                self.width as int,
                self.height as int,
                self.depth as int,
                xs as int,
                ys as int,
                zs as int,
            );
        }
        let i = self.index(xs, ys, zs);
        self.solid[i]
    }

    /// Clears the obstacle mask so a new obstacle can be placed.
    pub fn clear_solids(&mut self)
        requires
            old(self).wf(),
        ensures
            final(self).wf(),
            final(self).width == old(self).width,
            final(self).height == old(self).height,
            final(self).depth == old(self).depth,
            final(self).solid@.len() == old(self).solid@.len(),
            forall|i: int| 0 <= i < final(self).solid@.len() ==> !(#[trigger] final(self).solid@[i]),
    {
        let n = self.solid.len();
        let mut k: usize = 0;
        while k < n
            invariant
                k <= n,
                n == self.solid@.len(),
                self.width == old(self).width,
                self.height == old(self).height,
                self.depth == old(self).depth,
                self.solid@.len() == old(self).solid@.len(),
                old(self).wf(),
                forall|i: int| 0 <= i < k ==> !(#[trigger] self.solid@[i]),
            decreases n - k,
        {
            self.solid.set(k, false);
            k += 1;
        }
    }

    /// Number of blocked cells.
    pub fn solid_count(&self) -> (r: usize)
        ensures
            r == count_solid(self.solid@),
    {
        let n = self.solid.len();
        let mut count: usize = 0;
        let mut k: usize = 0;
        while k < n
            invariant
                k <= n,
                n == self.solid@.len(),
                count == count_solid(self.solid@.take(k as int)),
                count <= k,
            decreases n - k,
        {
            proof {
                assert(self.solid@.take(k + 1).drop_last() =~= self.solid@.take(k as int));
            }
            if self.solid[k] {
                count += 1;
            }
            k += 1;
        }
        proof {
            assert(self.solid@.take(n as int) =~= self.solid@);
        }
        count
    }

    /// Marks the cell at (already rounded) grid coordinates `(x, y, z)` as
    /// blocked; coordinates outside the tunnel are ignored.
    pub fn mark_cell(&mut self, x: i64, y: i64, z: i64)
        requires
            old(self).wf(),
        ensures
            final(self).wf(),
            final(self).width == old(self).width,
            final(self).height == old(self).height,
            final(self).depth == old(self).depth,
            old(self).contains_cell(x as int, y as int, z as int) ==> final(self).solid@
                == old(self).solid@.update(old(self).cell(x as int, y as int, z as int), true),
            !old(self).contains_cell(x as int, y as int, z as int) ==> final(self).solid@
                == old(self).solid@,
    {
        if x < 0 || y < 0 || z < 0 {
            return;
        }
        let (xu, yu, zu) = (x as u64, y as u64, z as u64);
        if xu < self.width as u64 && yu < self.height as u64 && zu < self.depth as u64 {
            let (xs, ys, zs) = (xu as usize, yu as usize, zu as usize);
            proof {
                lemma_index_partials(
                    self.width as int,
                    self.height as int,
                    self.depth as int,
                    xs as int,
                    ys as int,
                    zs as int,
                );
            }
            let i = self.index(xs, ys, zs);
            self.solid.set(i, true);
        }
    }

    /// Seeds the default cube obstacle into the mask: cells
    /// `x0 .. x0 + CUBE_CELLS`, `start_y .. start_y + CUBE_CELLS`,
    /// `z0 .. z0 + CUBE_CELLS` (clipped to the tunnel) become solid, where the
    /// cube is centred a third of the way down the tunnel (`x0`) and in the
    /// middle of its width (`z0`). Cells already solid stay solid.
    pub fn build_cube(&mut self, start_y: usize)
        requires
            old(self).wf(),
        ensures
            final(self).wf(),
            final(self).width == old(self).width,
            final(self).height == old(self).height,
            final(self).depth == old(self).depth,
            final(self).solid@.len() == old(self).solid@.len(),
            forall|i: int|
                0 <= i < final(self).solid@.len() ==> #[trigger] final(self).solid@[i] == (
                old(self).solid@[i] || in_default_cube(
                    old(self).width as int,
                    old(self).height as int,
                    old(self).depth as int,
                    start_y as int,
                    i,
                )),
    {
        let ghost old_solid = self.solid@;
        let w = self.width;
        let h = self.height;
        let d = self.depth;
        let ghost n = old_solid.len();
        let x0 = (w / 3).saturating_sub(CUBE_CELLS / 2);
        let z0 = (d / 2).saturating_sub(CUBE_CELLS / 2);
        let y_top = start_y.saturating_add(CUBE_CELLS);
        let y_end = if y_top < h { y_top } else { h };
        let z_end = if z0 + CUBE_CELLS < d { z0 + CUBE_CELLS } else { d };
        let x_end = if x0 + CUBE_CELLS < w { x0 + CUBE_CELLS } else { w };
        let mut y = start_y;
        while y < y_end
            invariant
                self.width == w,
                self.height == h,
                self.depth == d,
                old(self).wf(),
                old(self).width == w,
                old(self).height == h,
                old(self).depth == d,
                old_solid == old(self).solid@,
                n == old_solid.len(),
                n == cell_count(w as int, h as int, d as int),
                self.solid@.len() == n,
                x0 == cube_start(w as int / 3),
                z0 == cube_start(d as int / 2),
                y_end <= h,
                y_end <= start_y + CUBE_CELLS,
                z_end == if z0 + CUBE_CELLS < d { z0 + CUBE_CELLS } else { d as int },
                x_end == if x0 + CUBE_CELLS < w { x0 + CUBE_CELLS } else { w as int },
                start_y <= y,
                y_end < start_y + CUBE_CELLS ==> y_end == h,
                forall|i: int|
                    0 <= i < n ==> #[trigger] self.solid@[i] == (old_solid[i] || (in_default_cube(
                        w as int,
                        h as int,
                        d as int,
                        start_y as int,
                        i,
                    ) && index_y(i, w as int, h as int) < y)),
            decreases y_end - y,
        {
            let mut z = z0;
            while z < z_end
                invariant
                    self.width == w,
                    self.height == h,
                    self.depth == d,
                    old(self).wf(),
                    old(self).width == w,
                    old(self).height == h,
                    old(self).depth == d,
                    n == old_solid.len(),
                    n == cell_count(w as int, h as int, d as int),
                n == cell_count(w as int, h as int, d as int),
                    self.solid@.len() == n,
                    x0 == cube_start(w as int / 3),
                    z0 == cube_start(d as int / 2),
                    start_y <= y < y_end,
                    y_end <= h,
                    y_end <= start_y + CUBE_CELLS,
                    z_end == if z0 + CUBE_CELLS < d { z0 + CUBE_CELLS } else { d as int },
                    x_end == if x0 + CUBE_CELLS < w { x0 + CUBE_CELLS } else { w as int },
                    z0 <= z,
                    forall|i: int|
                        0 <= i < n ==> #[trigger] self.solid@[i] == (old_solid[i] || (
                        in_default_cube(w as int, h as int, d as int, start_y as int, i) && (
                        index_y(i, w as int, h as int) < y || (index_y(i, w as int, h as int) == y
                            && index_z(i, w as int, h as int) < z)))),
                decreases z_end - z,
            {
                let mut x = x0;
                while x < x_end
                    invariant
                        self.width == w,
                        self.height == h,
                        self.depth == d,
                        old(self).wf(),
                        old(self).width == w,
                        old(self).height == h,
                        old(self).depth == d,
                        n == old_solid.len(),
                        n == cell_count(w as int, h as int, d as int),
                    n == cell_count(w as int, h as int, d as int),
                n == cell_count(w as int, h as int, d as int),
                        self.solid@.len() == n,
                        x0 == cube_start(w as int / 3),
                        z0 == cube_start(d as int / 2),
                        start_y <= y < y_end,
                        y_end <= h,
                        y_end <= start_y + CUBE_CELLS,
                        z0 <= z < z_end,
                        z_end == if z0 + CUBE_CELLS < d { z0 + CUBE_CELLS } else { d as int },
                        x_end == if x0 + CUBE_CELLS < w { x0 + CUBE_CELLS } else { w as int },
                        x0 <= x,
                        forall|i: int|
                            0 <= i < n ==> #[trigger] self.solid@[i] == (old_solid[i] || (
                            in_default_cube(w as int, h as int, d as int, start_y as int, i) && (
                            index_y(i, w as int, h as int) < y || (index_y(i, w as int, h as int)
                                == y && (index_z(i, w as int, h as int) < z || (index_z(
                                i,
                                w as int,
                                h as int,
                            ) == z && index_x(i, w as int, h as int) < x)))))),
                    decreases x_end - x,
                {
                    proof {
                        lemma_index_partials(w as int, h as int, d as int, x as int, y as int, z as int);
                        lemma_index_decompose(w as int, h as int, x as int, y as int, z as int);
                    }
                    let i = self.index(x, y, z);
                    let ghost before = self.solid@;
                    self.solid.set(i, true);
                    proof {
                        assert forall|j: int| 0 <= j < n implies #[trigger] self.solid@[j] == (
                        old_solid[j] || (in_default_cube(
                            w as int,
                            h as int,
                            d as int,
                            start_y as int,
                            j,
                        ) && (index_y(j, w as int, h as int) < y || (index_y(j, w as int, h as int)
                            == y && (index_z(j, w as int, h as int) < z || (index_z(
                            j,
                            w as int,
                            h as int,
                        ) == z && index_x(j, w as int, h as int) < x + 1)))))) by {
                            lemma_index_recompose(w as int, h as int, d as int, j);
                            assert(before[j] == (old_solid[j] || (in_default_cube(
                                w as int,
                                h as int,
                                d as int,
                                start_y as int,
                                j,
                            ) && (index_y(j, w as int, h as int) < y || (index_y(
                                j,
                                w as int,
                                h as int,
                            ) == y && (index_z(j, w as int, h as int) < z || (index_z(
                                j,
                                w as int,
                                h as int,
                            ) == z && index_x(j, w as int, h as int) < x)))))));
                        }
                    }
                    x += 1;
                }
                proof {
                    assert forall|j: int| 0 <= j < n implies #[trigger] self.solid@[j] == (
                    old_solid[j] || (in_default_cube(w as int, h as int, d as int, start_y as int, j)
                        && (index_y(j, w as int, h as int) < y || (index_y(j, w as int, h as int)
                        == y && index_z(j, w as int, h as int) < z + 1)))) by {
                        lemma_index_recompose(w as int, h as int, d as int, j);
                    }
                }
                z += 1;
            }
            proof {
                assert forall|j: int| 0 <= j < n implies #[trigger] self.solid@[j] == (old_solid[j]
                    || (in_default_cube(w as int, h as int, d as int, start_y as int, j) && index_y(
                    j,
                    w as int,
                    h as int,
                ) < y + 1)) by {
                    lemma_index_recompose(w as int, h as int, d as int, j);
                }
            }
            y += 1;
        }
        proof {
            assert forall|j: int| 0 <= j < n implies #[trigger] self.solid@[j] == (old_solid[j]
                || in_default_cube(w as int, h as int, d as int, start_y as int, j)) by {
                lemma_index_recompose(w as int, h as int, d as int, j);
            }
        }
    }

    /// Bounding box, in cell coordinates, of all blocked cells: the
    /// componentwise minimum and maximum `(x, y, z)` over the solid cells, or
    /// `None` when nothing is blocked.
    pub fn solid_bbox(&self) -> (r: Option<((usize, usize, usize), (usize, usize, usize))>)
        requires
            self.wf(),
        ensures
            r is None <==> forall|i: int|
                0 <= i < self.solid@.len() ==> !(#[trigger] self.solid@[i]),
            r matches Some((mn, mx)) ==> is_solid_bbox(
                self.solid@,
                self.width as int,
                self.height as int,
                mn,
                mx,
            ),
    {
        let w = self.width;
        let h = self.height;
        let d = self.depth;
        let ghost s = self.solid@;
        let ghost wi = w as int;
        let ghost hi = h as int;
        let mut any = false;
        let mut mn: (usize, usize, usize) = (usize::MAX, usize::MAX, usize::MAX);
        let mut mx: (usize, usize, usize) = (0, 0, 0);
        let ghost mut wit: (int, int, int, int, int, int) = (0, 0, 0, 0, 0, 0);
        assert(spec_index(wi, hi, 0, 0, 0) == 0) by (nonlinear_arith);
        let mut z: usize = 0;
        while z < d
            invariant
                self.wf(),
                s == self.solid@,
                w == self.width,
                h == self.height,
                d == self.depth,
                wi == w,
                hi == h,
                z <= d,
                bbox_scan(s, wi, hi, spec_index(wi, hi, 0, 0, z as int), any, mn, mx, wit),
            decreases d - z,
        {
            let mut y: usize = 0;
            while y < h
                invariant
                    self.wf(),
                    s == self.solid@,
                    w == self.width,
                    h == self.height,
                    d == self.depth,
                    wi == w,
                    hi == h,
                    z < d,
                    y <= h,
                    bbox_scan(s, wi, hi, spec_index(wi, hi, 0, y as int, z as int), any, mn, mx, wit),
                decreases h - y,
            {
                let mut x: usize = 0;
                while x < w
                    invariant
                        self.wf(),
                        s == self.solid@,
                        w == self.width,
                        h == self.height,
                        d == self.depth,
                        wi == w,
                        hi == h,
                        z < d,
                        y < h,
                        x <= w,
                        bbox_scan(
                            s,
                            wi,
                            hi,
                            spec_index(wi, hi, x as int, y as int, z as int),
                            any,
                            mn,
                            mx,
                            wit,
                        ),
                    decreases w - x,
                {
                    proof {
                        lemma_index_partials(wi, hi, d as int, x as int, y as int, z as int);
                        lemma_index_decompose(wi, hi, x as int, y as int, z as int);
                    }
                    let i = self.index(x, y, z);
                    if self.solid[i] {
                        if !any || x < mn.0 {
                            mn.0 = x;
                            proof { wit.0 = i as int; }
                        }
                        if !any || y < mn.1 {
                            mn.1 = y;
                            proof { wit.1 = i as int; }
                        }
                        if !any || z < mn.2 {
                            mn.2 = z;
                            proof { wit.2 = i as int; }
                        }
                        if !any || x > mx.0 {
                            mx.0 = x;
                            proof { wit.3 = i as int; }
                        }
                        if !any || y > mx.1 {
                            mx.1 = y;
                            proof { wit.4 = i as int; }
                        }
                        if !any || z > mx.2 {
                            mx.2 = z;
                            proof { wit.5 = i as int; }
                        }
                        any = true;
                    }
                    x += 1;
                }
                proof {
                    assert(spec_index(wi, hi, wi, y as int, z as int) == spec_index(
                        wi,
                        hi,
                        0,
                        y + 1,
                        z as int,
                    )) by (nonlinear_arith);
                }
                y += 1;
            }
            proof {
                assert(spec_index(wi, hi, 0, hi, z as int) == spec_index(wi, hi, 0, 0, z + 1))
                    by (nonlinear_arith);
            }
            z += 1;
        }
        proof {
            assert(spec_index(wi, hi, 0, 0, d as int) == s.len()) by (nonlinear_arith)
                requires
                    s.len() == cell_count(wi, hi, d as int),
            ;
        }
        if any {
            proof {
                assert(s[wit.0] && index_x(wit.0, wi, hi) == mn.0);
                assert(s[wit.1] && index_y(wit.1, wi, hi) == mn.1);
                assert(s[wit.2] && index_z(wit.2, wi, hi) == mn.2);
                assert(s[wit.3] && index_x(wit.3, wi, hi) == mx.0);
                assert(s[wit.4] && index_y(wit.4, wi, hi) == mx.1);
                assert(s[wit.5] && index_z(wit.5, wi, hi) == mx.2);
            }
            Some((mn, mx))
        } else {
            None
        }
    }
}


/// Law: marking a cell blocks exactly that cell. If `after`'s mask is
/// `before`'s with cell `(x, y, z)` set, then any cell `(x2, y2, z2)` of the
/// tunnel is solid in `after` iff it was solid in `before` or it is
/// `(x, y, z)`.
pub proof fn lemma_mark_blocks_exactly(
    before: Grid3D,
    after: Grid3D,
    x: int,
    y: int,
    z: int,
    x2: int,
    y2: int,
    z2: int,
)
    requires
        before.wf(),
        before.contains_cell(x, y, z),
        before.contains_cell(x2, y2, z2),
        after.width == before.width,
        after.height == before.height,
        after.depth == before.depth,
        after.solid@ == before.solid@.update(before.cell(x, y, z), true),
    ensures
        after.solid_at(x2, y2, z2) == (before.solid_at(x2, y2, z2) || (x2 == x && y2 == y && z2
            == z)),
{
    let (w, h, d) = (before.width as int, before.height as int, before.depth as int);
    crate::lattice::lemma_index_in_range(w, h, d, x, y, z);
    crate::lattice::lemma_index_in_range(w, h, d, x2, y2, z2);
    if before.cell(x, y, z) == before.cell(x2, y2, z2) {
        crate::lattice::lemma_index_injective(w, h, d, x, y, z, x2, y2, z2);
    }
}

/// Law: restoring the cube on a cleared tunnel leaves exactly the cube. If
/// `cleared` has no solid cell and `rebuilt` is what `build_cube(start_y)`
/// makes of it, a cell `(x, y, z)` of the tunnel is solid in `rebuilt` iff
/// `x0 <= x < x0 + CUBE_CELLS`, `start_y <= y < start_y + CUBE_CELLS` and
/// `z0 <= z < z0 + CUBE_CELLS`, with `x0 = cube_start(width / 3)` and
/// `z0 = cube_start(depth / 2)`.
pub proof fn lemma_restored_cube_exact(
    cleared: Grid3D,
    rebuilt: Grid3D,
    start_y: int,
    x: int,
    y: int,
    z: int,
)
    requires
        cleared.wf(),
        forall|i: int| 0 <= i < cleared.solid@.len() ==> !(#[trigger] cleared.solid@[i]),
        rebuilt.width == cleared.width,
        rebuilt.height == cleared.height,
        rebuilt.depth == cleared.depth,
        rebuilt.solid@.len() == cleared.solid@.len(),
        forall|i: int|
            0 <= i < rebuilt.solid@.len() ==> #[trigger] rebuilt.solid@[i] == (cleared.solid@[i]
                || in_default_cube(
                cleared.width as int,
                cleared.height as int,
                cleared.depth as int,
                start_y,
                i,
            )),
        cleared.contains_cell(x, y, z),
    ensures
        rebuilt.solid_at(x, y, z) == ({
            let x0 = cube_start(cleared.width as int / 3);
            let z0 = cube_start(cleared.depth as int / 2);
            &&& x0 <= x < x0 + CUBE_CELLS
            &&& start_y <= y < start_y + CUBE_CELLS
            &&& z0 <= z < z0 + CUBE_CELLS
        }),
{
    let (w, h, d) = (cleared.width as int, cleared.height as int, cleared.depth as int);
    crate::lattice::lemma_index_in_range(w, h, d, x, y, z);
    lemma_index_decompose(w, h, x, y, z);
    let i = cleared.cell(x, y, z);
    assert(rebuilt.solid@[i] == (cleared.solid@[i] || in_default_cube(w, h, d, start_y, i)));
}


/// Law: blocking one cell that was free raises the count of blocked cells by
/// exactly one; freeing a blocked cell lowers it by one; rewriting a cell with
/// its own value leaves it unchanged.
pub proof fn lemma_count_solid_update(s: Seq<bool>, j: int, b: bool)
    requires
        0 <= j < s.len(),
    ensures
        !s[j] && b ==> count_solid(s.update(j, b)) == count_solid(s) + 1,
        s[j] && !b ==> count_solid(s.update(j, b)) + 1 == count_solid(s),
        s[j] == b ==> count_solid(s.update(j, b)) == count_solid(s),
    decreases s.len(),
{
    let t = s.update(j, b);
    if j == s.len() - 1 {
        assert(t.drop_last() =~= s.drop_last());
    } else {
        assert(t.drop_last() =~= s.drop_last().update(j, b));
        lemma_count_solid_update(s.drop_last(), j, b);
    }
}

/// Law: the count of blocked cells lies between zero and the number of
/// cells; it is zero for an all-free mask and the number of cells for an
/// all-blocked one.
pub proof fn lemma_count_solid_bounds(s: Seq<bool>)
    ensures
        count_solid(s) <= s.len(),
        (forall|i: int| 0 <= i < s.len() ==> !(#[trigger] s[i])) ==> count_solid(s) == 0,
        (forall|i: int| 0 <= i < s.len() ==> #[trigger] s[i]) ==> count_solid(s) == s.len(),
    decreases s.len(),
{
    if s.len() > 0 {
        let p = s.drop_last();
        lemma_count_solid_bounds(p);
        if forall|i: int| 0 <= i < s.len() ==> !(#[trigger] s[i]) {
            assert forall|i: int| 0 <= i < p.len() implies !(#[trigger] p[i]) by {
                assert(p[i] == s[i]);
            }
        }
        if forall|i: int| 0 <= i < s.len() ==> #[trigger] s[i] {
            assert forall|i: int| 0 <= i < p.len() implies #[trigger] p[i] by {
                assert(p[i] == s[i]);
            }
        }
    }
}

/// Law: marking a free cell of the tunnel adds exactly one blocked cell to
/// the count, and marking an already blocked cell adds none.
pub proof fn lemma_mark_counts_one(g: Grid3D, x: int, y: int, z: int)
    requires
        g.wf(),
        g.contains_cell(x, y, z),
    ensures
        !g.solid_at(x, y, z) ==> count_solid(g.solid@.update(g.cell(x, y, z), true)) == count_solid(
            g.solid@,
        ) + 1,
        g.solid_at(x, y, z) ==> count_solid(g.solid@.update(g.cell(x, y, z), true)) == count_solid(
            g.solid@,
        ),
{
    crate::lattice::lemma_index_in_range(
        g.width as int,
        g.height as int,
        g.depth as int,
        x,
        y,
        z,
    );
    lemma_count_solid_update(g.solid@, g.cell(x, y, z), true);
}

} // verus!
