//! Verified core of an interactive wind-tunnel simulator.

use vstd::prelude::*;

pub mod lattice;
pub mod grid;
pub mod stencil;
pub mod controls;
pub mod mesh;

verus! {
} // verus!
