use rustflow::grid::{Grid3D, CUBE_CELLS, GRID_DEPTH, GRID_HEIGHT, GRID_WIDTH};
use rustflow::lattice::{cell_coords, flat_index};

#[test]
fn flat_index_exact_value() {
    assert_eq!(flat_index(48, 28, 1, 2, 3), 3 * 48 * 28 + 2 * 48 + 1);
    assert_eq!(flat_index(48, 28, 1, 2, 3), 4129);
    assert_eq!(flat_index(48, 28, 0, 0, 0), 0);
}

#[test]
fn cell_coords_inverts_flat_index() {
    assert_eq!(cell_coords(4129, 48, 28), (1, 2, 3));
    assert_eq!(cell_coords(0, 48, 28), (0, 0, 0));
    assert_eq!(cell_coords(48 * 28 * 28 - 1, 48, 28), (47, 27, 27));
}

#[test]
fn layout_is_a_bijection_on_small_lattice() {
    let (w, h, d) = (4usize, 3usize, 2usize);
    let mut seen = vec![false; w * h * d];
    for z in 0..d {
        for y in 0..h {
            for x in 0..w {
                let i = flat_index(w, h, x, y, z);
                assert!(i < w * h * d);
                assert!(!seen[i]);
                seen[i] = true;
                assert_eq!(cell_coords(i, w, h), (x, y, z));
            }
        }
    }
    assert!(seen.iter().all(|s| *s));
}

#[test]
fn new_grid_is_empty() {
    let g = Grid3D::new(GRID_WIDTH, GRID_HEIGHT, GRID_DEPTH);
    assert_eq!(g.width, 48);
    assert_eq!(g.height, 28);
    assert_eq!(g.depth, 28);
    assert_eq!(g.solid.len(), 48 * 28 * 28);
    assert_eq!(g.solid_count(), 0);
    assert_eq!(g.solid_bbox(), None);
}

#[test]
fn empty_dimensions_give_empty_grid() {
    let g = Grid3D::new(0, 5, 7);
    assert_eq!(g.solid.len(), 0);
    assert_eq!(g.solid_bbox(), None);
    assert!(!g.is_solid_cell(0, 0, 0));
}

#[test]
fn index_matches_layout() {
    let g = Grid3D::new(10, 6, 4);
    assert_eq!(g.index(3, 2, 1), 60 + 20 + 3);
}

#[test]
fn outside_cells_are_never_solid() {
    let mut g = Grid3D::new(4, 4, 4);
    g.mark_cell(0, 0, 0);
    assert!(g.is_solid_cell(0, 0, 0));
    assert!(!g.is_solid_cell(-1, 0, 0));
    assert!(!g.is_solid_cell(0, -1, 0));
    assert!(!g.is_solid_cell(0, 0, -1));
    assert!(!g.is_solid_cell(4, 0, 0));
    assert!(!g.is_solid_cell(0, 4, 0));
    assert!(!g.is_solid_cell(0, 0, 4));
    assert!(!g.is_solid_cell(i64::MAX, 0, 0));
}

#[test]
fn mark_blocks_exactly_one_cell() {
    let mut g = Grid3D::new(5, 4, 3);
    g.mark_cell(2, 1, 2);
    assert_eq!(g.solid_count(), 1);
    for z in 0..3i64 {
        for y in 0..4i64 {
            for x in 0..5i64 {
                assert_eq!(g.is_solid_cell(x, y, z), (x, y, z) == (2, 1, 2));
            }
        }
    }
    g.mark_cell(2, 1, 2);
    assert_eq!(g.solid_count(), 1);
}

#[test]
fn mark_outside_changes_nothing() {
    let mut g = Grid3D::new(5, 4, 3);
    g.mark_cell(-1, 1, 1);
    g.mark_cell(5, 1, 1);
    g.mark_cell(1, 4, 1);
    g.mark_cell(1, 1, 3);
    assert_eq!(g.solid_count(), 0);
}

#[test]
fn clear_solids_empties_mask() {
    let mut g = Grid3D::new(6, 6, 6);
    g.build_cube(0);
    assert!(g.solid_count() > 0);
    g.clear_solids();
    assert_eq!(g.solid_count(), 0);
    assert_eq!(g.solid.len(), 216);
    assert_eq!(g.solid_bbox(), None);
}

#[test]
fn default_cube_in_default_tunnel() {
    let mut g = Grid3D::new(GRID_WIDTH, GRID_HEIGHT, GRID_DEPTH);
    g.build_cube(1);
    assert_eq!(g.solid_count(), CUBE_CELLS * CUBE_CELLS * CUBE_CELLS);
    assert_eq!(g.solid_count(), 216);
    assert_eq!(g.solid_bbox(), Some(((13, 1, 11), (18, 6, 16))));
    assert!(g.is_solid_cell(13, 1, 11));
    assert!(g.is_solid_cell(18, 6, 16));
    assert!(!g.is_solid_cell(12, 1, 11));
    assert!(!g.is_solid_cell(19, 1, 11));
    assert!(!g.is_solid_cell(13, 0, 11));
    assert!(!g.is_solid_cell(13, 7, 11));
    assert!(!g.is_solid_cell(13, 1, 10));
    assert!(!g.is_solid_cell(13, 1, 17));
}

#[test]
fn cube_is_clipped_at_the_walls() {
    let mut g = Grid3D::new(4, 4, 4);
    g.build_cube(2);
    // x0 = z0 = 0, y in 2..4: 4 * 2 * 4 cells.
    assert_eq!(g.solid_count(), 32);
    assert_eq!(g.solid_bbox(), Some(((0, 2, 0), (3, 3, 3))));
}

#[test]
fn cube_above_the_ceiling_is_empty() {
    let mut g = Grid3D::new(10, 5, 10);
    g.build_cube(5);
    assert_eq!(g.solid_count(), 0);
    g.build_cube(usize::MAX);
    assert_eq!(g.solid_count(), 0);
}

#[test]
fn cube_keeps_existing_obstacles() {
    let mut g = Grid3D::new(GRID_WIDTH, GRID_HEIGHT, GRID_DEPTH);
    g.mark_cell(0, 0, 0);
    g.build_cube(1);
    assert_eq!(g.solid_count(), 217);
    assert_eq!(g.solid_bbox(), Some(((0, 0, 0), (18, 6, 16))));
}

#[test]
fn restored_cube_is_exactly_the_block() {
    let (w, h, d) = (12usize, 9usize, 10usize);
    let mut g = Grid3D::new(w, h, d);
    g.mark_cell(1, 1, 1);
    g.clear_solids();
    g.build_cube(2);
    let x0 = (w / 3).saturating_sub(3) as i64;
    let z0 = (d / 2).saturating_sub(3) as i64;
    for z in 0..d as i64 {
        for y in 0..h as i64 {
            for x in 0..w as i64 {
                let inside = x0 <= x && x < x0 + 6 && 2 <= y && y < 8 && z0 <= z && z < z0 + 6;
                assert_eq!(g.is_solid_cell(x, y, z), inside);
            }
        }
    }
}

#[test]
fn bbox_of_single_cell() {
    let mut g = Grid3D::new(7, 7, 7);
    g.mark_cell(3, 4, 5);
    assert_eq!(g.solid_bbox(), Some(((3, 4, 5), (3, 4, 5))));
    g.mark_cell(6, 0, 2);
    assert_eq!(g.solid_bbox(), Some(((3, 0, 2), (6, 4, 5))));
}
