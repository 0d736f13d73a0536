use rustflow::lattice::{cell_coords, flat_index};
use rustflow::stencil::{
    chunk_len, inflow_cells, interior_cells, is_boundary_or_solid, neighbors, neumann_sources,
};

#[test]
fn inflow_slab_order_and_size() {
    let r = inflow_cells(5, 3, 2);
    assert_eq!(r.len(), 2 * 3 * 2);
    assert_eq!(&r[..6], &[0, 1, 5, 6, 10, 11]);
    assert_eq!(&r[6..], &[15, 16, 20, 21, 25, 26]);
}

#[test]
fn inflow_slab_of_narrow_tunnel() {
    assert_eq!(inflow_cells(1, 3, 2), vec![0, 1, 2, 3, 4, 5]);
    assert!(inflow_cells(0, 3, 2).is_empty());
    assert!(inflow_cells(5, 3, 0).is_empty());
}

#[test]
fn inflow_slab_is_exactly_first_two_columns() {
    let (w, h, d) = (48usize, 28usize, 28usize);
    let r = inflow_cells(w, h, d);
    assert_eq!(r.len(), 2 * h * d);
    let mut listed = vec![false; w * h * d];
    for &i in &r {
        assert!(!listed[i]);
        listed[i] = true;
    }
    for i in 0..w * h * d {
        let (x, _, _) = cell_coords(i, w, h);
        assert_eq!(listed[i], x < 2);
    }
}

#[test]
fn interior_sweep_order() {
    assert_eq!(interior_cells(5, 4, 3), vec![26, 27, 28, 31, 32, 33]);
}

#[test]
fn interior_sweep_of_thin_tunnel_is_empty() {
    assert!(interior_cells(2, 5, 5).is_empty());
    assert!(interior_cells(5, 2, 5).is_empty());
    assert!(interior_cells(5, 5, 2).is_empty());
    assert!(interior_cells(0, 0, 0).is_empty());
}

#[test]
fn interior_sweep_is_exactly_off_wall_cells() {
    let (w, h, d) = (48usize, 28usize, 28usize);
    let r = interior_cells(w, h, d);
    assert_eq!(r.len(), 46 * 26 * 26);
    for k in 1..r.len() {
        assert!(r[k - 1] < r[k]);
    }
    let mut listed = vec![false; w * h * d];
    for &i in &r {
        listed[i] = true;
    }
    for i in 0..w * h * d {
        let (x, y, z) = cell_coords(i, w, h);
        let interior = x >= 1 && y >= 1 && z >= 1 && x < w - 1 && y < h - 1 && z < d - 1;
        assert_eq!(listed[i], interior);
    }
}

#[test]
fn walls_and_obstacles_keep_previous_value() {
    let (w, h, d) = (5usize, 4usize, 3usize);
    let mut solid = vec![false; w * h * d];
    solid[flat_index(w, h, 2, 2, 1)] = true;
    assert!(is_boundary_or_solid(flat_index(w, h, 0, 1, 1), w, h, d, &solid));
    assert!(is_boundary_or_solid(flat_index(w, h, 4, 1, 1), w, h, d, &solid));
    assert!(is_boundary_or_solid(flat_index(w, h, 1, 3, 1), w, h, d, &solid));
    assert!(is_boundary_or_solid(flat_index(w, h, 1, 1, 0), w, h, d, &solid));
    assert!(is_boundary_or_solid(flat_index(w, h, 1, 1, 2), w, h, d, &solid));
    assert!(is_boundary_or_solid(flat_index(w, h, 2, 2, 1), w, h, d, &solid));
    assert!(!is_boundary_or_solid(flat_index(w, h, 1, 1, 1), w, h, d, &solid));
    assert!(!is_boundary_or_solid(flat_index(w, h, 3, 2, 1), w, h, d, &solid));
}

#[test]
fn six_face_neighbours() {
    assert_eq!(neighbors(26, 5, 4, 3), [27, 25, 31, 21, 46, 6]);
}

#[test]
fn neumann_rule_reads_own_value_at_walls() {
    let (w, h, d) = (5usize, 4usize, 3usize);
    let mut solid = vec![false; w * h * d];
    let i = flat_index(w, h, 2, 1, 1);
    solid[flat_index(w, h, 3, 1, 1)] = true;
    solid[flat_index(w, h, 2, 1, 0)] = true;
    assert_eq!(neumann_sources(i, w, h, d, &solid), [i, i - 1, i + 5, i - 5, i + 20, i]);
    for s in neumann_sources(i, w, h, d, &solid) {
        assert!(!solid[s]);
    }
}

#[test]
fn chunk_sizes() {
    assert_eq!(chunk_len(100, 8), 13);
    assert_eq!(chunk_len(16, 4), 4);
    assert_eq!(chunk_len(0, 4), 1);
    assert_eq!(chunk_len(10, 0), 10);
    assert_eq!(chunk_len(3, 8), 1);
}

#[test]
fn chunks_cover_every_cell_within_thread_count() {
    for &(len, threads) in &[(37632usize, 12usize), (100, 8), (7, 3), (1, 1), (5, 10)] {
        let c = chunk_len(len, threads);
        let t = threads.max(1);
        assert!(len.div_ceil(c) <= t);
        for i in 0..len {
            assert!(i / c < t);
        }
    }
}
