use artificial_systems::lattice::{flat_index_below, neighbors_below, Grid2D, LatticeState};

#[test]
fn grid_dimensions_and_len() {
    let g = Grid2D::new(3, 4);
    assert_eq!(g.nrows(), 3);
    assert_eq!(g.ncols(), 4);
    assert_eq!(g.len(), 12);
    assert!(!g.is_empty());
    assert!(Grid2D::new(0, 5).is_empty());
    assert!(Grid2D::new(5, 0).is_empty());
}

#[test]
fn grid_idx_is_row_major() {
    let g = Grid2D::new(3, 4);
    assert_eq!(g.idx(0, 0), 0);
    assert_eq!(g.idx(0, 3), 3);
    assert_eq!(g.idx(1, 0), 4);
    assert_eq!(g.idx(2, 3), 11);
}

#[test]
fn grid_idx_is_a_bijection_onto_the_sites() {
    let g = Grid2D::new(3, 5);
    let mut seen = vec![false; g.len()];
    for row in 0..3 {
        for col in 0..5 {
            let i = g.idx(row, col);
            assert!(i < g.len());
            assert!(!seen[i]);
            seen[i] = true;
        }
    }
    assert!(seen.iter().all(|&b| b));
}

#[test]
fn grid_neighbors_interior() {
    let g = Grid2D::new(3, 4);
    assert_eq!(g.neighbors(1, 2), [(0, 2), (2, 2), (1, 1), (1, 3)]);
}

#[test]
fn grid_neighbors_wrap_toroidally() {
    let g = Grid2D::new(3, 4);
    assert_eq!(g.neighbors(0, 0), [(2, 0), (1, 0), (0, 3), (0, 1)]);
    assert_eq!(g.neighbors(2, 3), [(1, 3), (0, 3), (2, 2), (2, 0)]);
}

#[test]
fn grid_neighbors_single_site_is_its_own_neighbor() {
    let g = Grid2D::new(1, 1);
    assert_eq!(g.neighbors(0, 0), [(0, 0), (0, 0), (0, 0), (0, 0)]);
}

#[test]
fn grid_neighbor_relation_is_symmetric() {
    let g = Grid2D::new(4, 5);
    for row in 0..4 {
        for col in 0..5 {
            let nb = g.neighbors(row, col);
            // up of down, down of up, left of right, right of left is the site itself
            assert_eq!(g.neighbors(nb[1].0, nb[1].1)[0], (row, col));
            assert_eq!(g.neighbors(nb[0].0, nb[0].1)[1], (row, col));
            assert_eq!(g.neighbors(nb[3].0, nb[3].1)[2], (row, col));
            assert_eq!(g.neighbors(nb[2].0, nb[2].1)[3], (row, col));
        }
    }
}

#[test]
fn lattice_state_new_fills_in_row_major_order() {
    let mut next = 0u32;
    let s = LatticeState::new(2, 3, || {
        next += 1;
        next
    });
    assert_eq!(s.nrows(), 2);
    assert_eq!(s.ncols(), 3);
    assert_eq!(s.sites(), &[1, 2, 3, 4, 5, 6]);
    assert_eq!(s.get(1, 0), 4);
    assert_eq!(s.get(0, 2), 3);
}

#[test]
fn lattice_state_empty() {
    let s = LatticeState::new(0, 7, || 1u8);
    assert_eq!(s.sites().len(), 0);
}

#[test]
fn lattice_state_read_after_write() {
    let mut s = LatticeState::new(3, 3, || 0i32);
    s.set(1, 2, 9);
    assert_eq!(s.get(1, 2), 9);
    for row in 0..3 {
        for col in 0..3 {
            if (row, col) != (1, 2) {
                assert_eq!(s.get(row, col), 0);
            }
        }
    }
    s.set(1, 2, -4);
    assert_eq!(s.get(1, 2), -4);
}

#[test]
fn lattice_state_neighbor_values_order() {
    let mut next = 0u32;
    let s = LatticeState::new(3, 3, || {
        let v = next;
        next += 1;
        v
    });
    // sites: 0 1 2 / 3 4 5 / 6 7 8
    assert_eq!(s.neighbor_values(1, 1), [1, 7, 3, 5]);
    assert_eq!(s.neighbor_values(0, 0), [6, 3, 2, 1]);
}

#[test]
fn lattice_state_fill_keeps_dimensions() {
    let mut s = LatticeState::new(2, 2, || 'a');
    let mut letters = "wxyz".chars();
    s.fill(|| letters.next().unwrap());
    assert_eq!(s.nrows(), 2);
    assert_eq!(s.ncols(), 2);
    assert_eq!(s.sites(), &['w', 'x', 'y', 'z']);
}

#[test]
fn flat_index_below_checks_without_overflow() {
    assert!(flat_index_below(4, 2, 3, 12));
    assert!(!flat_index_below(4, 3, 0, 12));
    assert!(!flat_index_below(usize::MAX, 2, 0, usize::MAX));
    assert!(!flat_index_below(1, usize::MAX, 1, usize::MAX));
}

#[test]
fn neighbors_below_checks_every_neighbor() {
    assert!(neighbors_below(3, 4, 1, 2, 12));
    assert!(neighbors_below(3, 4, 0, 0, 12));
    assert!(!neighbors_below(0, 4, 0, 0, 0));
    assert!(!neighbors_below(3, 4, 3, 0, 12));
    assert!(!neighbors_below(3, 4, usize::MAX, 0, 12));
}
