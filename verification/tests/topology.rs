use ising_propp_wilson::topology::{build_neighbors, side_fits, MAX_SITES};

#[test]
fn table_of_three_by_three_lists_left_right_up_down() {
    let table = build_neighbors(3);
    assert_eq!(table.len(), 9);
    assert_eq!(table[0], [2, 1, 6, 3]);
    assert_eq!(table[1], [0, 2, 7, 4]);
    assert_eq!(table[2], [1, 0, 8, 5]);
    assert_eq!(table[3], [5, 4, 0, 6]);
    assert_eq!(table[4], [3, 5, 1, 7]);
    assert_eq!(table[5], [4, 3, 2, 8]);
    assert_eq!(table[6], [8, 7, 3, 0]);
    assert_eq!(table[7], [6, 8, 4, 1]);
    assert_eq!(table[8], [7, 6, 5, 2]);
}

#[test]
fn single_site_is_its_own_neighbor() {
    let table = build_neighbors(1);
    assert_eq!(table, vec![[0usize, 0, 0, 0]]);
}

#[test]
fn lattice_of_side_two_wraps_onto_the_same_neighbor() {
    let table = build_neighbors(2);
    assert_eq!(table, vec![[1usize, 1, 2, 2], [0, 0, 3, 3], [3, 3, 0, 0], [2, 2, 1, 1]]);
}

#[test]
fn empty_lattice_has_an_empty_table() {
    assert_eq!(build_neighbors(0).len(), 0);
}

#[test]
fn neighbors_are_sites_and_adjacency_is_mutual() {
    for n in 1usize..9 {
        let table = build_neighbors(n);
        assert_eq!(table.len(), n * n);
        for i in 0..n * n {
            let [left, right, up, down] = table[i];
            assert!(left < n * n && right < n * n && up < n * n && down < n * n);
            assert_eq!(table[left][1], i);
            assert_eq!(table[right][0], i);
            assert_eq!(table[up][3], i);
            assert_eq!(table[down][2], i);
            assert_eq!(left / n, i / n);
            assert_eq!(right / n, i / n);
            assert_eq!(up % n, i % n);
            assert_eq!(down % n, i % n);
        }
    }
}

#[test]
fn wide_lattice_wraps_at_its_corners() {
    let n = 1000usize;
    let table = build_neighbors(n);
    assert_eq!(table.len(), n * n);
    assert_eq!(table[0], [n - 1, 1, (n - 1) * n, n]);
    assert_eq!(table[n * n - 1], [n * n - 2, (n - 1) * n, (n - 2) * n + n - 1, n - 1]);
}

#[test]
fn lattices_below_the_site_bound_fit() {
    assert_eq!(MAX_SITES, 1 << 29);
    assert!(side_fits(0));
    assert!(side_fits(1));
    assert!(side_fits(64));
    assert!(side_fits(23170));
    assert!(!side_fits(23171));
    assert!(!side_fits(1 << 16));
    assert!(!side_fits(usize::MAX));
}
