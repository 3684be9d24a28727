use ising_propp_wilson::snapshot::spin_snapshot;

fn text(cells: &[u8], n: usize) -> String {
    spin_snapshot(&cells.to_vec(), n).into_iter().collect()
}

#[test]
fn snapshot_has_one_line_for_each_row() {
    assert_eq!(text(&[1, 0, 0, 1, 1, 1, 0, 0, 0], 3), "+--\n+++\n---");
    assert_eq!(text(&[0, 1, 1, 0], 2), "-+\n+-");
}

#[test]
fn snapshot_of_small_lattices() {
    assert_eq!(text(&[], 0), "");
    assert_eq!(text(&[1], 1), "+");
    assert_eq!(text(&[0], 1), "-");
}

#[test]
fn snapshot_has_no_line_feed_at_its_end() {
    let cells = vec![1u8; 16];
    let rendered = text(&cells, 4);
    assert_eq!(rendered.len(), 16 + 3);
    assert_eq!(rendered.lines().count(), 4);
    assert!(rendered.lines().all(|line| line == "++++"));
}
