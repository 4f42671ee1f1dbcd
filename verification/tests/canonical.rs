use ramseynet::canonical::canonical_relabel;
use ramseynet::graph::AdjacencyMatrix;

#[test]
fn relabel_by_labelling() {
    let mut g = AdjacencyMatrix::new(4);
    g.set_edge(0, 1, true);
    g.set_edge(1, 2, true);
    // canonical position a holds original vertex lab[a]
    let c = canonical_relabel(&g, &[2, 1, 3, 0]).unwrap();
    assert!(c.edge(0, 1)); // original (2, 1)
    assert!(c.edge(1, 3)); // original (1, 0)
    assert!(!c.edge(0, 3));
    assert!(!c.edge(2, 1));
    let same = canonical_relabel(&g, &[0, 1, 2, 3]).unwrap();
    assert_eq!(same, g);
}

#[test]
fn relabel_rejects_non_labellings() {
    let g = AdjacencyMatrix::new(3);
    assert!(canonical_relabel(&g, &[0, 1]).is_none());
    assert!(canonical_relabel(&g, &[0, 1, 1]).is_none());
    assert!(canonical_relabel(&g, &[0, 1, 3]).is_none());
    assert!(canonical_relabel(&g, &[0, -1, 2]).is_none());
    assert!(canonical_relabel(&AdjacencyMatrix::new(0), &[]).is_some());
}
