use ramseynet::clique::{count_cliques, count_max_cliques, find_clique_witness, max_clique_size};
use ramseynet::graph::AdjacencyMatrix;

fn cycle5() -> AdjacencyMatrix {
    let mut g = AdjacencyMatrix::new(5);
    for i in 0..5 {
        g.set_edge(i, (i + 1) % 5, true);
    }
    g
}

fn complete5() -> AdjacencyMatrix {
    let mut g = AdjacencyMatrix::new(5);
    for i in 0..5 {
        for j in (i + 1)..5 {
            g.set_edge(i, j, true);
        }
    }
    g
}

#[test]
fn no_clique_in_empty_graph() {
    let g = AdjacencyMatrix::new(5);
    assert!(find_clique_witness(&g, 2).is_none());
}

#[test]
fn finds_edge_as_2_clique() {
    let mut g = AdjacencyMatrix::new(5);
    g.set_edge(0, 1, true);
    let w = find_clique_witness(&g, 2).unwrap();
    assert_eq!(w, vec![0, 1]);
}

#[test]
fn finds_triangle() {
    let mut g = AdjacencyMatrix::new(5);
    g.set_edge(0, 1, true);
    g.set_edge(1, 2, true);
    g.set_edge(0, 2, true);
    let w = find_clique_witness(&g, 3).unwrap();
    assert_eq!(w, vec![0, 1, 2]);
}

#[test]
fn lex_smallest_triangle() {
    let mut g = AdjacencyMatrix::new(5);
    g.set_edge(0, 1, true);
    g.set_edge(1, 2, true);
    g.set_edge(0, 2, true);
    g.set_edge(2, 3, true);
    g.set_edge(3, 4, true);
    g.set_edge(2, 4, true);
    let w = find_clique_witness(&g, 3).unwrap();
    assert_eq!(w, vec![0, 1, 2]);
}

#[test]
fn no_3_clique_in_c5() {
    let g = cycle5();
    assert!(find_clique_witness(&g, 3).is_none());
}

#[test]
fn trivial_k0_k1() {
    let g = AdjacencyMatrix::new(3);
    let w0 = find_clique_witness(&g, 0).unwrap();
    assert_eq!(w0, Vec::<u32>::new());
    let w1 = find_clique_witness(&g, 1).unwrap();
    assert_eq!(w1, vec![0]);
}

#[test]
fn k_larger_than_n() {
    let g = AdjacencyMatrix::new(3);
    assert!(find_clique_witness(&g, 4).is_none());
}

#[test]
fn complete_graph_has_full_clique() {
    let g = complete5();
    let w = find_clique_witness(&g, 5).unwrap();
    assert_eq!(w, vec![0, 1, 2, 3, 4]);
}

#[test]
fn c5_max_clique_size() {
    assert_eq!(max_clique_size(&cycle5()), 2);
}

#[test]
fn k5_max_clique_size() {
    assert_eq!(max_clique_size(&complete5()), 5);
}

#[test]
fn c5_count_max_cliques() {
    let (omega, count) = count_max_cliques(&cycle5());
    assert_eq!(omega, 2);
    assert_eq!(count, 5);
}

#[test]
fn k5_count_max_cliques() {
    let (omega, count) = count_max_cliques(&complete5());
    assert_eq!(omega, 5);
    assert_eq!(count, 1);
}

#[test]
fn empty_graph_max_clique() {
    let g = AdjacencyMatrix::new(5);
    let (omega, count) = count_max_cliques(&g);
    assert_eq!(omega, 1);
    assert_eq!(count, 5);
}

#[test]
fn zero_vertex_graph_has_clique_number_zero() {
    let g = AdjacencyMatrix::new(0);
    assert_eq!(max_clique_size(&g), 0);
    assert_eq!(count_max_cliques(&g), (0, 1));
    assert!(find_clique_witness(&g, 1).is_none());
}

#[test]
fn counts_cliques_of_each_size_in_k5() {
    let g = complete5();
    let expected = [1u64, 5, 10, 10, 5, 1, 0];
    for (k, want) in expected.iter().enumerate() {
        assert_eq!(count_cliques(&g, k as u32), *want);
    }
}

#[test]
fn counts_triangles_in_two_triangles() {
    let mut g = AdjacencyMatrix::new(5);
    for (a, b) in [(0, 1), (1, 2), (0, 2), (2, 3), (3, 4), (2, 4)] {
        g.set_edge(a, b, true);
    }
    assert_eq!(count_cliques(&g, 3), 2);
    assert_eq!(count_cliques(&g, 2), 6);
    assert_eq!(count_cliques(&g, 4), 0);
}

#[test]
fn witness_skips_non_adjacent_prefix() {
    let mut g = AdjacencyMatrix::new(6);
    g.set_edge(0, 5, true);
    g.set_edge(1, 3, true);
    g.set_edge(1, 4, true);
    g.set_edge(3, 4, true);
    assert_eq!(find_clique_witness(&g, 2).unwrap(), vec![0, 5]);
    assert_eq!(find_clique_witness(&g, 3).unwrap(), vec![1, 3, 4]);
}

#[test]
fn complement_of_c5_is_c5_shaped() {
    let g = cycle5();
    let c = g.complement();
    assert_eq!(count_max_cliques(&c), (2, 5));
    assert!(c.edge(0, 2));
    assert!(!c.edge(0, 1));
    assert!(!c.edge(3, 3));
}

#[test]
fn set_edge_is_symmetric_and_ignores_loops() {
    let mut g = AdjacencyMatrix::new(4);
    g.set_edge(3, 1, true);
    assert!(g.edge(1, 3));
    g.set_edge(2, 2, true);
    assert!(!g.edge(2, 2));
    g.set_edge(1, 3, false);
    assert!(!g.edge(3, 1));
    assert_eq!(g.n(), 4);
}

#[test]
fn permute_vertices_relabels_edges() {
    let mut g = AdjacencyMatrix::new(4);
    g.set_edge(0, 1, true);
    g.set_edge(1, 2, true);
    let p = g.permute_vertices(&[3, 2, 1, 0]);
    assert!(p.edge(3, 2));
    assert!(p.edge(2, 1));
    assert!(!p.edge(3, 1));
    assert!(!p.edge(0, 1));
    let q = g.clone();
    assert_eq!(q, g);
}

#[test]
fn witness_exists_iff_count_positive() {
    for g in [cycle5(), complete5(), AdjacencyMatrix::new(4)] {
        for k in 0..7u32 {
            assert_eq!(find_clique_witness(&g, k).is_some(), count_cliques(&g, k) > 0, "k = {k}");
        }
    }
}

#[test]
fn clique_counts_within_two_to_the_n() {
    let g = complete5();
    let total: u64 = (0..=5u32).map(|k| count_cliques(&g, k)).sum();
    assert_eq!(total, 32);
    for k in 0..=6u32 {
        assert!(count_cliques(&g, k) <= 32);
        assert!(count_cliques(&cycle5(), k) <= 32);
    }
}
