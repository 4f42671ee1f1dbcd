use std::cmp::Ordering;

use ramseynet::graph::AdjacencyMatrix;
use ramseynet::scoring::{aut_order_key, compute_score, GraphScore};

fn make_c5() -> AdjacencyMatrix {
    let mut g = AdjacencyMatrix::new(5);
    for i in 0..5 {
        g.set_edge(i, (i + 1) % 5, true);
    }
    g
}

fn make_k5() -> AdjacencyMatrix {
    let mut g = AdjacencyMatrix::new(5);
    for i in 0..5 {
        for j in (i + 1)..5 {
            g.set_edge(i, j, true);
        }
    }
    g
}

fn bits(x: f64) -> u64 {
    x.to_bits()
}

// The automorphism group order comes from nauty outside the library; the
// values passed here are the ones nauty reports for these graphs.
#[test]
fn c5_score() {
    let score = compute_score(&make_c5(), bits(10.0));
    assert_eq!(score.omega, 2);
    assert_eq!(score.alpha, 2);
    assert_eq!(score.c_omega, 5);
    assert_eq!(score.c_alpha, 5);
    assert_eq!(f64::from_bits(score.aut_order_bits), 10.0);
}

#[test]
fn k5_score() {
    let score = compute_score(&make_k5(), bits(120.0));
    assert_eq!(score.omega, 5);
    assert_eq!(score.alpha, 1);
    assert_eq!(score.c_omega, 1);
    assert_eq!(score.c_alpha, 5);
    assert_eq!(f64::from_bits(score.aut_order_bits), 120.0);
}

#[test]
fn tier1_dominates() {
    let better = GraphScore::new(2, 2, 100, 100, bits(1.0));
    let worse = GraphScore::new(3, 2, 1, 1, bits(1000.0));
    assert!(better < worse);
}

#[test]
fn tier2_breaks_tie() {
    let better = GraphScore::new(2, 2, 3, 3, bits(1.0));
    let worse = GraphScore::new(2, 2, 5, 5, bits(1000.0));
    assert!(better < worse);
}

#[test]
fn tier3_breaks_tie() {
    let better = GraphScore::new(2, 2, 5, 5, bits(100.0));
    let worse = GraphScore::new(2, 2, 5, 5, bits(10.0));
    assert!(better < worse);
}

#[test]
fn tier1_symmetry() {
    let a = GraphScore::new(2, 3, 5, 10, bits(10.0));
    let b = GraphScore::new(3, 2, 10, 5, bits(10.0));
    assert_eq!(a.tier1(), b.tier1());
    assert_eq!(a.tier2(), b.tier2());
    assert_eq!(a.cmp(&b), Ordering::Equal);
}

#[test]
fn tiers_are_max_then_min() {
    let s = GraphScore::new(4, 7, 3, 9, bits(2.0));
    assert_eq!(s.tier1(), (7, 4));
    assert_eq!(s.tier2(), (9, 3));
}

#[test]
fn equal_scores_compare_equal() {
    let a = GraphScore::new(3, 3, 4, 4, bits(8.0));
    let b = GraphScore::new(3, 3, 4, 4, bits(8.0));
    assert!(a == b);
    assert!(!(a < b));
    assert_eq!(a.partial_cmp(&b), Some(Ordering::Equal));
    assert_eq!(b.cmp(&a), Ordering::Equal);
}

#[test]
fn worse_compares_greater() {
    let better = GraphScore::new(2, 2, 5, 5, bits(100.0));
    let worse = GraphScore::new(2, 2, 5, 6, bits(100.0));
    assert_eq!(worse.cmp(&better), Ordering::Greater);
    assert!(worse > better);
}

#[test]
fn aut_order_key_matches_total_cmp() {
    let values = [
        f64::NEG_INFINITY,
        -1000.5,
        -1.0,
        -0.0,
        0.0,
        1.0,
        10.0,
        1e300,
        f64::INFINITY,
        f64::NAN,
        -f64::NAN,
    ];
    for a in values {
        for b in values {
            let by_key = aut_order_key(a.to_bits()).cmp(&aut_order_key(b.to_bits()));
            assert_eq!(by_key, a.total_cmp(&b), "{a} vs {b}");
        }
    }
    assert_eq!(aut_order_key(0), 0);
    assert_eq!(aut_order_key(0x8000_0000_0000_0000), -1);
}

#[test]
fn empty_graph_score_counts_independent_sets() {
    let g = AdjacencyMatrix::new(4);
    let s = compute_score(&g, bits(24.0));
    assert_eq!((s.omega, s.c_omega), (1, 4));
    assert_eq!((s.alpha, s.c_alpha), (4, 1));
}
