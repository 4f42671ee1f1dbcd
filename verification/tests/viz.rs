use ramseynet::graph::AdjacencyMatrix;
use ramseynet::viz::{snapshot_due, viz_step, PinnedGraph, SearchSnapshot, VizEvent, VizMessage, VizStep};

fn triangle_plus_edge() -> AdjacencyMatrix {
    let mut g = AdjacencyMatrix::new(5);
    g.set_edge(0, 1, true);
    g.set_edge(1, 2, true);
    g.set_edge(0, 2, true);
    g.set_edge(3, 4, true);
    g
}

#[test]
fn snapshot_captures_graph_and_counters() {
    let g = triangle_plus_edge();
    let s = SearchSnapshot::capture(&g, 5, 3, 3, "tree", 42, 1000, false, 7, 1234);
    assert_eq!(s.edges, 4);
    assert_eq!(s.graph.n, 5);
    assert_eq!(s.graph.encoding, "utri_b64_v1");
    // pairs (0,1) (0,2) (0,3) (0,4) (1,2) (1,3) (1,4) (2,3) | (2,4) (3,4) -> 11001000 01
    assert_eq!(s.graph.bits_b64, "yEA=");
    assert_eq!(s.strategy, "tree");
    assert_eq!((s.n, s.k, s.ell, s.iteration, s.max_iters), (5, 3, 3, 42, 1000));
    assert!(!s.valid);
    assert_eq!((s.violation_score, s.elapsed_ms), (7, 1234));
}

#[test]
fn pinned_graph_captures_discovery() {
    let g = triangle_plus_edge();
    let p = PinnedGraph::capture(&g, 5, "anneal", 9, true, 77);
    assert_eq!(p.graph.bits_b64, "yEA=");
    assert_eq!(p.strategy, "anneal");
    assert_eq!((p.n, p.iteration, p.is_record, p.found_at_ms), (5, 9, true, 77));
}

#[test]
fn edge_count() {
    assert_eq!(AdjacencyMatrix::new(6).num_edges(), 0);
    assert_eq!(triangle_plus_edge().num_edges(), 4);
    assert_eq!(AdjacencyMatrix::new(6).complement().num_edges(), 15);
}

#[test]
fn snapshots_throttled_to_fifty_ms() {
    assert!(!snapshot_due(0));
    assert!(!snapshot_due(49));
    assert!(snapshot_due(50));
    assert!(snapshot_due(1000));
}

#[test]
fn hello_carries_search_version() {
    match VizMessage::hello() {
        VizMessage::Hello { version } => assert_eq!(version, "0.1.0"),
        _ => panic!("expected hello"),
    }
}

#[test]
fn stream_decisions() {
    let g = triangle_plus_edge();
    let snap = SearchSnapshot::capture(&g, 5, 3, 3, "tree", 1, 10, true, 0, 5);
    match viz_step(VizEvent::Tick(Some(snap))) {
        VizStep::Send(VizMessage::Snapshot(s)) => assert_eq!(s.iteration, 1),
        _ => panic!("snapshot should be sent"),
    }
    assert!(matches!(viz_step(VizEvent::Tick(None)), VizStep::Skip));
    let pinned = PinnedGraph::capture(&g, 5, "tree", 3, false, 8);
    match viz_step(VizEvent::PinnedReady(pinned)) {
        VizStep::Send(VizMessage::Pinned(p)) => assert_eq!(p.iteration, 3),
        _ => panic!("pinned graph should be sent"),
    }
    assert!(matches!(viz_step(VizEvent::PinnedLagged), VizStep::Skip));
    assert!(matches!(viz_step(VizEvent::ClientFrame), VizStep::Skip));
    assert!(matches!(viz_step(VizEvent::ClientClosed), VizStep::Stop));
    assert!(matches!(viz_step(VizEvent::SendFailed), VizStep::Stop));
}
