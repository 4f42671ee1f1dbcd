//! Live search visualization: the snapshots and pinned graphs streamed to
//! a browser, and the decisions of the streaming connection.

use vstd::prelude::*;

use crate::graph::{edge_count, AdjacencyMatrix};
use crate::rgxf::{rgxf_text, to_json, RgxfJson};
use crate::search::SEARCH_VERSION;

verus! {

/// A snapshot of the current search state.
#[derive(Clone, Debug)]
pub struct SearchSnapshot {
    pub graph: RgxfJson,
    pub n: u32,
    pub k: u32,
    pub ell: u32,
    pub strategy: String,
    pub iteration: u64,
    pub max_iters: u64,
    pub valid: bool,
    pub edges: u32,
    pub violation_score: u32,
    pub elapsed_ms: u64,
}

/// A valid graph pinned (discovered) during search.
#[derive(Clone, Debug)]
pub struct PinnedGraph {
    pub graph: RgxfJson,
    pub n: u32,
    pub strategy: String,
    pub iteration: u64,
    pub is_record: bool,
    pub found_at_ms: u64,
}

/// A message sent to a visualization client.
#[derive(Clone, Debug)]
pub enum VizMessage {
    /// First message of a connection.
    Hello { version: String },
    Snapshot(SearchSnapshot),
    Pinned(PinnedGraph),
}

/// `r` is the RGXF form of `g`.
pub open spec fn is_rgxf_of(r: RgxfJson, g: &AdjacencyMatrix) -> bool {
    &&& r.n == g.order()
    &&& r.encoding@ == "utri_b64_v1"@
    &&& r.bits_b64@ == rgxf_text(g)
}

/// Minimum interval between two snapshots, in milliseconds (about 20 per second).
pub const SNAPSHOT_INTERVAL_MS: u128 = 50;

/// Whether a new snapshot is due, `since_last_ms` after the previous one.
pub fn snapshot_due(since_last_ms: u128) -> (b: bool)
    ensures
        b == (since_last_ms >= SNAPSHOT_INTERVAL_MS),
{
    since_last_ms >= SNAPSHOT_INTERVAL_MS
}

impl SearchSnapshot {
    /// The snapshot of a search at one point of its progress.
    pub fn capture(
        graph: &AdjacencyMatrix,
        n: u32,
        k: u32,
        ell: u32,
        strategy: &str,
        iteration: u64,
        max_iters: u64,
        valid: bool,
        violation_score: u32,
        elapsed_ms: u64,
    ) -> (s: SearchSnapshot)
        requires
            graph.wf(),
        ensures
            is_rgxf_of(s.graph, graph),
            s.n == n,
            s.k == k,
            s.ell == ell,
            s.strategy@ == strategy@,
            s.iteration == iteration,
            s.max_iters == max_iters,
            s.valid == valid,
            s.edges == edge_count(graph) as u32,
            s.violation_score == violation_score,
            s.elapsed_ms == elapsed_ms,
    {
        let edges = graph.num_edges() as u32;
        SearchSnapshot {
            graph: to_json(graph),
            n,
            k,
            ell,
            strategy: String::from_str(strategy),
            iteration,
            max_iters,
            valid,
            edges,
            violation_score,
            elapsed_ms,
        }
    }
}

impl PinnedGraph {
    /// The record of a graph found `found_at_ms` into the search.
    pub fn capture(
        graph: &AdjacencyMatrix,
        n: u32,
        strategy: &str,
        iteration: u64,
        is_record: bool,
        found_at_ms: u64,
    ) -> (p: PinnedGraph)
        requires
            graph.wf(),
        ensures
            is_rgxf_of(p.graph, graph),
            p.n == n,
            p.strategy@ == strategy@,
            p.iteration == iteration,
            p.is_record == is_record,
            p.found_at_ms == found_at_ms,
    {
        PinnedGraph {
            graph: to_json(graph),
            n,
            strategy: String::from_str(strategy),
            iteration,
            is_record,
            found_at_ms,
        }
    }
}

impl VizMessage {
    /// The greeting: the search component's version.
    pub fn hello() -> (m: VizMessage)
        ensures
            m matches VizMessage::Hello { version } && version@ == "0.1.0"@,
    {
        proof {
            reveal_strlit("0.1.0");
        }
        VizMessage::Hello { version: String::from_str(SEARCH_VERSION) }
    }
}

/// What happens on a visualization connection.
#[derive(Clone, Debug)]
pub enum VizEvent {
    /// The send timer fired; the latest snapshot, if any.
    Tick(Option<SearchSnapshot>),
    /// A graph was pinned.
    PinnedReady(PinnedGraph),
    /// Pinned graphs were missed because the client fell behind.
    PinnedLagged,
    /// The client closed the connection, or it ended.
    ClientClosed,
    /// Any other frame from the client.
    ClientFrame,
    /// Sending to the client failed.
    SendFailed,
}

/// What the connection does next.
#[derive(Clone, Debug)]
pub enum VizStep {
    Send(VizMessage),
    Skip,
    Stop,
}

/// The streaming decision for one event: snapshots and pinned graphs are
/// forwarded, a lag or a client frame is passed over, and the connection
/// ends when the client leaves or a send fails.
pub fn viz_step(event: VizEvent) -> (s: VizStep)
    ensures
        match event {
            VizEvent::Tick(Some(snap)) => s matches VizStep::Send(VizMessage::Snapshot(x)) && x == snap,
            VizEvent::Tick(None) => s is Skip,
            VizEvent::PinnedReady(p) => s matches VizStep::Send(VizMessage::Pinned(x)) && x == p,
            VizEvent::PinnedLagged => s is Skip,
            VizEvent::ClientClosed => s is Stop,
            VizEvent::ClientFrame => s is Skip,
            VizEvent::SendFailed => s is Stop,
        },
{
    match event {
        VizEvent::Tick(Some(snap)) => VizStep::Send(VizMessage::Snapshot(snap)),
        VizEvent::Tick(None) => VizStep::Skip,
        VizEvent::PinnedReady(p) => VizStep::Send(VizMessage::Pinned(p)),
        VizEvent::PinnedLagged => VizStep::Skip,
        VizEvent::ClientClosed => VizStep::Stop,
        VizEvent::ClientFrame => VizStep::Skip,
        VizEvent::SendFailed => VizStep::Stop,
    }
}

} // verus!
