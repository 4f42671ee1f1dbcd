//! Search results and progress observation.

use vstd::prelude::*;

use crate::graph::AdjacencyMatrix;

verus! {

/// Version of the search component.
pub const SEARCH_VERSION: &'static str = "0.1.0";

/// Version of the ledger component.
pub const LEDGER_VERSION: &'static str = "0.1.0";

/// Result of a search attempt.
#[derive(Clone, Debug)]
pub struct SearchResult {
    /// The best graph found (valid or not).
    pub graph: AdjacencyMatrix,
    /// Whether the graph is Ramsey-valid.
    pub valid: bool,
    /// Number of iterations performed.
    pub iterations: u64,
}

/// Observer of search progress.
pub trait SearchObserver: Send + Sync {
    /// Called with the current graph and search counters.
    fn on_progress(
        &self,
        graph: &AdjacencyMatrix,
        n: u32,
        k: u32,
        ell: u32,
        strategy: &str,
        iteration: u64,
        max_iters: u64,
        valid: bool,
        violation_score: u32,
    );
}

/// An observer that ignores all progress.
pub struct NoOpObserver;

impl SearchObserver for NoOpObserver {
    fn on_progress(
        &self,
        _graph: &AdjacencyMatrix,
        _n: u32,
        _k: u32,
        _ell: u32,
        _strategy: &str,
        _iteration: u64,
        _max_iters: u64,
        _valid: bool,
        _violation_score: u32,
    ) {
    }
}

} // verus!
