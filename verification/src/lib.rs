//! Verified core of RamseyNet: adjacency matrices, clique search and
//! counting, graph scoring, content identifiers and the worker-side
//! bookkeeping that decides what is searched, kept and submitted.

pub mod canonical;
pub mod cid;
pub mod clique;
pub mod client;
pub mod config;
pub mod engine;
pub mod graph;
pub mod identity;
pub mod known;
pub mod leaderboard;
pub mod text;
pub mod scoring;
pub mod search;
pub mod types;
pub mod verify_types;
pub mod relay;
pub mod rgxf;
pub mod viz;
pub mod worker;
