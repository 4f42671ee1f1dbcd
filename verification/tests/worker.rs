use ramseynet::engine::state_word;
use ramseynet::engine::{
    CidsSyncResponse, CommandPoint, EngineAction, EngineConfigPatch, InitMode, LocalDiscovery,
    SubmitResponse, ThresholdResponse, WorkerCommand, WorkerState,
};
use ramseynet::graph::AdjacencyMatrix;
use ramseynet::scoring::GraphScore;
use ramseynet::types::GraphCid;
use ramseynet::worker::{choose_strategy, strategy_or_first, SubmitTally, WorkerEngine};

fn patch() -> EngineConfigPatch {
    EngineConfigPatch {
        init_mode: Some("random".to_string()),
        strategy: None,
        max_iters: Some(500),
        sample_bias_bits: None,
        noise_flips: Some(3),
        offline: Some(true),
        no_backoff: None,
        server_url: None,
        strategy_config: None,
    }
}

fn disc(omega: u32, tag: u8) -> LocalDiscovery {
    LocalDiscovery {
        graph: AdjacencyMatrix::new(3),
        score: GraphScore::new(omega, omega, 1, 1, 1.0f64.to_bits()),
        cid: GraphCid([tag; 32]),
    }
}

fn hex_of(tag: u8) -> String {
    hex::encode([tag; 32])
}

fn searching_engine() -> WorkerEngine {
    let mut e = WorkerEngine::new();
    e.start(4, 4, 17, &patch(), Some("tree".to_string()));
    e
}

#[test]
fn new_engine_is_idle_and_empty() {
    let e = WorkerEngine::new();
    assert_eq!(e.state, WorkerState::Idle);
    assert!(e.config.is_none());
    assert!(e.known.is_empty());
    assert!(e.local_pool.is_empty());
    assert_eq!((e.round, e.consecutive_failures, e.leaderboard_total), (0, 0, 0));
    let st = e.status();
    assert_eq!(st.state, WorkerState::Idle);
    assert_eq!(st.k, None);
    assert_eq!(st.init_mode, None);
}

#[test]
fn start_clears_search_state() {
    let mut e = searching_engine();
    e.known.insert(GraphCid([1; 32]));
    e.begin_round();
    e.begin_round();
    e.cid_sync_cursor = Some("2024-01-01T00:00:00Z".to_string());
    e.start(3, 5, 13, &patch(), Some("anneal".to_string()));
    assert_eq!(e.state, WorkerState::Searching);
    assert!(e.known.is_empty());
    assert_eq!(e.round, 0);
    assert!(e.cid_sync_cursor.is_none());
    assert!(e.threshold.worst.is_none());
    let cfg = e.config.as_ref().unwrap();
    assert_eq!((cfg.k, cfg.ell, cfg.n, cfg.max_iters, cfg.noise_flips), (3, 5, 13, 500, 3));
    assert_eq!(cfg.init_mode, InitMode::Random);
    assert!(cfg.offline);
    assert_eq!(e.active_strategy_id.as_deref(), Some("anneal"));
    let mut p = patch();
    p.strategy = Some("beam".to_string());
    e.start(3, 5, 13, &p, Some("anneal".to_string()));
    assert_eq!(e.active_strategy_id.as_deref(), Some("beam"));
}

#[test]
fn commands_drive_the_state() {
    let mut e = WorkerEngine::new();
    let a = e.command(CommandPoint::Idle, WorkerCommand::Pause, None);
    assert!(matches!(a, EngineAction::Reject { state: WorkerState::Idle, command: WorkerCommand::Pause }));
    assert_eq!(e.state, WorkerState::Idle);
    let a = e.command(
        CommandPoint::Idle,
        WorkerCommand::Start { k: 4, ell: 4, n: 17, config: patch() },
        Some("tree".to_string()),
    );
    assert!(matches!(a, EngineAction::Start { k: 4, ell: 4, n: 17, .. }));
    assert_eq!(e.state, WorkerState::Searching);
    assert_eq!(e.config.as_ref().unwrap().n, 17);
    assert_eq!(e.active_strategy_id.as_deref(), Some("tree"));
    e.begin_round();
    e.known.insert(GraphCid([5; 32]));
    let a = e.command(CommandPoint::DuringSearch, WorkerCommand::Pause, None);
    assert!(matches!(a, EngineAction::Cancel));
    assert_eq!(e.state, WorkerState::Paused);
    assert_eq!(e.round, 1);
    assert_eq!(e.known.len(), 1);
    let a = e.command(CommandPoint::Paused, WorkerCommand::Resume, None);
    assert!(matches!(a, EngineAction::Report));
    assert_eq!(e.state, WorkerState::Searching);
    let a = e.command(CommandPoint::DuringBackoff, WorkerCommand::Stop, None);
    assert!(matches!(a, EngineAction::EndWait));
    assert_eq!(e.state, WorkerState::Idle);
    assert_eq!(e.config.as_ref().unwrap().n, 17);
    assert_eq!(e.round, 0);
    assert!(e.known.is_empty());
}

#[test]
fn auto_start_searches_at_once() {
    let mut e = searching_engine();
    let cfg = e.config.clone().unwrap();
    let mut fresh = WorkerEngine::new();
    fresh.auto_start(cfg);
    assert_eq!(fresh.state, WorkerState::Searching);
    assert_eq!(fresh.status().n, Some(17));
    assert_eq!(fresh.status().strategy.as_deref(), Some("tree"));
    e.begin_round();
    assert_eq!(e.status().round, 1);
}

#[test]
fn threshold_and_cid_sync() {
    let mut e = searching_engine();
    e.apply_threshold(&ThresholdResponse {
        entry_count: 10,
        capacity: 10,
        worst_tier1_max: Some(5),
        worst_tier1_min: Some(5),
        worst_goodman_gap: Some(1),
        worst_tier2_aut_bits: Some(1.0f64.to_bits()),
        worst_tier3_cid: Some(hex_of(9)),
    });
    assert_eq!(e.leaderboard_total, 10);
    assert!(e.threshold.worst.is_some());
    assert!(e.worth_submitting(&disc(4, 1)));
    assert!(!e.worth_submitting(&disc(6, 1)));

    e.apply_cid_sync(&CidsSyncResponse {
        total: 2,
        cids: vec![hex_of(1), "not hex".to_string(), hex_of(2)],
        last_updated: Some("2024-05-01T10:00:00Z".to_string()),
    });
    assert_eq!(e.known.len(), 2);
    assert!(e.known.contains(&GraphCid([2; 32])));
    assert_eq!(e.cid_sync_cursor.as_deref(), Some("2024-05-01T10:00:00Z"));
    e.apply_cid_sync(&CidsSyncResponse { total: 2, cids: vec![], last_updated: None });
    assert_eq!(e.cid_sync_cursor.as_deref(), Some("2024-05-01T10:00:00Z"));
    assert_eq!(e.known.len(), 2);
}

#[test]
fn absorb_dedups_and_pools() {
    let mut e = searching_engine();
    e.known.insert(GraphCid([3; 32]));
    let batch = vec![disc(6, 1), disc(4, 2), disc(5, 3), disc(4, 2)];
    let kept = e.absorb(&batch);
    let tags: Vec<u8> = kept.iter().map(|d| d.cid.0[0]).collect();
    assert_eq!(tags, vec![2, 1]);
    assert_eq!(e.known.len(), 3);
    let pooled: Vec<u8> = e.local_pool.iter().map(|d| d.cid.0[0]).collect();
    assert_eq!(pooled, vec![2, 1]);
    assert!(e.absorb(&batch).is_empty());
}

#[test]
fn submissions_are_recorded() {
    let mut e = searching_engine();
    let admitted = e.record_submission(&SubmitResponse {
        graph_cid: hex_of(7),
        verdict: "accepted".to_string(),
        admitted: Some(true),
        rank: Some(3),
        reason: None,
        witness: None,
    });
    assert!(admitted);
    assert!(e.known.contains(&GraphCid([7; 32])));
    let admitted = e.record_submission(&SubmitResponse {
        graph_cid: hex_of(8),
        verdict: "rejected".to_string(),
        admitted: None,
        rank: None,
        reason: Some("has clique".to_string()),
        witness: Some(vec![0, 1, 2]),
    });
    assert!(!admitted);
    let mut t = SubmitTally::new();
    t.skip();
    t.sent(true);
    t.sent(false);
    assert_eq!(t, SubmitTally { submitted: 2, admitted: 1, skipped: 1 });
}

#[test]
fn rounds_back_off_after_failures() {
    let mut e = searching_engine();
    let mut p = patch();
    p.no_backoff = Some(false);
    e.start(4, 4, 17, &p, None);
    assert_eq!(e.end_round(0, false), Some(2));
    assert_eq!(e.end_round(0, false), Some(4));
    assert_eq!(e.consecutive_failures, 2);
    assert_eq!(e.end_round(0, true), None);
    assert_eq!(e.consecutive_failures, 0);
    p.no_backoff = Some(true);
    e.start(4, 4, 17, &p, None);
    assert_eq!(e.end_round(0, false), None);
    assert_eq!(e.consecutive_failures, 1);
    assert_eq!(e.end_round(3, false), None);
    assert_eq!(e.consecutive_failures, 0);
}

#[test]
fn strategy_choice() {
    let ids = vec!["tree".to_string(), "anneal".to_string()];
    assert_eq!(choose_strategy(&None, &ids), Some(0));
    assert_eq!(choose_strategy(&Some("anneal".to_string()), &ids), Some(1));
    assert_eq!(choose_strategy(&Some("beam".to_string()), &ids), None);
    assert_eq!(choose_strategy(&None, &[]), None);
}

#[test]
fn strategy_or_first_falls_back() {
    let ids = vec!["tree".to_string(), "anneal".to_string(), "anneal".to_string()];
    assert_eq!(strategy_or_first("anneal", &ids), 1);
    assert_eq!(strategy_or_first("beam", &ids), 0);
    assert_eq!(strategy_or_first("tree", &ids), 0);
}

#[test]
fn round_strategy_runs_an_available_one_or_goes_idle() {
    let mut e = WorkerEngine::new();
    let cfg = searching_engine().config.unwrap();
    e.auto_start(cfg);
    assert_eq!(e.active_strategy_id.as_deref(), Some("tree"));
    let ids = vec!["anneal".to_string(), "tree".to_string()];
    assert_eq!(e.round_strategy(&ids), Some(1));
    assert_eq!(e.state, WorkerState::Searching);
    assert_eq!(e.round_strategy(&["anneal".to_string()]), None);
    assert_eq!(e.state, WorkerState::Idle);
    let mut fresh = WorkerEngine::new();
    fresh.state = WorkerState::Searching;
    assert_eq!(fresh.round_strategy(&ids), Some(0));
}

#[test]
fn rejection_names_command_and_state() {
    let mut e = WorkerEngine::new();
    match e.command(CommandPoint::Idle, WorkerCommand::Resume, None) {
        EngineAction::Reject { state, command } => {
            assert_eq!(format!("cannot {:?} in {} state", command, state_word(state)), "cannot Resume in idle state");
        }
        _ => panic!("resume is refused when idle"),
    }
}
