use ramseynet::engine::{
    after_round, backoff_secs, build_config, dedup_discoveries, default_noise_flips,
    feed_local_pool, on_command, parse_init_mode, plan_round, should_fetch_seeds, status_of,
    trim_known, AdmissionThreshold, CommandPoint, EngineAction, EngineConfigPatch, InitMode,
    LocalDiscovery, SeedSource, ThresholdResponse, WorkerCommand, WorkerState,
};
use ramseynet::graph::AdjacencyMatrix;
use ramseynet::known::KnownCids;
use ramseynet::scoring::GraphScore;
use ramseynet::types::GraphCid;

fn empty_patch() -> EngineConfigPatch {
    EngineConfigPatch {
        init_mode: None,
        strategy: None,
        max_iters: None,
        sample_bias_bits: None,
        noise_flips: None,
        offline: None,
        no_backoff: None,
        server_url: None,
        strategy_config: None,
    }
}

fn disc(omega: u32, aut: f64, tag: u8) -> LocalDiscovery {
    LocalDiscovery {
        graph: AdjacencyMatrix::new(3),
        score: GraphScore::new(omega, omega, 1, 1, aut.to_bits()),
        cid: GraphCid([tag; 32]),
    }
}

fn tags(pool: &[LocalDiscovery]) -> Vec<u8> {
    pool.iter().map(|d| d.cid.0[0]).collect()
}

#[test]
fn state_machine_table() {
    let (s, a) = on_command(CommandPoint::Idle, WorkerCommand::Status);
    assert_eq!(s, WorkerState::Idle);
    assert!(matches!(a, EngineAction::Report));
    let (s, a) = on_command(CommandPoint::Idle, WorkerCommand::Pause);
    assert_eq!(s, WorkerState::Idle);
    assert!(matches!(a, EngineAction::Reject { state: WorkerState::Idle, command: WorkerCommand::Pause }));
    let (s, a) = on_command(
        CommandPoint::Idle,
        WorkerCommand::Start { k: 4, ell: 4, n: 17, config: empty_patch() },
    );
    assert_eq!(s, WorkerState::Searching);
    assert!(matches!(a, EngineAction::Start { k: 4, ell: 4, n: 17, .. }));
    let (s, a) = on_command(CommandPoint::Paused, WorkerCommand::Resume);
    assert_eq!(s, WorkerState::Searching);
    assert!(matches!(a, EngineAction::Report));
    let (s, a) = on_command(CommandPoint::Paused, WorkerCommand::Pause);
    assert_eq!(s, WorkerState::Paused);
    assert!(matches!(a, EngineAction::Reject { state: WorkerState::Paused, command: WorkerCommand::Pause }));
    let (s, a) = on_command(CommandPoint::BeforeRound, WorkerCommand::Stop);
    assert_eq!(s, WorkerState::Idle);
    assert!(matches!(a, EngineAction::Report));
    let (s, a) = on_command(CommandPoint::BeforeRound, WorkerCommand::Resume);
    assert_eq!(s, WorkerState::Searching);
    assert!(matches!(a, EngineAction::Ignore));
    let (s, a) = on_command(CommandPoint::DuringSearch, WorkerCommand::Pause);
    assert_eq!(s, WorkerState::Paused);
    assert!(matches!(a, EngineAction::Cancel));
    let (s, a) = on_command(CommandPoint::DuringBackoff, WorkerCommand::Status);
    assert_eq!(s, WorkerState::Searching);
    assert!(matches!(a, EngineAction::EndWait));
    let (s, _) = on_command(CommandPoint::DuringBackoff, WorkerCommand::Stop);
    assert_eq!(s, WorkerState::Idle);
}

#[test]
fn noise_flips_default_is_ceil_half_sqrt_of_pairs() {
    for n in 1..200u32 {
        let e = (n * (n - 1) / 2) as f64;
        let expected = (e.sqrt() / 2.0).ceil() as u32;
        assert_eq!(default_noise_flips(n), expected, "n = {n}");
    }
    assert_eq!(default_noise_flips(17), 6);
    assert_eq!(default_noise_flips(65536), (((65536u64 * 65535 / 2) as f64).sqrt() / 2.0).ceil() as u32);
}

#[test]
fn build_config_defaults_and_overrides() {
    let c = build_config(5, 5, 25, &empty_patch());
    assert_eq!(c.max_iters, 100_000);
    assert!(!c.no_backoff);
    assert!(!c.offline);
    assert_eq!(f64::from_bits(c.sample_bias_bits), 0.5);
    assert_eq!(c.leaderboard_sample_size, 100);
    assert_eq!(c.collector_capacity, 1000);
    assert_eq!(c.max_known_cids, 10_000);
    assert_eq!(c.noise_flips, 9);
    assert_eq!(c.init_mode, InitMode::PerturbedPaley);
    assert_eq!(c.strategy_config, "{}");
    assert_eq!(c.server_url, "http://localhost:3001");
    let mut p = empty_patch();
    p.init_mode = Some("leaderboard".to_string());
    p.noise_flips = Some(3);
    p.max_iters = Some(7);
    p.offline = Some(true);
    p.sample_bias_bits = Some(0.25f64.to_bits());
    p.server_url = Some("http://example:9".to_string());
    let c = build_config(4, 6, 30, &p);
    assert_eq!((c.k, c.ell, c.n), (4, 6, 30));
    assert_eq!(c.noise_flips, 3);
    assert_eq!(c.max_iters, 7);
    assert!(c.offline);
    assert_eq!(f64::from_bits(c.sample_bias_bits), 0.25);
    assert_eq!(c.init_mode, InitMode::Leaderboard);
    assert_eq!(c.server_url, "http://example:9");
}

#[test]
fn init_mode_names() {
    assert_eq!(parse_init_mode(&Some("paley".to_string())), InitMode::Paley);
    assert_eq!(parse_init_mode(&Some("random".to_string())), InitMode::Random);
    assert_eq!(parse_init_mode(&Some("leaderboard".to_string())), InitMode::Leaderboard);
    assert_eq!(parse_init_mode(&Some("Paley".to_string())), InitMode::PerturbedPaley);
    assert_eq!(parse_init_mode(&None), InitMode::PerturbedPaley);
}

#[test]
fn backoff_schedule() {
    let got: Vec<u64> = (0..8).map(backoff_secs).collect();
    assert_eq!(got, vec![1, 2, 4, 8, 16, 32, 32, 32]);
    assert_eq!(after_round(0, false, 2, false), (3, Some(8)));
    assert_eq!(after_round(0, false, 2, true), (3, None));
    assert_eq!(after_round(1, false, 2, false), (0, None));
    assert_eq!(after_round(0, true, 9, false), (0, None));
}

#[test]
fn round_plan() {
    let mut c = build_config(5, 5, 25, &empty_patch());
    let p = plan_round(&c, true, 0);
    assert!(p.online);
    assert!(!p.use_server_pool);
    assert_eq!(p.local_pool_capacity, 1000);
    assert_eq!(p.seed, SeedSource::Fresh);
    assert_eq!(plan_round(&c, true, 3).seed, SeedSource::LocalPool);
    assert!(!plan_round(&c, false, 3).online);
    c.collector_capacity = 5;
    c.init_mode = InitMode::Leaderboard;
    let p = plan_round(&c, true, 3);
    assert_eq!(p.local_pool_capacity, 100);
    assert_eq!(p.seed, SeedSource::ServerPool);
}

#[test]
fn threshold_from_response() {
    let full = ThresholdResponse {
        entry_count: 10,
        capacity: 10,
        worst_tier1_max: Some(4),
        worst_tier1_min: Some(3),
        worst_goodman_gap: Some(7),
        worst_tier2_aut_bits: Some(2.0f64.to_bits()),
        worst_tier3_cid: Some(GraphCid([9; 32]).to_hex()),
    };
    let t = AdmissionThreshold::from_response(&full);
    let entry = t.worst.unwrap();
    let worst = entry.score;
    assert_eq!(worst.tier1(), (4, 3));
    assert_eq!(entry.cid, GraphCid([9; 32]));
    let any = GraphCid([1; 32]);
    assert!(t.would_admit(&GraphScore::new(3, 3, 100, 100, 1.0f64.to_bits()), &any));
    assert!(!t.would_admit(&GraphScore::new(5, 1, 0, 0, 1.0f64.to_bits()), &any));
    // a tie is broken by the content ID, lower first
    assert!(t.would_admit(&worst, &GraphCid([8; 32])));
    assert!(!t.would_admit(&worst, &GraphCid([9; 32])));
    assert!(!t.would_admit(&worst, &GraphCid([10; 32])));
    let mut not_full = full.clone();
    not_full.entry_count = 9;
    assert!(AdmissionThreshold::from_response(&not_full).worst.is_none());
    let mut bad_cid = full.clone();
    bad_cid.worst_tier3_cid = Some("xyz".to_string());
    assert!(AdmissionThreshold::from_response(&bad_cid).worst.is_none());
    let mut missing = full.clone();
    missing.worst_goodman_gap = None;
    assert!(AdmissionThreshold::from_response(&missing).worst.is_none());
    assert!(AdmissionThreshold::open().would_admit(&worst, &GraphCid([10; 32])));
}

#[test]
fn feed_local_pool_orders_dedups_and_caps() {
    let mut pool: Vec<LocalDiscovery> = Vec::new();
    let batch = vec![disc(3, 1.0, 1), disc(2, 1.0, 2), disc(4, 1.0, 3), disc(2, 5.0, 4)];
    feed_local_pool(&batch, &mut pool, 3, false);
    // best first: (2, aut 5) then (2, aut 1) then (3); (4) dropped by capacity
    assert_eq!(tags(&pool), vec![4, 2, 1]);
    // same cid again is ignored; a dominated one is ignored
    feed_local_pool(&[disc(2, 9.0, 1), disc(5, 1.0, 7)], &mut pool, 3, false);
    assert_eq!(tags(&pool), vec![4, 2, 1]);
    // a better one evicts the worst
    feed_local_pool(&[disc(1, 1.0, 8)], &mut pool, 3, false);
    assert_eq!(tags(&pool), vec![8, 4, 2]);
    // with a server pool nothing changes
    feed_local_pool(&[disc(0, 1.0, 9)], &mut pool, 3, true);
    assert_eq!(tags(&pool), vec![8, 4, 2]);
    // ties go before the first entry that is no better
    let mut tied: Vec<LocalDiscovery> = vec![disc(2, 1.0, 1), disc(3, 1.0, 2)];
    feed_local_pool(&[disc(2, 1.0, 5)], &mut tied, 10, false);
    assert_eq!(tags(&tied), vec![5, 1, 2]);
}

#[test]
fn dedup_discoveries_filters_known_and_sorts() {
    let mut known = KnownCids::new();
    known.insert(GraphCid([3; 32]));
    let batch = vec![disc(3, 1.0, 1), disc(2, 1.0, 2), disc(1, 1.0, 3), disc(2, 1.0, 4), disc(9, 1.0, 2)];
    let kept = dedup_discoveries(&batch, &mut known);
    // cid 3 known, second cid 2 repeats; ties keep input order
    assert_eq!(tags(&kept), vec![2, 4, 1]);
    assert_eq!(known.len(), 4);
    assert!(known.contains(&GraphCid([4; 32])));
}

#[test]
fn v1_round_helpers() {
    assert!(should_fetch_seeds(1));
    assert!(!should_fetch_seeds(2));
    assert!(should_fetch_seeds(10));
    assert!(should_fetch_seeds(30));
    let mut k = KnownCids::new();
    for b in 0..9u8 {
        k.insert(GraphCid([b; 32]));
    }
    assert_eq!(trim_known(k.clone(), 5).len(), 9);
    assert_eq!(trim_known(k, 4).len(), 4);
}

#[test]
fn status_snapshot() {
    let c = build_config(4, 5, 20, &empty_patch());
    let st = status_of(WorkerState::Paused, &Some(c), 7, 3, 11, &Some("tree".to_string()));
    assert_eq!(st.state, WorkerState::Paused);
    assert_eq!((st.k, st.ell, st.n), (Some(4), Some(5), Some(20)));
    assert_eq!(st.init_mode.as_deref(), Some("PerturbedPaley"));
    assert_eq!((st.round, st.local_pool_size, st.known_cids), (7, 3, 11));
    assert_eq!(st.strategy.as_deref(), Some("tree"));
    let idle = status_of(WorkerState::Idle, &None, 0, 0, 0, &None);
    assert!(idle.k.is_none() && idle.init_mode.is_none() && idle.strategy.is_none());
}

#[test]
fn dedup_keeps_ties_in_input_order() {
    let mut known = KnownCids::new();
    let batch = vec![disc(5, 2.0, 7), disc(5, 2.0, 3), disc(4, 1.0, 9), disc(5, 2.0, 5), disc(6, 1.0, 1)];
    let kept = dedup_discoveries(&batch, &mut known);
    assert_eq!(tags(&kept), vec![9, 7, 3, 5, 1]);
}

#[test]
fn local_pool_keeps_the_best() {
    let mut pool: Vec<LocalDiscovery> = Vec::new();
    let batch: Vec<LocalDiscovery> = (0..12u8).map(|t| disc(((t * 7) % 11) as u32, 1.0, t)).collect();
    feed_local_pool(&batch, &mut pool, 4, false);
    assert_eq!(pool.len(), 4);
    let kept: Vec<u8> = tags(&pool);
    let worst_kept = pool.iter().map(|d| d.score.omega).max().unwrap();
    for d in &batch {
        if !kept.contains(&d.cid.0[0]) {
            assert!(d.score.omega >= worst_kept, "a dropped discovery ranks better than a kept one");
        }
    }
    assert!(kept.iter().all(|t| batch.iter().any(|d| d.cid.0[0] == *t)));
}
