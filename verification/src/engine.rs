//! Worker engine decisions: the idle/searching/paused state machine, search
//! configuration, admission thresholds, backoff, and the local discovery pool.
//!
//! The engine's event loop (channels, timers, the search thread and HTTP
//! calls) runs outside this crate; every decision it takes is a function here.

use vstd::prelude::*;

use crate::graph::AdjacencyMatrix;
use crate::scoring::{ranks_better, ranks_equal, GraphScore};
use crate::known::KnownCids;
use crate::types::{cid_from_hex_spec, GraphCid};
use vstd::string::StringSliceAdditionalSpecFns;
use crate::text::parse_u32_spec;

verus! {

/// Current state of the worker engine.
#[derive(Clone, Copy, Debug, PartialEq, Eq, Structural)]
pub enum WorkerState {
    Idle,
    Searching,
    Paused,
}

/// How a search seeds its initial graph.
#[derive(Clone, Copy, Debug, PartialEq, Eq, Structural)]
pub enum InitMode {
    Paley,
    Random,
    Leaderboard,
    PerturbedPaley,
}

/// Partial configuration for starting a search; missing fields take defaults.
#[derive(Clone, Debug)]
pub struct EngineConfigPatch {
    pub init_mode: Option<String>,
    pub strategy: Option<String>,
    pub max_iters: Option<u64>,
    /// Bit pattern of the `f64` sample bias.
    pub sample_bias_bits: Option<u64>,
    pub noise_flips: Option<u32>,
    pub offline: Option<bool>,
    pub no_backoff: Option<bool>,
    pub server_url: Option<String>,
    /// Strategy-specific configuration as JSON text.
    pub strategy_config: Option<String>,
}

/// Configuration for the worker engine.
#[derive(Clone, Debug)]
pub struct EngineConfig {
    pub k: u32,
    pub ell: u32,
    pub n: u32,
    pub max_iters: u64,
    pub no_backoff: bool,
    pub offline: bool,
    /// Bit pattern of the `f64` sample bias.
    pub sample_bias_bits: u64,
    pub leaderboard_sample_size: u32,
    pub collector_capacity: usize,
    pub max_known_cids: usize,
    pub noise_flips: u32,
    pub init_mode: InitMode,
    /// Strategy-specific configuration as JSON text.
    pub strategy_config: String,
    pub server_url: String,
}

/// Command sent from the control UI to the worker engine.
#[derive(Clone, Debug)]
pub enum WorkerCommand {
    /// Start searching with the given parameters; only valid when idle.
    Start { k: u32, ell: u32, n: u32, config: EngineConfigPatch },
    /// Pause the current search, keeping the local pool and state.
    Pause,
    /// Resume a paused search.
    Resume,
    /// Stop the search and return to idle.
    Stop,
    /// Request the current status.
    Status,
}

/// Where the engine loop stands when a command arrives.
#[derive(Clone, Copy, Debug, PartialEq, Eq, Structural)]
pub enum CommandPoint {
    /// Idle, waiting for a command.
    Idle,
    /// Paused, waiting for a command.
    Paused,
    /// Searching, between two rounds.
    BeforeRound,
    /// Searching, while a search round runs.
    DuringSearch,
    /// Searching, while waiting out a backoff after a fruitless round.
    DuringBackoff,
}

/// What the engine does in answer to a command.
#[derive(Clone, Debug)]
pub enum EngineAction {
    /// Begin a fresh search with these parameters (all search state cleared).
    Start { k: u32, ell: u32, n: u32, config: EngineConfigPatch },
    /// Send the current status.
    Report,
    /// Answer with an error: `command` is not valid in `state`
    /// (`cannot <command> in <state> state`, see `state_word`).
    Reject { state: WorkerState, command: WorkerCommand },
    /// Cancel the running search round.
    Cancel,
    /// End the backoff wait early.
    EndWait,
    /// Nothing.
    Ignore,
}

/// The lower-case word for a state, as the engine's messages name it.
pub open spec fn state_word_spec(s: WorkerState) -> Seq<char> {
    match s {
        WorkerState::Idle => "idle"@,
        WorkerState::Searching => "searching"@,
        WorkerState::Paused => "paused"@,
    }
}

/// The lower-case word for a state, as the engine's messages name it
/// (`cannot Pause in idle state`).
pub fn state_word(s: WorkerState) -> (w: &'static str)
    ensures
        w@ == state_word_spec(s),
{
    match s {
        WorkerState::Idle => "idle",
        WorkerState::Searching => "searching",
        WorkerState::Paused => "paused",
    }
}

/// The state each kind of command leads to from each point of the loop.
pub open spec fn next_state(point: CommandPoint, cmd: WorkerCommand) -> WorkerState {
    match point {
        CommandPoint::Idle => match cmd {
            WorkerCommand::Start { .. } => WorkerState::Searching,
            _ => WorkerState::Idle,
        },
        CommandPoint::Paused => match cmd {
            WorkerCommand::Resume => WorkerState::Searching,
            WorkerCommand::Stop => WorkerState::Idle,
            _ => WorkerState::Paused,
        },
        _ => match cmd {
            WorkerCommand::Pause => WorkerState::Paused,
            WorkerCommand::Stop => WorkerState::Idle,
            _ => WorkerState::Searching,
        },
    }
}

/// The state a point of the loop belongs to.
pub open spec fn point_state(point: CommandPoint) -> WorkerState {
    match point {
        CommandPoint::Idle => WorkerState::Idle,
        CommandPoint::Paused => WorkerState::Paused,
        _ => WorkerState::Searching,
    }
}

/// The action each kind of command triggers at each point of the loop.
pub open spec fn action_spec(point: CommandPoint, cmd: WorkerCommand, a: EngineAction) -> bool {
    match point {
        CommandPoint::Idle => match cmd {
            WorkerCommand::Start { k, ell, n, config } => a == EngineAction::Start { k, ell, n, config },
            WorkerCommand::Status => a is Report,
            _ => a == EngineAction::Reject { state: WorkerState::Idle, command: cmd },
        },
        CommandPoint::Paused => match cmd {
            WorkerCommand::Resume | WorkerCommand::Stop | WorkerCommand::Status => a is Report,
            _ => a == EngineAction::Reject { state: WorkerState::Paused, command: cmd },
        },
        CommandPoint::BeforeRound => match cmd {
            WorkerCommand::Pause | WorkerCommand::Stop | WorkerCommand::Status => a is Report,
            _ => a is Ignore,
        },
        CommandPoint::DuringSearch => match cmd {
            WorkerCommand::Pause | WorkerCommand::Stop => a is Cancel,
            WorkerCommand::Status => a is Report,
            _ => a is Ignore,
        },
        CommandPoint::DuringBackoff => a is EndWait,
    }
}

/// Decides the engine's next state and action for a command.
pub fn on_command(point: CommandPoint, cmd: WorkerCommand) -> (r: (WorkerState, EngineAction))
    ensures
        r.0 == next_state(point, cmd),
        action_spec(point, cmd, r.1),
        point == CommandPoint::DuringSearch ==> (r.1 is Cancel <==> r.0 != WorkerState::Searching),
        r.1 is Cancel ==> point == CommandPoint::DuringSearch,
        r.1 matches EngineAction::Reject { state, command } ==> state == point_state(point)
            && r.0 == state && command == cmd,
{
    match point {
        CommandPoint::Idle => match cmd {
            WorkerCommand::Start { k, ell, n, config } => (
                WorkerState::Searching,
                EngineAction::Start { k, ell, n, config },
            ),
            WorkerCommand::Status => (WorkerState::Idle, EngineAction::Report),
            _ => (WorkerState::Idle, EngineAction::Reject { state: WorkerState::Idle, command: cmd }),
        },
        CommandPoint::Paused => match cmd {
            WorkerCommand::Resume => (WorkerState::Searching, EngineAction::Report),
            WorkerCommand::Stop => (WorkerState::Idle, EngineAction::Report),
            WorkerCommand::Status => (WorkerState::Paused, EngineAction::Report),
            _ => (WorkerState::Paused, EngineAction::Reject { state: WorkerState::Paused, command: cmd }),
        },
        CommandPoint::BeforeRound => match cmd {
            WorkerCommand::Pause => (WorkerState::Paused, EngineAction::Report),
            WorkerCommand::Stop => (WorkerState::Idle, EngineAction::Report),
            WorkerCommand::Status => (WorkerState::Searching, EngineAction::Report),
            _ => (WorkerState::Searching, EngineAction::Ignore),
        },
        CommandPoint::DuringSearch => match cmd {
            WorkerCommand::Pause => (WorkerState::Paused, EngineAction::Cancel),
            WorkerCommand::Stop => (WorkerState::Idle, EngineAction::Cancel),
            WorkerCommand::Status => (WorkerState::Searching, EngineAction::Report),
            _ => (WorkerState::Searching, EngineAction::Ignore),
        },
        CommandPoint::DuringBackoff => match cmd {
            WorkerCommand::Pause => (WorkerState::Paused, EngineAction::EndWait),
            WorkerCommand::Stop => (WorkerState::Idle, EngineAction::EndWait),
            _ => (WorkerState::Searching, EngineAction::EndWait),
        },
    }
}

/// A status request never changes the engine's state.
pub proof fn lemma_status_keeps_state(point: CommandPoint)
    ensures
        next_state(point, WorkerCommand::Status) == point_state(point),
{
}

/// A search starts only from the idle state, and only on a `Start` command.
pub proof fn lemma_start_only_from_idle(point: CommandPoint, cmd: WorkerCommand)
    requires
        point_state(point) != WorkerState::Searching,
        next_state(point, cmd) == WorkerState::Searching,
    ensures
        (point == CommandPoint::Idle && cmd is Start) || (point == CommandPoint::Paused && cmd is Resume),
{
}

/// `Stop` always leads to the idle state.
pub proof fn lemma_stop_goes_idle(point: CommandPoint)
    ensures
        next_state(point, WorkerCommand::Stop) == WorkerState::Idle,
{
}

/// A command that ends the search while a round runs (the state after it
/// is not searching) cancels the round, and only such a command does.
pub proof fn lemma_leaving_search_cancels(cmd: WorkerCommand, a: EngineAction)
    requires
        action_spec(CommandPoint::DuringSearch, cmd, a),
    ensures
        a is Cancel <==> next_state(CommandPoint::DuringSearch, cmd) != WorkerState::Searching,
        cmd is Stop ==> a is Cancel && next_state(CommandPoint::DuringSearch, cmd) == WorkerState::Idle,
        cmd is Pause ==> a is Cancel && next_state(CommandPoint::DuringSearch, cmd) == WorkerState::Paused,
{
}

/// A refused command leaves the state as it was and the refusal names it.
pub proof fn lemma_refusal_keeps_state(point: CommandPoint, cmd: WorkerCommand, a: EngineAction)
    requires
        action_spec(point, cmd, a),
        a is Reject,
    ensures
        next_state(point, cmd) == point_state(point),
        a->command == cmd,
        a->state == point_state(point),
{
}

/// `Pause` during a search pauses it; `Resume` after a pause resumes it.
pub proof fn lemma_pause_resume(point: CommandPoint)
    requires
        point_state(point) == WorkerState::Searching,
    ensures
        next_state(point, WorkerCommand::Pause) == WorkerState::Paused,
        next_state(CommandPoint::Paused, WorkerCommand::Resume) == WorkerState::Searching,
{
}

/// `x` is `ceil(sqrt(e) / 2)`: the least `x` with `(2x)^2 >= e`.
pub open spec fn is_ceil_half_sqrt(x: nat, e: nat) -> bool {
    &&& 4 * x * x >= e
    &&& x == 0 || 4 * (x - 1) * (x - 1) < e
}

/// Number of vertex pairs of an `n`-vertex graph, as the engine computes it.
pub open spec fn pair_count(n: nat) -> nat {
    (n * (n - 1) / 2) as nat
}

/// The default number of noise flips for `n` vertices: `ceil(sqrt(E) / 2)`
/// with `E = n(n-1)/2`.
pub fn default_noise_flips(n: u32) -> (x: u32)
    requires
        1 <= n,
        n * (n - 1) <= u32::MAX,
    ensures
        is_ceil_half_sqrt(x as nat, pair_count(n as nat)),
{
    let num_edges: u32 = n * (n - 1) / 2;
    let e = num_edges as u64;
    let mut x: u64 = 0;
    let mut sq: u64 = 0;
    while sq < e
        invariant
            e == pair_count(n as nat),
            e <= u32::MAX,
            x <= 0x8000,
            sq == 4 * x * x,
            x == 0 || 4 * (x - 1) * (x - 1) < e,
        decreases 0x8001 - x,
    {
        assert(x < 0x8000) by (nonlinear_arith)
            requires
                4 * x * x < e,
                e <= u32::MAX,
        ;
        assert(4 * (x + 1) * (x + 1) == sq + 8 * x + 4) by (nonlinear_arith)
            requires
                sq == 4 * x * x,
        ;
        sq = sq + 8 * x + 4;
        x = x + 1;
    }
    x as u32
}

/// The init mode named by `name`: `paley`, `random`, `leaderboard`, and
/// perturbed Paley for anything else or nothing.
pub open spec fn init_mode_named(name: Option<String>) -> InitMode {
    match name {
        Some(s) => if s@ == "paley"@ {
            InitMode::Paley
        } else if s@ == "random"@ {
            InitMode::Random
        } else if s@ == "leaderboard"@ {
            InitMode::Leaderboard
        } else {
            InitMode::PerturbedPaley
        },
        None => InitMode::PerturbedPaley,
    }
}

/// Reads an init mode name.
pub fn parse_init_mode(name: &Option<String>) -> (m: InitMode)
    ensures
        m == init_mode_named(*name),
{
    match name {
        Some(s) => {
            if *s == String::from_str("paley") {
                InitMode::Paley
            } else if *s == String::from_str("random") {
                InitMode::Random
            } else if *s == String::from_str("leaderboard") {
                InitMode::Leaderboard
            } else {
                InitMode::PerturbedPaley
            }
        },
        None => InitMode::PerturbedPaley,
    }
}

/// Bit pattern of the `f64` value `0.5`, the default sample bias.
pub const DEFAULT_SAMPLE_BIAS_BITS: u64 = 0x3FE0_0000_0000_0000;

/// Default maximum iterations per search round.
pub const DEFAULT_MAX_ITERS: u64 = 100_000;

/// The value of an optional field, or its default.
pub open spec fn or_default<T>(o: Option<T>, d: T) -> T {
    match o {
        Some(v) => v,
        None => d,
    }
}

/// `c` is the configuration a `Start` command with these parameters yields:
/// the patch's values where it has them, the defaults elsewhere.
pub open spec fn config_from_patch(k: u32, ell: u32, n: u32, patch: EngineConfigPatch, c: EngineConfig) -> bool {
    &&& c.k == k
    &&& c.ell == ell
    &&& c.n == n
    &&& c.max_iters == or_default(patch.max_iters, DEFAULT_MAX_ITERS)
    &&& c.no_backoff == or_default(patch.no_backoff, false)
    &&& c.offline == or_default(patch.offline, false)
    &&& c.sample_bias_bits == or_default(patch.sample_bias_bits, DEFAULT_SAMPLE_BIAS_BITS)
    &&& c.leaderboard_sample_size == 100
    &&& c.collector_capacity == 1000
    &&& c.max_known_cids == 10_000
    &&& (patch.noise_flips is Some ==> c.noise_flips == patch.noise_flips->0)
    &&& (patch.noise_flips is None ==> is_ceil_half_sqrt(c.noise_flips as nat, pair_count(n as nat)))
    &&& c.init_mode == init_mode_named(patch.init_mode)
    &&& c.strategy_config@ == match patch.strategy_config {
        Some(s) => s@,
        None => "{}"@,
    }
    &&& c.server_url@ == match patch.server_url {
        Some(s) => s@,
        None => "http://localhost:3001"@,
    }
}

/// Builds the engine configuration for a `Start` command, filling in defaults.
pub fn build_config(k: u32, ell: u32, n: u32, patch: &EngineConfigPatch) -> (c: EngineConfig)
    requires
        1 <= n,
        n * (n - 1) <= u32::MAX,
    ensures
        config_from_patch(k, ell, n, *patch, c),
{
    let default_flips = default_noise_flips(n);
    let noise_flips = match patch.noise_flips {
        Some(f) => f,
        None => default_flips,
    };
    let init_mode = parse_init_mode(&patch.init_mode);
    let strategy_config = match &patch.strategy_config {
        Some(s) => s.clone(),
        None => String::from_str("{}"),
    };
    let server_url = match &patch.server_url {
        Some(s) => s.clone(),
        None => String::from_str("http://localhost:3001"),
    };
    EngineConfig {
        k,
        ell,
        n,
        max_iters: match patch.max_iters {
            Some(v) => v,
            None => DEFAULT_MAX_ITERS,
        },
        no_backoff: match patch.no_backoff {
            Some(v) => v,
            None => false,
        },
        offline: match patch.offline {
            Some(v) => v,
            None => false,
        },
        sample_bias_bits: match patch.sample_bias_bits {
            Some(v) => v,
            None => DEFAULT_SAMPLE_BIAS_BITS,
        },
        leaderboard_sample_size: 100,
        collector_capacity: 1000,
        max_known_cids: 10_000,
        noise_flips,
        init_mode,
        strategy_config,
        server_url,
    }
}

/// Seconds to wait after `failures` consecutive fruitless rounds:
/// `min(2^min(failures, 5), 60)`.
pub open spec fn backoff_spec(failures: nat) -> nat {
    let p = vstd::arithmetic::power2::pow2(if failures < 5 {
        failures
    } else {
        5
    });
    if p < 60 {
        p
    } else {
        60
    }
}

/// Seconds to wait after `failures` consecutive fruitless rounds.
pub fn backoff_secs(failures: u32) -> (s: u64)
    ensures
        s == backoff_spec(failures as nat),
{
    let e: u32 = if failures < 5 {
        failures
    } else {
        5
    };
    let mut p: u64 = 1;
    let mut i: u32 = 0;
    proof {
        vstd::arithmetic::power2::lemma2_to64();
    }
    while i < e
        invariant
            e <= 5,
            i <= e,
            p == vstd::arithmetic::power2::pow2(i as nat),
            p <= 32,
        decreases e - i,
    {
        proof {
            vstd::arithmetic::power2::lemma_pow2_unfold((i + 1) as nat);
            vstd::arithmetic::power2::lemma2_to64();
            assert(p <= 16) by {
                if i == 0 {
                } else if i == 1 {
                } else if i == 2 {
                } else if i == 3 {
                } else {
                    assert(i == 4);
                }
            }
        }
        p = p * 2;
        i = i + 1;
    }
    if p < 60 {
        p
    } else {
        60
    }
}

/// The consecutive-failure count after a round, and the wait before the
/// next one: a round that found nothing new and no valid graph counts as a
/// failure and, unless backoff is disabled, is followed by a wait.
pub fn after_round(
    discoveries: usize,
    found_valid: bool,
    failures: u32,
    no_backoff: bool,
) -> (r: (u32, Option<u64>))
    requires
        failures < u32::MAX,
    ensures
        discoveries == 0 && !found_valid ==> r.0 == failures + 1 && r.1 == if no_backoff {
            None::<u64>
        } else {
            Some(backoff_spec((failures + 1) as nat) as u64)
        },
        !(discoveries == 0 && !found_valid) ==> r.0 == 0 && r.1 is None,
{
    if discoveries == 0 && !found_valid {
        let f = failures + 1;
        if no_backoff {
            (f, None)
        } else {
            (f, Some(backoff_secs(f)))
        }
    } else {
        (0, None)
    }
}

/// Where the seed graph of a round comes from.
#[derive(Clone, Copy, Debug, PartialEq, Eq, Structural)]
pub enum SeedSource {
    /// Sampled from the leaderboard graphs fetched from the server.
    ServerPool,
    /// Sampled from the worker's own pool of discoveries.
    LocalPool,
    /// Constructed afresh according to the init mode.
    Fresh,
}

/// The per-round settings the engine derives from its configuration.
#[derive(Clone, Copy, Debug)]
pub struct RoundPlan {
    /// Whether the round talks to the server.
    pub online: bool,
    /// Whether seeds come from the server's leaderboard (and the local pool is unused).
    pub use_server_pool: bool,
    /// Capacity of the local discovery pool.
    pub local_pool_capacity: usize,
    /// Where the seed graph comes from.
    pub seed: SeedSource,
}

/// Derives a round's settings.
pub fn plan_round(cfg: &EngineConfig, has_client: bool, local_pool_len: usize) -> (p: RoundPlan)
    ensures
        p.online == (!cfg.offline && has_client),
        p.use_server_pool == (cfg.init_mode == InitMode::Leaderboard),
        p.local_pool_capacity == if cfg.collector_capacity >= 100 {
            cfg.collector_capacity
        } else {
            100
        },
        p.seed == if p.use_server_pool {
            SeedSource::ServerPool
        } else if local_pool_len > 0 {
            SeedSource::LocalPool
        } else {
            SeedSource::Fresh
        },
{
    let use_server_pool = match cfg.init_mode {
        InitMode::Leaderboard => true,
        _ => false,
    };
    let seed = if use_server_pool {
        SeedSource::ServerPool
    } else if local_pool_len > 0 {
        SeedSource::LocalPool
    } else {
        SeedSource::Fresh
    };
    RoundPlan {
        online: !cfg.offline && has_client,
        use_server_pool,
        local_pool_capacity: if cfg.collector_capacity >= 100 {
            cfg.collector_capacity
        } else {
            100
        },
        seed,
    }
}

/// A scored discovery in the worker's local pool.
#[derive(Debug)]
pub struct LocalDiscovery {
    /// The graph, in canonical form.
    pub graph: AdjacencyMatrix,
    pub score: GraphScore,
    /// Content ID of the canonical graph.
    pub cid: GraphCid,
}

/// The mathematical content of a discovery.
pub struct DiscoveryView {
    pub graph: Seq<Seq<bool>>,
    pub score: GraphScore,
    pub cid: Seq<u8>,
}

impl View for LocalDiscovery {
    type V = DiscoveryView;

    open spec fn view(&self) -> DiscoveryView {
        DiscoveryView { graph: self.graph@, score: self.score, cid: self.cid.0@ }
    }
}

/// The views of a list of discoveries.
pub open spec fn views(s: Seq<LocalDiscovery>) -> Seq<DiscoveryView> {
    s.map_values(|d: LocalDiscovery| d@)
}

/// No entry ranks better than an earlier one.
pub open spec fn pool_sorted(p: Seq<DiscoveryView>) -> bool {
    forall|i: int, j: int| 0 <= i < j < p.len() ==> !(#[trigger] p[j].score).better_than(#[trigger] p[i].score)
}

/// No two entries share a content ID.
pub open spec fn cids_distinct(p: Seq<DiscoveryView>) -> bool {
    forall|i: int, j: int| 0 <= i < p.len() && 0 <= j < p.len() && i != j ==> #[trigger] p[i].cid != #[trigger] p[j].cid
}

/// Some entry has content ID `cid`.
pub open spec fn pool_has_cid(p: Seq<DiscoveryView>, cid: Seq<u8>) -> bool {
    exists|i: int| 0 <= i < p.len() && #[trigger] p[i].cid == cid
}

/// The first index at or after `i` whose score does not rank better than `s`.
pub open spec fn lower_bound_from(p: Seq<DiscoveryView>, s: GraphScore, i: int) -> int
    decreases p.len() - i,
{
    if i >= p.len() || i < 0 {
        p.len() as int
    } else if !p[i].score.better_than(s) {
        i
    } else {
        lower_bound_from(p, s, i + 1)
    }
}

/// Where a discovery with score `s` goes in a sorted pool: before the first
/// entry that does not rank better.
pub open spec fn lower_bound(p: Seq<DiscoveryView>, s: GraphScore) -> int {
    lower_bound_from(p, s, 0)
}

/// The pool is full and `d` ranks no better than its worst entry.
pub open spec fn dominated(p: Seq<DiscoveryView>, d: DiscoveryView, cap: nat) -> bool {
    p.len() >= cap && p.len() > 0 && !d.score.better_than(p.last().score)
}

/// The pool after offering it one discovery.
pub open spec fn feed_one(p: Seq<DiscoveryView>, d: DiscoveryView, cap: nat) -> Seq<DiscoveryView> {
    if dominated(p, d, cap) || pool_has_cid(p, d.cid) {
        p
    } else {
        let q = p.insert(lower_bound(p, d.score), d);
        if q.len() > cap {
            q.drop_last()
        } else {
            q
        }
    }
}

/// The pool after offering it each discovery of `ds` in turn.
pub open spec fn feed_all(p: Seq<DiscoveryView>, ds: Seq<DiscoveryView>, cap: nat) -> Seq<DiscoveryView>
    decreases ds.len(),
{
    if ds.len() == 0 {
        p
    } else {
        feed_one(feed_all(p, ds.drop_last(), cap), ds.last(), cap)
    }
}

/// "Ranks no better than" is transitive.
pub proof fn lemma_no_better_transitive(a: GraphScore, b: GraphScore, c: GraphScore)
    requires
        !a.better_than(b),
        !b.better_than(c),
    ensures
        !a.better_than(c),
{
}

/// "Ranks better than" is irreflexive and asymmetric.
pub proof fn lemma_better_asymmetric(a: GraphScore, b: GraphScore)
    ensures
        !a.better_than(a),
        a.better_than(b) ==> !b.better_than(a),
{
}

proof fn lemma_lower_bound_props(p: Seq<DiscoveryView>, s: GraphScore, i: int)
    requires
        0 <= i <= p.len(),
        forall|j: int| 0 <= j < i ==> (#[trigger] p[j]).score.better_than(s),
    ensures
        0 <= lower_bound_from(p, s, i) <= p.len(),
        forall|j: int| 0 <= j < lower_bound_from(p, s, i) ==> (#[trigger] p[j]).score.better_than(s),
        lower_bound_from(p, s, i) < p.len() ==> !p[lower_bound_from(p, s, i)].score.better_than(s),
    decreases p.len() - i,
{
    if i < p.len() && p[i].score.better_than(s) {
        lemma_lower_bound_props(p, s, i + 1);
    }
}

/// Offering a discovery keeps a pool sorted and free of repeated content
/// IDs, and never grows it past its capacity (or its old size, if larger).
pub proof fn lemma_feed_one_keeps_pool(p: Seq<DiscoveryView>, d: DiscoveryView, cap: nat)
    requires
        pool_sorted(p),
        cids_distinct(p),
    ensures
        pool_sorted(feed_one(p, d, cap)),
        cids_distinct(feed_one(p, d, cap)),
        feed_one(p, d, cap).len() <= if p.len() > cap {
            p.len()
        } else {
            cap
        },
{
    if !(dominated(p, d, cap) || pool_has_cid(p, d.cid)) {
        let pos = lower_bound(p, d.score);
        lemma_lower_bound_props(p, d.score, 0);
        let q = p.insert(pos, d);
        assert forall|i: int, j: int| 0 <= i < j < q.len() implies !(#[trigger] q[j]).score.better_than(
            #[trigger] q[i].score,
        ) by {
            if j == pos {
                assert(q[i] == p[i]);
                lemma_better_asymmetric(p[i].score, d.score);
            } else if i == pos {
                assert(q[j] == p[j - 1]);
                assert(!p[pos].score.better_than(d.score));
                if j - 1 > pos {
                    assert(!p[j - 1].score.better_than(p[pos].score));
                    lemma_no_better_transitive(p[j - 1].score, p[pos].score, d.score);
                }
            } else {
                let pi = if i < pos { i } else { i - 1 };
                let pj = if j < pos { j } else { j - 1 };
                assert(q[i] == p[pi]);
                assert(q[j] == p[pj]);
            }
        }
        assert forall|i: int, j: int| 0 <= i < q.len() && 0 <= j < q.len() && i != j implies #[trigger] q[i].cid
            != #[trigger] q[j].cid by {
            if i == pos {
                assert(q[j] == p[if j < pos { j } else { j - 1 }]);
            } else if j == pos {
                assert(q[i] == p[if i < pos { i } else { i - 1 }]);
            } else {
                assert(q[i] == p[if i < pos { i } else { i - 1 }]);
                assert(q[j] == p[if j < pos { j } else { j - 1 }]);
            }
        }
        if q.len() > cap {
            let r = q.drop_last();
            assert forall|i: int, j: int| 0 <= i < j < r.len() implies !(#[trigger] r[j]).score.better_than(
                #[trigger] r[i].score,
            ) by {
                assert(r[i] == q[i] && r[j] == q[j]);
            }
            assert forall|i: int, j: int| 0 <= i < r.len() && 0 <= j < r.len() && i != j implies #[trigger] r[i].cid
                != #[trigger] r[j].cid by {
                assert(r[i] == q[i] && r[j] == q[j]);
            }
        }
    }
}

/// Feeding any sequence of discoveries keeps a pool sorted, free of
/// repeated content IDs, and within its capacity (or its old size, if larger).
pub proof fn lemma_feed_all_keeps_pool(p: Seq<DiscoveryView>, ds: Seq<DiscoveryView>, cap: nat)
    requires
        pool_sorted(p),
        cids_distinct(p),
    ensures
        pool_sorted(feed_all(p, ds, cap)),
        cids_distinct(feed_all(p, ds, cap)),
        feed_all(p, ds, cap).len() <= if p.len() > cap {
            p.len()
        } else {
            cap
        },
    decreases ds.len(),
{
    if ds.len() > 0 {
        lemma_feed_all_keeps_pool(p, ds.drop_last(), cap);
        lemma_feed_one_keeps_pool(feed_all(p, ds.drop_last(), cap), ds.last(), cap);
    }
}

/// Discoveries with the same content ID have the same score (the content ID
/// names the graph, and the score is a function of the graph).
pub open spec fn cid_consistent(s: Seq<DiscoveryView>) -> bool {
    forall|i: int, j: int|
        0 <= i < s.len() && 0 <= j < s.len() && #[trigger] s[i].cid == #[trigger] s[j].cid ==> s[i].score
            == s[j].score
}

/// Every entry of `q` is one of `src`.
pub open spec fn kept_from(q: Seq<DiscoveryView>, src: Seq<DiscoveryView>) -> bool {
    forall|i: int| 0 <= i < q.len() ==> src.contains(#[trigger] q[i])
}

/// No entry of `src` whose content ID is missing from `q` ranks better than
/// an entry of `q`.
pub open spec fn dropped_no_better(q: Seq<DiscoveryView>, src: Seq<DiscoveryView>) -> bool {
    forall|i: int, j: int|
        0 <= i < src.len() && 0 <= j < q.len() && !pool_has_cid(q, #[trigger] src[i].cid)
            ==> !src[i].score.better_than(#[trigger] q[j].score)
}

/// Once anything of `src` has been dropped, the pool is full.
spec fn full_if_dropped(q: Seq<DiscoveryView>, src: Seq<DiscoveryView>, cap: nat) -> bool {
    (exists|i: int| 0 <= i < src.len() && !pool_has_cid(q, #[trigger] src[i].cid)) ==> q.len() == cap
}

/// The pool invariant that the local-pool law carries from step to step.
spec fn pool_keeps_best(q: Seq<DiscoveryView>, src: Seq<DiscoveryView>, cap: nat) -> bool {
    &&& pool_sorted(q)
    &&& cids_distinct(q)
    &&& q.len() <= cap
    &&& kept_from(q, src)
    &&& dropped_no_better(q, src)
    &&& full_if_dropped(q, src, cap)
}

proof fn lemma_feed_one_keeps_best(q: Seq<DiscoveryView>, src: Seq<DiscoveryView>, d: DiscoveryView, cap: nat)
    requires
        cap >= 1,
        pool_keeps_best(q, src, cap),
        cid_consistent(src.push(d)),
    ensures
        pool_keeps_best(feed_one(q, d, cap), src.push(d), cap),
{
    let s2 = src.push(d);
    let r = feed_one(q, d, cap);
    lemma_feed_one_keeps_pool(q, d, cap);
    assert(r.len() <= cap);
    // every entry of q is in src, so has a partner index there
    assert forall|i: int| 0 <= i < q.len() implies s2.contains(#[trigger] q[i]) by {
        let k = choose|k: int| 0 <= k < src.len() && src[k] == q[i];
        assert(s2[k] == q[i]);
    }
    assert(s2[src.len() as int] == d);
    if dominated(q, d, cap) || pool_has_cid(q, d.cid) {
        assert(r == q);
        assert forall|i: int, j: int|
            0 <= i < s2.len() && 0 <= j < r.len() && !pool_has_cid(r, #[trigger] s2[i].cid) implies !s2[i].score.better_than(
            #[trigger] r[j].score,
        ) by {
            if i < src.len() {
                assert(s2[i] == src[i]);
            } else {
                assert(s2[i] == d);
                assert(dominated(q, d, cap));
                let last = q.len() - 1;
                if j < last {
                    assert(!q[last].score.better_than(q[j].score));
                }
                lemma_no_better_transitive(d.score, q[last].score, q[j].score);
            }
        }
        assert(full_if_dropped(r, s2, cap)) by {
            if exists|i: int| 0 <= i < s2.len() && !pool_has_cid(r, #[trigger] s2[i].cid) {
                let i = choose|i: int| 0 <= i < s2.len() && !pool_has_cid(r, #[trigger] s2[i].cid);
                if i < src.len() {
                    assert(s2[i] == src[i]);
                } else {
                    assert(dominated(q, d, cap));
                }
            }
        }
    } else {
        let pos = lower_bound(q, d.score);
        lemma_lower_bound_props(q, d.score, 0);
        let q1 = q.insert(pos, d);
        assert(q1[pos] == d);
        assert forall|i: int| 0 <= i < q.len() implies pool_has_cid(q1, #[trigger] q[i].cid) by {
            let k = if i < pos { i } else { i + 1 };
            assert(q1[k] == q[i]);
        }
        assert(pool_has_cid(q1, d.cid));
        if q1.len() > cap {
            // the pool was full, and d ranks better than its worst entry
            assert(q.len() == cap);
            let last = q.len() - 1;
            assert(d.score.better_than(q[last].score));
            lemma_better_asymmetric(d.score, q[last].score);
            assert(pos <= last);
            assert(q1[q1.len() - 1] == q[last]);
            let e = q[last];
            assert(r == q1.drop_last());
            assert forall|i: int| 0 <= i < r.len() implies s2.contains(#[trigger] r[i]) by {
                if i == pos {
                } else if i < pos {
                    assert(r[i] == q[i]);
                } else {
                    assert(r[i] == q[i - 1]);
                }
            }
            // content IDs present in q, other than e's, stay present
            assert forall|i: int| 0 <= i < q.len() && q[i].cid != e.cid implies pool_has_cid(r, #[trigger] q[i].cid) by {
                let k = if i < pos { i } else { i + 1 };
                assert(q1[k] == q[i]);
                if k == q1.len() - 1 {
                    assert(i == last);
                }
                assert(r[k] == q[i]);
            }
            assert(pool_has_cid(r, d.cid)) by {
                assert(r[pos] == d);
            }
            assert forall|i: int, j: int|
                0 <= i < s2.len() && 0 <= j < r.len() && !pool_has_cid(r, #[trigger] s2[i].cid) implies !s2[i].score.better_than(
                #[trigger] r[j].score,
            ) by {
                let x = s2[i];
                let y = r[j];
                assert(i < src.len());
                assert(x == src[i]);
                // r[j] is d or an entry of q other than the last
                let from_q = j != pos;
                let qj = if j < pos { j } else { j - 1 };
                if from_q {
                    assert(y == q[qj]);
                    assert(qj < last);
                }
                if pool_has_cid(q, x.cid) {
                    // x's content ID was e's: x ties e, which ranks no better than what remains
                    let k = choose|k: int| 0 <= k < q.len() && #[trigger] q[k].cid == x.cid;
                    if q[k].cid != e.cid {
                        assert(pool_has_cid(r, q[k].cid));
                    }
                    assert(x.cid == e.cid);
                    let ke = choose|ke: int| 0 <= ke < src.len() && src[ke] == e;
                    assert(s2[ke] == e);
                    assert(s2[i].cid == s2[ke].cid);
                    assert(x.score == e.score);
                    if from_q {
                        assert(!q[last].score.better_than(q[qj].score));
                    } else {
                        assert(y == d);
                    }
                } else {
                    // x was dropped before: it ranks no better than e, and d ranks better than e
                    assert(!x.score.better_than(q[last].score));
                    if !from_q {
                        assert(y == d);
                        if x.score.better_than(d.score) {
                            crate::scoring::lemma_better_transitive(x.score, d.score, q[last].score);
                        }
                    }
                }
            }
            assert(full_if_dropped(r, s2, cap));
        } else {
            assert(r == q1);
            assert(q.len() < cap);
            assert forall|i: int| 0 <= i < r.len() implies s2.contains(#[trigger] r[i]) by {
                if i == pos {
                } else if i < pos {
                    assert(r[i] == q[i]);
                } else {
                    assert(r[i] == q[i - 1]);
                }
            }
            // nothing was dropped before (the pool was not full), and nothing is now
            assert forall|i: int| 0 <= i < s2.len() implies pool_has_cid(r, #[trigger] s2[i].cid) by {
                if i < src.len() {
                    assert(s2[i] == src[i]);
                    if !pool_has_cid(q, src[i].cid) {
                        assert(full_if_dropped(q, src, cap));
                    }
                    let k = choose|k: int| 0 <= k < q.len() && #[trigger] q[k].cid == src[i].cid;
                }
            }
        }
    }
}

/// The local pool keeps the best: after feeding a pool (sorted, without
/// repeated content IDs, within a capacity of at least one) any discoveries
/// whose content IDs determine their scores, every kept entry comes from the
/// old pool or the discoveries, and no old entry or discovery whose content ID
/// is no longer in the pool ranks better than a kept entry.
pub proof fn lemma_feed_all_keeps_best(p: Seq<DiscoveryView>, ds: Seq<DiscoveryView>, cap: nat)
    requires
        cap >= 1,
        pool_sorted(p),
        cids_distinct(p),
        p.len() <= cap,
        cid_consistent(p + ds),
    ensures
        kept_from(feed_all(p, ds, cap), p + ds),
        dropped_no_better(feed_all(p, ds, cap), p + ds),
        feed_all(p, ds, cap).len() <= cap,
    decreases ds.len(),
{
    lemma_feed_all_keeps_best_inv(p, ds, cap);
}

proof fn lemma_feed_all_keeps_best_inv(p: Seq<DiscoveryView>, ds: Seq<DiscoveryView>, cap: nat)
    requires
        cap >= 1,
        pool_sorted(p),
        cids_distinct(p),
        p.len() <= cap,
        cid_consistent(p + ds),
    ensures
        pool_keeps_best(feed_all(p, ds, cap), p + ds, cap),
    decreases ds.len(),
{
    if ds.len() == 0 {
        assert(p + ds =~= p);
        assert forall|i: int| 0 <= i < p.len() implies (p + ds).contains(#[trigger] p[i]) by {
            assert((p + ds)[i] == p[i]);
        }
        assert forall|i: int| 0 <= i < (p + ds).len() implies pool_has_cid(p, #[trigger] (p + ds)[i].cid) by {
            assert((p + ds)[i] == p[i]);
        }
    } else {
        let front = ds.drop_last();
        assert((p + front).push(ds.last()) =~= p + ds);
        assert(cid_consistent(p + front)) by {
            assert forall|i: int, j: int|
                0 <= i < (p + front).len() && 0 <= j < (p + front).len() && #[trigger] (p + front)[i].cid
                    == #[trigger] (p + front)[j].cid implies (p + front)[i].score == (p + front)[j].score by {
                assert((p + front)[i] == (p + ds)[i]);
                assert((p + front)[j] == (p + ds)[j]);
            }
        }
        lemma_feed_all_keeps_best_inv(p, front, cap);
        lemma_feed_one_keeps_best(feed_all(p, front, cap), p + front, ds.last(), cap);
    }
}

/// Whether some entry of `pool` has content ID `cid`.
fn pool_contains_cid(pool: &Vec<LocalDiscovery>, cid: &GraphCid) -> (b: bool)
    ensures
        b == pool_has_cid(views(pool@), cid.0@),
{
    let mut i: usize = 0;
    while i < pool.len()
        invariant
            i <= pool@.len(),
            forall|j: int| 0 <= j < i ==> pool@[j].cid.0@ != cid.0@,
        decreases pool@.len() - i,
    {
        if pool[i].cid.same(cid) {
            assert(views(pool@)[i as int].cid == cid.0@);
            return true;
        }
        i = i + 1;
    }
    proof {
        if pool_has_cid(views(pool@), cid.0@) {
            let j = choose|j: int| 0 <= j < views(pool@).len() && #[trigger] views(pool@)[j].cid == cid.0@;
            assert(pool@[j].cid.0@ == cid.0@);
        }
    }
    false
}

/// Index before the first entry of `pool` that does not rank better than `score`.
fn insertion_point(pool: &Vec<LocalDiscovery>, score: &GraphScore) -> (pos: usize)
    ensures
        pos == lower_bound(views(pool@), *score),
{
    let ghost v = views(pool@);
    let mut i: usize = 0;
    while i < pool.len()
        invariant
            v == views(pool@),
            i <= pool@.len(),
            lower_bound(v, *score) == lower_bound_from(v, *score, i as int),
        decreases pool@.len() - i,
    {
        if !ranks_better(&pool[i].score, score) {
            return i;
        }
        i = i + 1;
    }
    i
}

/// Offers the scored discoveries, in order, to the local pool: a discovery
/// is kept unless the pool is full and it ranks no better than the worst
/// entry, or its content ID is already there; it goes before the first entry
/// that does not rank better, and the worst entry is dropped when the pool
/// overflows. With a server seed pool the local pool is not used.
pub fn feed_local_pool(
    scored: &[LocalDiscovery],
    local_pool: &mut Vec<LocalDiscovery>,
    capacity: usize,
    use_server_pool: bool,
)
    ensures
        views(final(local_pool)@) == if use_server_pool {
            views(old(local_pool)@)
        } else {
            feed_all(views(old(local_pool)@), views(scored@), capacity as nat)
        },
{
    if use_server_pool {
        return;
    }
    let ghost p0 = views(local_pool@);
    let mut i: usize = 0;
    while i < scored.len()
        invariant
            i <= scored@.len(),
            views(local_pool@) == feed_all(p0, views(scored@).take(i as int), capacity as nat),
        decreases scored@.len() - i,
    {
        let ghost before = views(local_pool@);
        let d = &scored[i];
        proof {
            let t = views(scored@).take(i + 1);
            assert(t.drop_last() =~= views(scored@).take(i as int));
            assert(t.last() == d@);
        }
        let len = local_pool.len();
        let dominated_now = if len >= capacity && len > 0 {
            !ranks_better(&d.score, &local_pool[len - 1].score)
        } else {
            false
        };
        if dominated_now {
            assert(before.last() == local_pool@[len - 1]@);
            i = i + 1;
            continue;
        }
        if pool_contains_cid(local_pool, &d.cid) {
            i = i + 1;
            continue;
        }
        let pos = insertion_point(local_pool, &d.score);
        proof {
            lemma_lower_bound_props(before, d.score, 0);
        }
        let entry = LocalDiscovery { graph: d.graph.clone(), score: d.score, cid: d.cid };
        assert(entry@ == d@);
        local_pool.insert(pos, entry);
        assert(views(local_pool@) =~= before.insert(pos as int, d@));
        if local_pool.len() > capacity {
            local_pool.pop();
            assert(views(local_pool@) =~= before.insert(pos as int, d@).drop_last());
        }
        i = i + 1;
    }
    assert(views(scored@).take(scored@.len() as int) =~= views(scored@));
}

/// The content IDs of a list of discoveries.
pub open spec fn seen_cids(ds: Seq<DiscoveryView>) -> Set<Seq<u8>> {
    Set::new(|c: Seq<u8>| exists|i: int| 0 <= i < ds.len() && #[trigger] ds[i].cid == c)
}

/// The discoveries of `ds` whose content ID is neither in `known` nor
/// carried by an earlier discovery of `ds`, in order.
pub open spec fn fresh_discoveries(ds: Seq<DiscoveryView>, known: Set<Seq<u8>>) -> Seq<DiscoveryView>
    decreases ds.len(),
{
    if ds.len() == 0 {
        Seq::empty()
    } else {
        let prev = fresh_discoveries(ds.drop_last(), known);
        if known.contains(ds.last().cid) || seen_cids(ds.drop_last()).contains(ds.last().cid) {
            prev
        } else {
            prev.push(ds.last())
        }
    }
}

/// The first index at or after `i` whose score ranks worse than `s`.
pub open spec fn upper_bound_from(p: Seq<DiscoveryView>, s: GraphScore, i: int) -> int
    decreases p.len() - i,
{
    if i >= p.len() || i < 0 {
        p.len() as int
    } else if s.better_than(p[i].score) {
        i
    } else {
        upper_bound_from(p, s, i + 1)
    }
}

proof fn lemma_upper_bound_props(p: Seq<DiscoveryView>, s: GraphScore, i: int)
    requires
        0 <= i <= p.len(),
        forall|j: int| 0 <= j < i ==> !s.better_than((#[trigger] p[j]).score),
    ensures
        0 <= upper_bound_from(p, s, i) <= p.len(),
        forall|j: int| 0 <= j < upper_bound_from(p, s, i) ==> !s.better_than((#[trigger] p[j]).score),
        upper_bound_from(p, s, i) < p.len() ==> s.better_than(p[upper_bound_from(p, s, i)].score),
    decreases p.len() - i,
{
    if i < p.len() && !s.better_than(p[i].score) {
        lemma_upper_bound_props(p, s, i + 1);
    }
}

proof fn lemma_insert_upper_sorted(p: Seq<DiscoveryView>, d: DiscoveryView)
    requires
        pool_sorted(p),
    ensures
        pool_sorted(p.insert(upper_bound_from(p, d.score, 0), d)),
{
    let pos = upper_bound_from(p, d.score, 0);
    lemma_upper_bound_props(p, d.score, 0);
    let q = p.insert(pos, d);
    assert forall|i: int, j: int| 0 <= i < j < q.len() implies !(#[trigger] q[j]).score.better_than(
        #[trigger] q[i].score,
    ) by {
        if j == pos {
            assert(q[i] == p[i]);
        } else if i == pos {
            assert(q[j] == p[j - 1]);
            assert(d.score.better_than(p[pos].score));
            lemma_better_asymmetric(d.score, p[pos].score);
            if j - 1 > pos {
                assert(!p[j - 1].score.better_than(p[pos].score));
                if p[j - 1].score.better_than(d.score) {
                    // then p[j-1] would rank better than p[pos]
                    lemma_no_better_transitive(d.score, p[j - 1].score, p[pos].score);
                }
            }
        } else {
            let pi = if i < pos { i } else { i - 1 };
            let pj = if j < pos { j } else { j - 1 };
            assert(q[i] == p[pi]);
            assert(q[j] == p[pj]);
        }
    }
}

/// `s` ordered from best to worst score, tied entries in their order in
/// `s`: each entry in turn goes after every entry that ranks no worse.
pub open spec fn stable_sort_by_score(s: Seq<DiscoveryView>) -> Seq<DiscoveryView>
    decreases s.len(),
{
    if s.len() == 0 {
        Seq::empty()
    } else {
        let p = stable_sort_by_score(s.drop_last());
        p.insert(upper_bound_from(p, s.last().score, 0), s.last())
    }
}

/// Index before the first entry of `sorted` that ranks worse than `score`.
fn insertion_point_after_ties(sorted: &Vec<LocalDiscovery>, score: &GraphScore) -> (pos: usize)
    ensures
        pos == upper_bound_from(views(sorted@), *score, 0),
{
    let ghost v = views(sorted@);
    let mut i: usize = 0;
    while i < sorted.len()
        invariant
            v == views(sorted@),
            i <= sorted@.len(),
            upper_bound_from(v, *score, 0) == upper_bound_from(v, *score, i as int),
        decreases sorted@.len() - i,
    {
        if ranks_better(score, &sorted[i].score) {
            return i;
        }
        i = i + 1;
    }
    i
}

/// Drops the discoveries whose content ID is already known (or repeats an
/// earlier one), records the new content IDs as known, and returns the rest
/// ordered from best to worst score, ties in their original order.
pub fn dedup_discoveries(candidates: &[LocalDiscovery], known: &mut KnownCids) -> (kept: Vec<LocalDiscovery>)
    ensures
        final(known)@ == old(known)@.union(seen_cids(views(candidates@))),
        views(kept@) == stable_sort_by_score(fresh_discoveries(views(candidates@), old(known)@)),
        pool_sorted(views(kept@)),
        views(kept@).to_multiset() == fresh_discoveries(views(candidates@), old(known)@).to_multiset(),
{
    let ghost k0 = known@;
    let ghost ds = views(candidates@);
    let mut kept: Vec<LocalDiscovery> = Vec::new();
    let mut i: usize = 0;
    assert(views(kept@).to_multiset() =~= fresh_discoveries(ds.take(0), k0).to_multiset()) by {
        assert(views(kept@) =~= Seq::<DiscoveryView>::empty());
        assert(ds.take(0) =~= Seq::<DiscoveryView>::empty());
    }
    assert(seen_cids(ds.take(0)) =~= Set::<Seq<u8>>::empty());
    assert(views(kept@) =~= stable_sort_by_score(fresh_discoveries(ds.take(0), k0)));
    while i < candidates.len()
        invariant
            ds == views(candidates@),
            i <= candidates@.len(),
            known@ == k0.union(seen_cids(ds.take(i as int))),
            views(kept@) == stable_sort_by_score(fresh_discoveries(ds.take(i as int), k0)),
            pool_sorted(views(kept@)),
            views(kept@).to_multiset() == fresh_discoveries(ds.take(i as int), k0).to_multiset(),
        decreases candidates@.len() - i,
    {
        let d = &candidates[i];
        let ghost t = ds.take(i + 1);
        proof {
            assert(t.drop_last() =~= ds.take(i as int));
            assert(t.last() == d@);
            assert(seen_cids(t) =~= seen_cids(ds.take(i as int)).insert(d.cid.0@)) by {
                assert forall|c: Seq<u8>| seen_cids(t).contains(c) implies seen_cids(ds.take(i as int)).insert(
                    d.cid.0@,
                ).contains(c) by {
                    let j = choose|j: int| 0 <= j < t.len() && #[trigger] t[j].cid == c;
                    if j < i {
                        assert(ds.take(i as int)[j] == t[j]);
                    }
                }
                assert forall|c: Seq<u8>| seen_cids(ds.take(i as int)).contains(c) implies seen_cids(t).contains(c) by {
                    let j = choose|j: int| 0 <= j < i && #[trigger] ds.take(i as int)[j].cid == c;
                    assert(t[j] == ds.take(i as int)[j]);
                }
                assert(t[i as int].cid == d.cid.0@);
            }
        }
        if known.contains(&d.cid) {
            assert(k0.contains(d.cid.0@) || seen_cids(ds.take(i as int)).contains(d.cid.0@));
            assert(known@ =~= k0.union(seen_cids(t)));
            assert(fresh_discoveries(t, k0) == fresh_discoveries(ds.take(i as int), k0));
        } else {
            known.insert(d.cid);
            assert(known@ =~= k0.union(seen_cids(t)));
            let pos = insertion_point_after_ties(&kept, &d.score);
            let entry = LocalDiscovery { graph: d.graph.clone(), score: d.score, cid: d.cid };
            let ghost before = views(kept@);
            proof {
                lemma_upper_bound_props(before, d.score, 0);
                assert(before.len() == kept@.len());
                lemma_insert_upper_sorted(before, d@);
                vstd::seq_lib::to_multiset_insert(before, pos as int, d@);
                vstd::seq_lib::to_multiset_build(fresh_discoveries(ds.take(i as int), k0), d@);
            }
            kept.insert(pos, entry);
            assert(views(kept@) =~= before.insert(pos as int, d@));
            proof {
                let f0 = fresh_discoveries(ds.take(i as int), k0);
                assert(fresh_discoveries(t, k0) == f0.push(d@));
                assert(f0.push(d@).drop_last() =~= f0);
                assert(stable_sort_by_score(f0.push(d@)) == stable_sort_by_score(f0).insert(
                    upper_bound_from(stable_sort_by_score(f0), d@.score, 0),
                    d@,
                ));
            }
        }
        i = i + 1;
    }
    assert(ds.take(candidates@.len() as int) =~= ds);
    kept
}

/// Threshold information the server reports for a leaderboard: its fill
/// and, when full, the tiers of its worst entry.
#[derive(Clone, Debug)]
pub struct ThresholdResponse {
    pub entry_count: u32,
    pub capacity: u32,
    pub worst_tier1_max: Option<u64>,
    pub worst_tier1_min: Option<u64>,
    pub worst_goodman_gap: Option<u64>,
    /// Bit pattern of the `f64` automorphism group order of the worst entry.
    pub worst_tier2_aut_bits: Option<u64>,
    pub worst_tier3_cid: Option<String>,
}

/// The worst entry of a full leaderboard: its score and content ID.
#[derive(Clone, Copy, Debug)]
pub struct WorstEntry {
    pub score: GraphScore,
    pub cid: GraphCid,
}

/// Cached admission threshold: the worst entry of a full leaderboard, if known.
#[derive(Clone, Copy, Debug)]
pub struct AdmissionThreshold {
    pub worst: Option<WorstEntry>,
}

/// The worst entry a full leaderboard reports, as a score and content ID:
/// tier 1 from the reported pair, the reported Goodman gap as the leading
/// tier-2 count (with 0 beside it), the reported automorphism order, and the
/// reported content ID. `None` when the board is not full, a field is
/// missing, the content ID does not parse, or a tier-1 value exceeds `u32`.
pub open spec fn worst_entry_of(r: ThresholdResponse) -> Option<(GraphScore, Seq<u8>)> {
    if r.entry_count >= r.capacity && r.worst_tier1_max is Some && r.worst_tier1_min is Some
        && r.worst_goodman_gap is Some && r.worst_tier2_aut_bits is Some && r.worst_tier3_cid is Some
        && cid_from_hex_spec(vstd::utf8::encode_utf8(r.worst_tier3_cid->0@)) is Ok
        && r.worst_tier1_max->0 <= u32::MAX && r.worst_tier1_min->0 <= u32::MAX {
        Some(
            (
                GraphScore {
                    omega: r.worst_tier1_max->0 as u32,
                    alpha: r.worst_tier1_min->0 as u32,
                    c_omega: r.worst_goodman_gap->0,
                    c_alpha: 0,
                    aut_order_bits: r.worst_tier2_aut_bits->0,
                },
                cid_from_hex_spec(vstd::utf8::encode_utf8(r.worst_tier3_cid->0@))->Ok_0,
            ),
        )
    } else {
        None
    }
}

/// The worst entry read from a response keeps every reported tier: tier 1
/// is the reported pair, tier 2 leads with the reported Goodman gap (with 0
/// beside it), and the automorphism order and content ID are the reported ones.
pub proof fn lemma_worst_entry_keeps_reported_tiers(r: ThresholdResponse)
    ensures
        worst_entry_of(r) matches Some(e) ==> {
            &&& r.entry_count >= r.capacity
            &&& r.worst_tier1_max == Some(e.0.omega as u64)
            &&& r.worst_tier1_min == Some(e.0.alpha as u64)
            &&& r.worst_goodman_gap == Some(e.0.c_omega)
            &&& e.0.t2() == (e.0.c_omega as int, 0int)
            &&& r.worst_tier2_aut_bits == Some(e.0.aut_order_bits)
            &&& r.worst_tier3_cid matches Some(h) && cid_from_hex_spec(vstd::utf8::encode_utf8(h@))
                == Ok::<Seq<u8>, crate::types::HexError>(e.1)
        },
{
}

/// The view of a cached worst entry.
pub open spec fn worst_view(w: Option<WorstEntry>) -> Option<(GraphScore, Seq<u8>)> {
    match w {
        Some(e) => Some((e.score, e.cid.0@)),
        None => None,
    }
}

/// A discovery with `score` and content ID `cid` ranks before the worst
/// entry: a better score, or an equal score and a content ID that orders
/// first (content IDs break ties, lower first).
pub open spec fn ranks_before_worst(score: GraphScore, cid: Seq<u8>, worst: (GraphScore, Seq<u8>)) -> bool {
    score.better_than(worst.0) || (score.ties(worst.0) && crate::leaderboard::bytes_lt(cid, worst.1))
}

/// Ranking before the worst entry follows the score order over all three
/// tiers; only an exact tie is settled by the content IDs, lower first.
pub proof fn lemma_admission_follows_score_order(score: GraphScore, cid: Seq<u8>, worst: (GraphScore, Seq<u8>))
    ensures
        score.better_than(worst.0) ==> ranks_before_worst(score, cid, worst),
        worst.0.better_than(score) ==> !ranks_before_worst(score, cid, worst),
        score.ties(worst.0) ==> (ranks_before_worst(score, cid, worst) <==> crate::leaderboard::bytes_lt(
            cid,
            worst.1,
        )),
        score.t1() == worst.0.t1() && crate::scoring::pair_lt(score.t2(), worst.0.t2()) ==> ranks_before_worst(
            score,
            cid,
            worst,
        ),
        crate::scoring::pair_lt(score.t1(), worst.0.t1()) ==> ranks_before_worst(score, cid, worst),
        crate::scoring::pair_lt(worst.0.t1(), score.t1()) ==> !ranks_before_worst(score, cid, worst),
{
}

impl AdmissionThreshold {
    /// No threshold: everything is worth submitting.
    pub fn open() -> (t: Self)
        ensures
            t.worst is None,
    {
        AdmissionThreshold { worst: None }
    }

    /// The threshold a server response describes.
    pub fn from_response(resp: &ThresholdResponse) -> (t: Self)
        ensures
            worst_view(t.worst) == worst_entry_of(*resp),
            t.worst matches Some(w) ==> {
                &&& resp.entry_count >= resp.capacity
                &&& resp.worst_tier1_max == Some(w.score.omega as u64)
                &&& resp.worst_tier1_min == Some(w.score.alpha as u64)
                &&& resp.worst_goodman_gap == Some(w.score.c_omega)
                &&& w.score.c_alpha == 0
                &&& w.score.t2() == (w.score.c_omega as int, 0int)
                &&& resp.worst_tier2_aut_bits == Some(w.score.aut_order_bits)
                &&& resp.worst_tier3_cid matches Some(h) && cid_from_hex_spec(vstd::utf8::encode_utf8(h@))
                    == Ok::<Seq<u8>, crate::types::HexError>(w.cid.0@)
            },
            resp.entry_count < resp.capacity ==> t.worst is None,
            (resp.entry_count >= resp.capacity && resp.worst_tier1_max is Some
                && resp.worst_tier1_max->0 <= u32::MAX && resp.worst_tier1_min is Some
                && resp.worst_tier1_min->0 <= u32::MAX && resp.worst_goodman_gap is Some
                && resp.worst_tier2_aut_bits is Some && resp.worst_tier3_cid is Some
                && cid_from_hex_spec(vstd::utf8::encode_utf8(resp.worst_tier3_cid->0@)) is Ok)
                ==> t.worst is Some,
    {
        if resp.entry_count < resp.capacity {
            return AdmissionThreshold { worst: None };
        }
        match (
            resp.worst_tier1_max,
            resp.worst_tier1_min,
            resp.worst_goodman_gap,
            resp.worst_tier2_aut_bits,
            &resp.worst_tier3_cid,
        ) {
            (Some(t1_max), Some(t1_min), Some(gap), Some(aut_bits), Some(cid_hex)) => {
                match GraphCid::from_hex(cid_hex.as_str()) {
                    Ok(cid) => {
                        if t1_max > u32::MAX as u64 || t1_min > u32::MAX as u64 {
                            return AdmissionThreshold { worst: None };
                        }
                        AdmissionThreshold {
                            worst: Some(
                                WorstEntry {
                                    score: GraphScore::new(t1_max as u32, t1_min as u32, gap, 0, aut_bits),
                                    cid,
                                },
                            ),
                        }
                    },
                    Err(_) => AdmissionThreshold { worst: None },
                }
            },
            _ => AdmissionThreshold { worst: None },
        }
    }

    /// Whether a discovery with `score` and content ID `cid` could enter the
    /// leaderboard: always without a threshold, otherwise only if it ranks
    /// strictly before the worst entry.
    pub fn would_admit(&self, score: &GraphScore, cid: &GraphCid) -> (b: bool)
        ensures
            b == match worst_view(self.worst) {
                None => true,
                Some(w) => ranks_before_worst(*score, cid.0@, w),
            },
            self.worst is None ==> b,
            self.worst matches Some(w) ==> {
                &&& score.better_than(w.score) ==> b
                &&& w.score.better_than(*score) ==> !b
                &&& score.ties(w.score) ==> (b <==> crate::leaderboard::bytes_lt(cid.0@, w.cid.0@))
            },
    {
        match &self.worst {
            None => true,
            Some(worst) => {
                ranks_better(score, &worst.score) || (ranks_equal(score, &worst.score)
                    && crate::leaderboard::score_bytes_lt(cid.0.as_slice(), worst.cid.0.as_slice()))
            },
        }
    }
}

/// Status snapshot of the worker.
#[derive(Clone, Debug)]
pub struct WorkerStatus {
    pub state: WorkerState,
    pub k: Option<u32>,
    pub ell: Option<u32>,
    pub n: Option<u32>,
    pub strategy: Option<String>,
    pub round: u64,
    pub local_pool_size: usize,
    pub known_cids: usize,
    pub init_mode: Option<String>,
}

/// The name of an init mode as its `Debug` rendering spells it.
pub open spec fn init_mode_name(m: InitMode) -> Seq<char> {
    match m {
        InitMode::Paley => "Paley"@,
        InitMode::Random => "Random"@,
        InitMode::Leaderboard => "Leaderboard"@,
        InitMode::PerturbedPaley => "PerturbedPaley"@,
    }
}

/// Different init modes have different names.
pub proof fn lemma_init_mode_names_distinct(a: InitMode, b: InitMode)
    ensures
        init_mode_name(a) == init_mode_name(b) <==> a == b,
{
    reveal_strlit("Paley");
    reveal_strlit("Random");
    reveal_strlit("Leaderboard");
    reveal_strlit("PerturbedPaley");
    assert("Paley"@.len() == 5);
    assert("Random"@.len() == 6);
    assert("Leaderboard"@.len() == 11);
    assert("PerturbedPaley"@.len() == 14);
}

/// The name of an init mode: the variant's own name.
pub fn init_mode_label(m: InitMode) -> (s: String)
    ensures
        s@ == init_mode_name(m),
        m == InitMode::Paley ==> s@ == "Paley"@,
        m == InitMode::Random ==> s@ == "Random"@,
        m == InitMode::Leaderboard ==> s@ == "Leaderboard"@,
        m == InitMode::PerturbedPaley ==> s@ == "PerturbedPaley"@,
        forall|other: InitMode| other != m ==> s@ != #[trigger] init_mode_name(other),
{
    proof {
        assert forall|other: InitMode| other != m implies init_mode_name(m) != #[trigger] init_mode_name(other) by {
            lemma_init_mode_names_distinct(m, other);
        }
    }
    match m {
        InitMode::Paley => String::from_str("Paley"),
        InitMode::Random => String::from_str("Random"),
        InitMode::Leaderboard => String::from_str("Leaderboard"),
        InitMode::PerturbedPaley => String::from_str("PerturbedPaley"),
    }
}

/// The status the engine reports.
pub fn status_of(
    state: WorkerState,
    config: &Option<EngineConfig>,
    round: u64,
    local_pool_size: usize,
    known_cids: usize,
    strategy: &Option<String>,
) -> (st: WorkerStatus)
    ensures
        st.state == state,
        st.round == round,
        st.local_pool_size == local_pool_size,
        st.known_cids == known_cids,
        st.strategy == *strategy,
        match *config {
            Some(c) => st.k == Some(c.k) && st.ell == Some(c.ell) && st.n == Some(c.n)
                && st.init_mode is Some && st.init_mode->0@ == init_mode_name(c.init_mode),
            None => st.k is None && st.ell is None && st.n is None && st.init_mode is None,
        },
{
    let strategy = match strategy {
        Some(s) => Some(s.clone()),
        None => None,
    };
    match config {
        Some(c) => WorkerStatus {
            state,
            k: Some(c.k),
            ell: Some(c.ell),
            n: Some(c.n),
            strategy,
            round,
            local_pool_size,
            known_cids,
            init_mode: Some(init_mode_label(c.init_mode)),
        },
        None => WorkerStatus {
            state,
            k: None,
            ell: None,
            n: None,
            strategy,
            round,
            local_pool_size,
            known_cids,
            init_mode: None,
        },
    }
}

/// Incremental content-ID sync response from the server.
#[derive(Clone, Debug)]
pub struct CidsSyncResponse {
    pub total: u32,
    pub cids: Vec<String>,
    pub last_updated: Option<String>,
}

/// Submit response from the server.
#[derive(Clone, Debug)]
pub struct SubmitResponse {
    pub graph_cid: String,
    pub verdict: String,
    pub admitted: Option<bool>,
    pub rank: Option<u32>,
    pub reason: Option<String>,
    pub witness: Option<Vec<u32>>,
}

/// Whether a round refreshes its seed graphs from the leaderboard: the
/// first round and every tenth.
pub fn should_fetch_seeds(round: u64) -> (b: bool)
    ensures
        b == (round == 1 || round % 10 == 0),
{
    round == 1 || round % 10 == 0
}

/// Bounds the known set: once it holds more than twice `max` content IDs it
/// is cut down to `max` of them.
pub fn trim_known(known: KnownCids, max: usize) -> (t: KnownCids)
    requires
        max <= usize::MAX / 2,
    ensures
        t@.subset_of(known@),
        known@.len() > 2 * max ==> t@.len() == max,
        known@.len() <= 2 * max ==> t@ == known@,
{
    if known.len() > max * 2 {
        known.snapshot_trimmed(max)
    } else {
        known
    }
}

/// The backoff never exceeds a minute, starts at one second, and never
/// shrinks as failures accumulate.
pub proof fn lemma_backoff_bounded_monotone(f: nat)
    ensures
        1 <= backoff_spec(f) <= 60,
        backoff_spec(f) <= backoff_spec(f + 1),
        backoff_spec(0) == 1,
{
    vstd::arithmetic::power2::lemma2_to64();
    let e = if f < 5 { f } else { 5 };
    let e1 = if f + 1 < 5 { f + 1 } else { 5 };
    vstd::arithmetic::power2::lemma_pow2_pos(e);
    if e < e1 {
        vstd::arithmetic::power2::lemma_pow2_strictly_increases(e, e1);
    }
    assert(vstd::arithmetic::power2::pow2(e) <= 32) by {
        if e < 5 {
            vstd::arithmetic::power2::lemma_pow2_strictly_increases(e, 5);
        }
    }
}

} // verus!
