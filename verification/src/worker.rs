//! The worker engine's own state: what its event loop keeps between
//! commands and rounds, and how each step of the loop changes it.

use vstd::prelude::*;

use crate::engine::{
    after_round, backoff_spec, build_config, config_from_patch, dedup_discoveries, feed_all,
    feed_local_pool, fresh_discoveries, init_mode_name, on_command, next_state, action_spec,
    pool_sorted, seen_cids, stable_sort_by_score, status_of, views, worst_entry_of, worst_view, ranks_before_worst, AdmissionThreshold,
    CidsSyncResponse, CommandPoint, EngineAction, EngineConfig, EngineConfigPatch, InitMode,
    LocalDiscovery, SubmitResponse, ThresholdResponse, WorkerCommand, WorkerState, WorkerStatus,
};
use crate::known::{parsed_cid, parsed_cids, KnownCids};

verus! {

/// The worker engine: idle, searching or paused, with the search state it
/// keeps across rounds.
pub struct WorkerEngine {
    pub state: WorkerState,
    pub config: Option<EngineConfig>,
    /// Content IDs already seen, locally or on the leaderboard.
    pub known: KnownCids,
    pub threshold: AdmissionThreshold,
    /// Timestamp from which the next content-ID sync continues.
    pub cid_sync_cursor: Option<String>,
    /// Entries on the leaderboard at the last threshold fetch.
    pub leaderboard_total: u32,
    /// The worker's own best discoveries, best first.
    pub local_pool: Vec<LocalDiscovery>,
    pub round: u64,
    pub consecutive_failures: u32,
    pub active_strategy_id: Option<String>,
}

/// The strategy a worker launched with search parameters runs.
pub const AUTO_START_STRATEGY: &'static str = "tree";

/// Search state as a fresh search has it: nothing known, nothing pooled,
/// no threshold, no sync cursor, no rounds, no failures.
pub open spec fn search_state_cleared(e: WorkerEngine) -> bool {
    &&& e.known@ == Set::<Seq<u8>>::empty()
    &&& e.local_pool@.len() == 0
    &&& e.threshold.worst is None
    &&& e.cid_sync_cursor is None
    &&& e.leaderboard_total == 0
    &&& e.round == 0
    &&& e.consecutive_failures == 0
}

/// The first of two optional values that is present.
pub open spec fn or_else(a: Option<String>, b: Option<String>) -> Option<String> {
    match a {
        Some(x) => Some(x),
        None => b,
    }
}

/// A start command that `WorkerEngine::start` can take: at least one vertex,
/// and `n(n - 1)` within `u32`.
pub open spec fn startable(cmd: WorkerCommand) -> bool {
    cmd matches WorkerCommand::Start { n, .. } ==> 1 <= n && n * (n - 1) <= u32::MAX
}

impl WorkerEngine {
    /// An idle engine with no configuration.
    pub fn new() -> (e: Self)
        ensures
            e.state == WorkerState::Idle,
            e.config is None,
            e.active_strategy_id is None,
            search_state_cleared(e),
    {
        WorkerEngine {
            state: WorkerState::Idle,
            config: None,
            known: KnownCids::new(),
            threshold: AdmissionThreshold::open(),
            cid_sync_cursor: None,
            leaderboard_total: 0,
            local_pool: Vec::new(),
            round: 0,
            consecutive_failures: 0,
            active_strategy_id: None,
        }
    }

    /// A fresh search: the configuration built from the command's
    /// parameters, the patch's strategy (or `default_strategy`), and all
    /// search state cleared.
    pub fn start(
        &mut self,
        k: u32,
        ell: u32,
        n: u32,
        patch: &EngineConfigPatch,
        default_strategy: Option<String>,
    )
        requires
            1 <= n,
            n * (n - 1) <= u32::MAX,
        ensures
            final(self).state == WorkerState::Searching,
            final(self).config matches Some(c) && config_from_patch(k, ell, n, *patch, c),
            final(self).active_strategy_id == or_else(patch.strategy, default_strategy),
            search_state_cleared(*final(self)),
    {
        let cfg = build_config(k, ell, n, patch);
        self.active_strategy_id = match &patch.strategy {
            Some(s) => Some(s.clone()),
            None => default_strategy,
        };
        self.known = KnownCids::new();
        self.local_pool = Vec::new();
        self.threshold = AdmissionThreshold::open();
        self.cid_sync_cursor = None;
        self.leaderboard_total = 0;
        self.round = 0;
        self.consecutive_failures = 0;
        self.config = Some(cfg);
        self.state = WorkerState::Searching;
    }

    /// Starts searching at once with a ready configuration, as when the
    /// worker is launched with search parameters; the strategy is `tree`.
    pub fn auto_start(&mut self, cfg: EngineConfig)
        ensures
            final(self).state == WorkerState::Searching,
            final(self).config == Some(cfg),
            final(self).active_strategy_id matches Some(s) && s@ == AUTO_START_STRATEGY@,
            final(self).known@ == old(self).known@,
            final(self).local_pool@ == old(self).local_pool@,
            final(self).round == old(self).round,
    {
        self.active_strategy_id = Some(String::from_str(AUTO_START_STRATEGY));
        self.config = Some(cfg);
        self.state = WorkerState::Searching;
    }

    /// Picks the strategy a search round runs among the available ones (by
    /// id): the active strategy, or the first when none is set. When there is
    /// none to run, the engine goes idle.
    pub fn round_strategy(&mut self, ids: &[String]) -> (r: Option<usize>)
        ensures
            match r {
                Some(i) => {
                    &&& i < ids@.len()
                    &&& final(self).state == old(self).state
                    &&& match old(self).active_strategy_id {
                        Some(a) => ids@[i as int]@ == a@ && forall|j: int|
                            0 <= j < i ==> (#[trigger] ids@[j])@ != a@,
                        None => i == 0,
                    }
                },
                None => {
                    &&& final(self).state == WorkerState::Idle
                    &&& match old(self).active_strategy_id {
                        Some(a) => forall|j: int| 0 <= j < ids@.len() ==> (#[trigger] ids@[j])@ != a@,
                        None => ids@.len() == 0,
                    }
                },
            },
            final(self).active_strategy_id == old(self).active_strategy_id,
            final(self).config == old(self).config,
            final(self).known@ == old(self).known@,
            views(final(self).local_pool@) == views(old(self).local_pool@),
            final(self).round == old(self).round,
            final(self).consecutive_failures == old(self).consecutive_failures,
    {
        let r = choose_strategy(&self.active_strategy_id, ids);
        if r.is_none() {
            self.state = WorkerState::Idle;
        }
        r
    }

    /// Clears the search state, keeping the state, configuration and strategy.
    fn clear_search_state(&mut self)
        ensures
            search_state_cleared(*final(self)),
            final(self).state == old(self).state,
            final(self).config == old(self).config,
            final(self).active_strategy_id == old(self).active_strategy_id,
    {
        self.known = KnownCids::new();
        self.local_pool = Vec::new();
        self.threshold = AdmissionThreshold::open();
        self.cid_sync_cursor = None;
        self.leaderboard_total = 0;
        self.round = 0;
        self.consecutive_failures = 0;
    }

    /// Takes a command at a point of the loop: the state follows
    /// `on_command`; a `Start` begins a fresh search; a `Stop` clears the
    /// search state (the pause keeps it); the action is returned for the
    /// loop to carry out.
    pub fn command(&mut self, point: CommandPoint, cmd: WorkerCommand, default_strategy: Option<String>) -> (a: EngineAction)
        requires
            startable(cmd),
        ensures
            final(self).state == next_state(point, cmd),
            action_spec(point, cmd, a),
            (a matches EngineAction::Start { k, ell, n, config } ==> {
                &&& final(self).config matches Some(c) && config_from_patch(k, ell, n, config, c)
                &&& final(self).active_strategy_id == or_else(config.strategy, default_strategy)
                &&& search_state_cleared(*final(self))
            }),
            cmd is Stop ==> {
                &&& search_state_cleared(*final(self))
                &&& final(self).config == old(self).config
                &&& final(self).active_strategy_id == old(self).active_strategy_id
            },
            !(a is Start) && !(cmd is Stop) ==> {
                &&& final(self).config == old(self).config
                &&& final(self).known@ == old(self).known@
                &&& views(final(self).local_pool@) == views(old(self).local_pool@)
                &&& final(self).round == old(self).round
                &&& final(self).consecutive_failures == old(self).consecutive_failures
                &&& final(self).active_strategy_id == old(self).active_strategy_id
            },
    {
        let is_stop = match cmd {
            WorkerCommand::Stop => true,
            _ => false,
        };
        let (next, action) = on_command(point, cmd);
        match action {
            EngineAction::Start { k, ell, n, config } => {
                self.start(k, ell, n, &config, default_strategy);
                EngineAction::Start { k, ell, n, config }
            },
            _ => {
                if is_stop {
                    self.clear_search_state();
                }
                self.state = next;
                action
            },
        }
    }

    /// The status the engine reports.
    pub fn status(&self) -> (st: WorkerStatus)
        ensures
            st.state == self.state,
            st.round == self.round,
            st.local_pool_size == self.local_pool@.len(),
            st.known_cids == self.known@.len(),
            st.strategy == self.active_strategy_id,
            match self.config {
                Some(c) => st.k == Some(c.k) && st.ell == Some(c.ell) && st.n == Some(c.n)
                    && st.init_mode is Some && st.init_mode->0@ == init_mode_name(c.init_mode),
                None => st.k is None && st.ell is None && st.n is None && st.init_mode is None,
            },
    {
        status_of(
            self.state,
            &self.config,
            self.round,
            self.local_pool.len(),
            self.known.len(),
            &self.active_strategy_id,
        )
    }

    /// Counts a new round.
    pub fn begin_round(&mut self)
        requires
            old(self).round < u64::MAX,
        ensures
            final(self).round == old(self).round + 1,
            final(self).state == old(self).state,
            final(self).known@ == old(self).known@,
    {
        self.round = self.round + 1;
    }

    /// Takes in a fetched leaderboard threshold.
    pub fn apply_threshold(&mut self, resp: &ThresholdResponse)
        ensures
            final(self).leaderboard_total == resp.entry_count,
            worst_view(final(self).threshold.worst) == worst_entry_of(*resp),
            final(self).known@ == old(self).known@,
            final(self).round == old(self).round,
    {
        self.leaderboard_total = resp.entry_count;
        self.threshold = AdmissionThreshold::from_response(resp);
    }

    /// Takes in a content-ID sync: the content IDs that parse become known,
    /// and the cursor moves to the reported last update, if there is one.
    pub fn apply_cid_sync(&mut self, resp: &CidsSyncResponse)
        ensures
            final(self).known@ == old(self).known@.union(parsed_cids(resp.cids@)),
            final(self).cid_sync_cursor == match resp.last_updated {
                Some(t) => Some(t),
                None => old(self).cid_sync_cursor,
            },
            final(self).round == old(self).round,
    {
        if resp.cids.len() > 0 {
            self.known.add_from_hex(resp.cids.as_slice());
        } else {
            assert(parsed_cids(resp.cids@) =~= Set::<Seq<u8>>::empty());
            assert(old(self).known@.union(parsed_cids(resp.cids@)) =~= old(self).known@);
        }
        match &resp.last_updated {
            Some(t) => {
                self.cid_sync_cursor = Some(t.clone());
            },
            None => {},
        }
    }

    /// Takes in a batch of scored discoveries: those already known are
    /// dropped, the rest become known, are offered to the local pool, and
    /// are returned best first for submission.
    pub fn absorb(&mut self, candidates: &[LocalDiscovery]) -> (kept: Vec<LocalDiscovery>)
        requires
            old(self).config is Some,
        ensures
            final(self).known@ == old(self).known@.union(seen_cids(views(candidates@))),
            views(kept@) == stable_sort_by_score(fresh_discoveries(views(candidates@), old(self).known@)),
            pool_sorted(views(kept@)),
            views(kept@).to_multiset() == fresh_discoveries(views(candidates@), old(self).known@).to_multiset(),
            ({
                let c = old(self).config->0;
                let cap: nat = if c.collector_capacity >= 100 { c.collector_capacity as nat } else { 100 };
                views(final(self).local_pool@) == if c.init_mode == InitMode::Leaderboard {
                    views(old(self).local_pool@)
                } else {
                    feed_all(views(old(self).local_pool@), views(kept@), cap)
                }
            }),
            final(self).config == old(self).config,
            final(self).round == old(self).round,
    {
        let kept = dedup_discoveries(candidates, &mut self.known);
        let (capacity, use_server_pool) = match &self.config {
            Some(c) => (
                if c.collector_capacity >= 100 {
                    c.collector_capacity
                } else {
                    100
                },
                match c.init_mode {
                    InitMode::Leaderboard => true,
                    _ => false,
                },
            ),
            None => (100, false),
        };
        feed_local_pool(kept.as_slice(), &mut self.local_pool, capacity, use_server_pool);
        kept
    }

    /// Whether a discovery is worth sending: it could enter the leaderboard
    /// as far as the cached threshold tells.
    pub fn worth_submitting(&self, d: &LocalDiscovery) -> (b: bool)
        ensures
            b == match worst_view(self.threshold.worst) {
                None => true,
                Some(w) => ranks_before_worst(d.score, d.cid.0@, w),
            },
    {
        self.threshold.would_admit(&d.score, &d.cid)
    }

    /// Takes in the server's answer to a submission: the graph's content ID
    /// becomes known; returns whether it was admitted (no answer counts as no).
    pub fn record_submission(&mut self, resp: &SubmitResponse) -> (admitted: bool)
        ensures
            final(self).known@ == old(self).known@.union(parsed_cid(resp.graph_cid@)),
            admitted == (resp.admitted == Some(true)),
            final(self).round == old(self).round,
    {
        self.known.insert_hex(resp.graph_cid.as_str());
        match resp.admitted {
            Some(a) => a,
            None => false,
        }
    }

    /// Ends a round that produced `discoveries` new discoveries: a round with
    /// none and no valid graph counts as a failure and, unless backoff is
    /// off, returns the seconds to wait; any other round clears the failures.
    pub fn end_round(&mut self, discoveries: usize, found_valid: bool) -> (wait: Option<u64>)
        requires
            old(self).config is Some,
            old(self).consecutive_failures < u32::MAX,
        ensures
            discoveries == 0 && !found_valid ==> {
                &&& final(self).consecutive_failures == old(self).consecutive_failures + 1
                &&& wait == if old(self).config->0.no_backoff {
                    None::<u64>
                } else {
                    Some(backoff_spec(final(self).consecutive_failures as nat) as u64)
                }
            },
            !(discoveries == 0 && !found_valid) ==> final(self).consecutive_failures == 0 && wait is None,
            final(self).state == old(self).state,
            final(self).round == old(self).round,
            final(self).config == old(self).config,
    {
        let no_backoff = match &self.config {
            Some(c) => c.no_backoff,
            None => true,
        };
        let (f, wait) = after_round(discoveries, found_valid, self.consecutive_failures, no_backoff);
        self.consecutive_failures = f;
        wait
    }
}

/// Counts of one submission batch.
#[derive(Clone, Copy, Debug, PartialEq, Eq, Structural)]
pub struct SubmitTally {
    pub submitted: usize,
    pub admitted: usize,
    pub skipped: usize,
}

impl SubmitTally {
    /// No submissions yet.
    pub fn new() -> (t: Self)
        ensures
            t.submitted == 0 && t.admitted == 0 && t.skipped == 0,
    {
        SubmitTally { submitted: 0, admitted: 0, skipped: 0 }
    }

    /// Counts a discovery skipped as below the threshold.
    pub fn skip(&mut self)
        requires
            old(self).skipped < usize::MAX,
        ensures
            *final(self) == (SubmitTally { skipped: (old(self).skipped + 1) as usize, ..*old(self) }),
    {
        self.skipped = self.skipped + 1;
    }

    /// Counts an answered submission, admitted or not.
    pub fn sent(&mut self, admitted: bool)
        requires
            old(self).submitted < usize::MAX,
            old(self).admitted < usize::MAX,
        ensures
            final(self).submitted == old(self).submitted + 1,
            final(self).admitted == old(self).admitted + if admitted { 1usize } else { 0usize },
            final(self).skipped == old(self).skipped,
    {
        self.submitted = self.submitted + 1;
        if admitted {
            self.admitted = self.admitted + 1;
        }
    }
}

/// Which of the available strategies (by id) a round runs: the active one
/// if set (none if it is not available), else the first.
pub fn choose_strategy(active: &Option<String>, ids: &[String]) -> (r: Option<usize>)
    ensures
        active is Some ==> match r {
            Some(i) => i < ids@.len() && ids@[i as int]@ == active->0@ && forall|j: int|
                0 <= j < i ==> (#[trigger] ids@[j])@ != active->0@,
            None => forall|j: int| 0 <= j < ids@.len() ==> (#[trigger] ids@[j])@ != active->0@,
        },
        active is None ==> r == if ids@.len() > 0 {
            Some(0usize)
        } else {
            None
        },
{
    match active {
        Some(a) => {
            let mut i: usize = 0;
            while i < ids.len()
                invariant
                    active is Some,
                    active->0@ == a@,
                    i <= ids@.len(),
                    forall|j: int| 0 <= j < i ==> (#[trigger] ids@[j])@ != a@,
                decreases ids@.len() - i,
            {
                if ids[i] == *a {
                    return Some(i);
                }
                i = i + 1;
            }
            None
        },
        None => {
            if ids.len() > 0 {
                Some(0)
            } else {
                None
            }
        },
    }
}

/// The strategy a standalone worker runs: the first whose id is `wanted`,
/// or the first available when none is.
pub fn strategy_or_first(wanted: &str, ids: &[String]) -> (i: usize)
    requires
        ids@.len() > 0,
    ensures
        i < ids@.len(),
        (exists|j: int| 0 <= j < ids@.len() && (#[trigger] ids@[j])@ == wanted@) ==> ids@[i as int]@
            == wanted@ && forall|j: int| 0 <= j < i ==> (#[trigger] ids@[j])@ != wanted@,
        (forall|j: int| 0 <= j < ids@.len() ==> (#[trigger] ids@[j])@ != wanted@) ==> i == 0,
{
    let w = String::from_str(wanted);
    let mut i: usize = 0;
    while i < ids.len()
        invariant
            w@ == wanted@,
            i <= ids@.len(),
            forall|j: int| 0 <= j < i ==> (#[trigger] ids@[j])@ != wanted@,
        decreases ids@.len() - i,
    {
        if ids[i] == w {
            return i;
        }
        i = i + 1;
    }
    0
}

} // verus!
