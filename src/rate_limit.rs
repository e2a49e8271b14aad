//! Admission control: per-application and global per-block quotas, a burst
//! allowance, cooldown-based blocking and a global pause.

use vstd::prelude::*;

use crate::ids::ApplicationId;
use crate::keyed::{lemma_entry_at, KeyedMap, entry_map, has_key};

verus! {

/// Denominator of the burst multiplier, which is kept in thousandths.
pub const PERMILLE: u64 = 1000;

/// Rate limit configuration.
#[derive(Clone, Copy, Debug, PartialEq, Eq, Structural)]
pub struct RateLimitConfig {
    /// Maximum events per application per block.
    pub max_events_per_app_per_block: u64,
    /// Maximum events per block over all applications.
    pub max_total_events_per_block: u64,
    /// Burst multiplier in thousandths (1500 allows one and a half times the
    /// configured maxima).
    pub burst_multiplier_permille: u64,
    /// Blocks an application stays blocked after exceeding its limit.
    pub cooldown_blocks: u64,
    /// Whether rate limiting applies at all.
    pub enabled: bool,
}

/// The default configuration: 100 events per application and 1000 in all
/// per block, a burst multiplier of one and a half, a cooldown of 5 blocks,
/// enabled.
pub open spec fn default_config() -> RateLimitConfig {
    RateLimitConfig {
        max_events_per_app_per_block: 100,
        max_total_events_per_block: 1000,
        burst_multiplier_permille: 1500,
        cooldown_blocks: 5,
        enabled: true,
    }
}

impl Default for RateLimitConfig {
    fn default() -> (r: RateLimitConfig)
        ensures
            r == default_config(),
    {
        RateLimitConfig {
            max_events_per_app_per_block: 100,
            max_total_events_per_block: 1000,
            burst_multiplier_permille: 1500,
            cooldown_blocks: 5,
            enabled: true,
        }
    }
}

/// Events counted in one block.
#[derive(Clone, Copy, Debug, PartialEq, Eq, Structural, Default)]
pub struct BlockEventCount {
    pub block_height: u64,
    pub count: u64,
}

/// Rate limiter state.
#[derive(Clone, Debug)]
pub struct RateLimiterState {
    /// Per-application counters.
    pub app_counters: KeyedMap<ApplicationId, BlockEventCount>,
    /// Counter over all applications for the current block.
    pub global_counter: BlockEventCount,
    /// Blocked applications, each with the block at which its block lifts.
    pub blocked_apps: KeyedMap<ApplicationId, u64>,
    /// Current configuration.
    pub config: RateLimitConfig,
    /// Whether ingestion is paused globally.
    pub paused: bool,
}

/// Current counters and flags.
#[derive(Clone, Copy, Debug, PartialEq, Eq, Structural)]
pub struct RateLimitStats {
    pub global_count: u64,
    pub global_limit: u64,
    pub blocked_apps_count: usize,
    pub paused: bool,
    pub enabled: bool,
}

/// Reasons an admission check fails.
#[derive(Clone, Copy, Debug)]
pub enum RateLimitError {
    /// The application reached its limit and is now blocked.
    AppLimitExceeded { app_id: ApplicationId, limit: u64, cooldown_blocks: u64 },
    /// The global limit for the block is reached.
    GlobalLimitExceeded { limit: u64, current: u64 },
    /// The application is blocked until `unblock_at`.
    AppBlocked { unblock_at: u64, current_block: u64 },
    /// Ingestion is paused globally.
    IngestionPaused,
}

/// `max` scaled by the burst multiplier, rounded down, at most `u64::MAX`.
pub open spec fn effective_limit(max: u64, permille: u64) -> u64 {
    let scaled = (max as int * permille as int) / PERMILLE as int;
    if scaled > u64::MAX {
        u64::MAX
    } else {
        scaled as u64
    }
}

/// Counters moved to `block`: each counter of another block restarts at zero.
pub open spec fn reset_counters(m: Map<ApplicationId, BlockEventCount>, block: u64) -> Map<
    ApplicationId,
    BlockEventCount,
> {
    Map::new(
        |k: ApplicationId| m.contains_key(k),
        |k: ApplicationId|
            if m[k].block_height != block {
                BlockEventCount { block_height: block, count: 0 }
            } else {
                m[k]
            },
    )
}

impl RateLimiterState {
    /// Both maps are well formed.
    pub open spec fn wf(&self) -> bool {
        self.app_counters.wf() && self.blocked_apps.wf()
    }

    /// Whether `app` is blocked at `block`.
    pub open spec fn blocked_at(&self, app: ApplicationId, block: u64) -> bool {
        self.blocked_apps@.contains_key(app) && block < self.blocked_apps@[app]
    }

    /// The global counter once moved to `block`.
    pub open spec fn global_at(&self, block: u64) -> BlockEventCount {
        if self.global_counter.block_height != block {
            BlockEventCount { block_height: block, count: 0 }
        } else {
            self.global_counter
        }
    }

    /// The per-application counters once moved to `block`.
    pub open spec fn counters_at(&self, block: u64) -> Map<ApplicationId, BlockEventCount> {
        if self.global_counter.block_height != block {
            reset_counters(self.app_counters@, block)
        } else {
            self.app_counters@
        }
    }

    /// The counter of `app` once moved to `block` (a fresh one if it has none).
    pub open spec fn app_counter_at(&self, app: ApplicationId, block: u64) -> BlockEventCount {
        let m = self.counters_at(block);
        if m.contains_key(app) {
            m[app]
        } else {
            BlockEventCount { block_height: block, count: 0 }
        }
    }

    /// Effective global limit.
    pub open spec fn global_limit(&self) -> u64 {
        effective_limit(self.config.max_total_events_per_block, self.config.burst_multiplier_permille)
    }

    /// Effective per-application limit.
    pub open spec fn app_limit(&self) -> u64 {
        effective_limit(
            self.config.max_events_per_app_per_block,
            self.config.burst_multiplier_permille,
        )
    }

    /// Whether the check of `app` at `block` gets past the pause, the
    /// enabled flag and the block list to the quota checks.
    pub open spec fn reaches_quotas(&self, app: ApplicationId, block: u64) -> bool {
        !self.paused && self.config.enabled && !self.blocked_at(app, block)
    }

    /// How an admission check of `app` at `block` leaves the state `new`:
    /// untouched when it stops before the quotas; otherwise with the block
    /// lifted if it had expired, the counters moved to `block`, and then the
    /// failed check's block placed or the admitted event counted.
    pub open spec fn check_post(&self, app: ApplicationId, block: u64, new: RateLimiterState) -> bool {
        &&& new.wf()
        &&& new.config == self.config
        &&& new.paused == self.paused
        &&& !self.reaches_quotas(app, block) ==> new == *self
        &&& self.reaches_quotas(app, block) ==> {
            let g = self.global_at(block);
            let c = self.app_counter_at(app, block);
            let counters = self.counters_at(block);
            let unblocked = self.blocked_apps@.remove(app);
            if g.count >= self.global_limit() {
                &&& new.global_counter == g
                &&& new.app_counters@ == counters
                &&& new.blocked_apps@ == unblocked
            } else if c.count >= self.app_limit() {
                &&& new.global_counter == g
                &&& new.app_counters@ == counters.insert(app, c)
                &&& new.blocked_apps@ == unblocked.insert(
                    app,
                    (block + self.config.cooldown_blocks) as u64,
                )
            } else {
                &&& new.global_counter == (BlockEventCount {
                    block_height: g.block_height,
                    count: (g.count + 1) as u64,
                })
                &&& new.app_counters@ == counters.insert(
                    app,
                    BlockEventCount { block_height: c.block_height, count: (c.count + 1) as u64 },
                )
                &&& new.blocked_apps@ == unblocked
            }
        }
    }

    /// What an admission check of `app` at `block` returns.
    pub open spec fn admission(&self, app: ApplicationId, block: u64) -> Result<(), RateLimitError> {
        if self.paused {
            Err(RateLimitError::IngestionPaused)
        } else if !self.config.enabled {
            Ok(())
        } else if self.blocked_at(app, block) {
            Err(
                RateLimitError::AppBlocked {
                    unblock_at: self.blocked_apps@[app],
                    current_block: block,
                },
            )
        } else if self.global_at(block).count >= self.global_limit() {
            Err(
                RateLimitError::GlobalLimitExceeded {
                    limit: self.global_limit(),
                    current: self.global_at(block).count,
                },
            )
        } else if self.app_counter_at(app, block).count >= self.app_limit() {
            Err(
                RateLimitError::AppLimitExceeded {
                    app_id: app,
                    limit: self.app_limit(),
                    cooldown_blocks: self.config.cooldown_blocks,
                },
            )
        } else {
            Ok(())
        }
    }
}

} // verus!

verus! {

/// `max` scaled by a multiplier in thousandths, rounded down, saturating.
fn scaled_limit(max: u64, permille: u64) -> (r: u64)
    ensures
        r == effective_limit(max, permille),
{
    assert((max as int) * (permille as int) <= (u64::MAX as int) * (u64::MAX as int))
        by (nonlinear_arith)
        requires
            max <= u64::MAX,
            permille <= u64::MAX,
    ;
    let scaled: u128 = (max as u128) * (permille as u128) / (PERMILLE as u128);
    if scaled > u64::MAX as u128 {
        u64::MAX
    } else {
        scaled as u64
    }
}

impl RateLimiterState {
    /// A limiter with `config`, no counts, nothing blocked, not paused.
    pub fn new(config: RateLimitConfig) -> (r: RateLimiterState)
        ensures
            r.wf(),
            r.config == config,
            r.app_counters@ == Map::<ApplicationId, BlockEventCount>::empty(),
            r.blocked_apps@ == Map::<ApplicationId, u64>::empty(),
            r.global_counter == (BlockEventCount { block_height: 0, count: 0 }),
            !r.paused,
    {
        RateLimiterState {
            app_counters: KeyedMap::new(),
            global_counter: BlockEventCount { block_height: 0, count: 0 },
            blocked_apps: KeyedMap::new(),
            config,
            paused: false,
        }
    }

    /// Moves the counters to `current_block` when the global counter is of
    /// another block.
    fn reset_if_new_block(&mut self, current_block: u64)
        requires
            old(self).wf(),
        ensures
            final(self).wf(),
            final(self).global_counter == old(self).global_at(current_block),
            final(self).app_counters@ == old(self).counters_at(current_block),
            final(self).blocked_apps == old(self).blocked_apps,
            final(self).config == old(self).config,
            final(self).paused == old(self).paused,
    {
        if self.global_counter.block_height != current_block {
            self.global_counter = BlockEventCount { block_height: current_block, count: 0 };
            let ghost s = self.app_counters.entries@;
            let n = self.app_counters.entries.len();
            let mut i: usize = 0;
            while i < n
                invariant
                    n == s.len(),
                    crate::keyed::keys_distinct(s),
                    self.global_counter == (BlockEventCount { block_height: current_block, count: 0 }),
                    self.blocked_apps == old(self).blocked_apps,
                    self.config == old(self).config,
                    self.paused == old(self).paused,
                    old(self).blocked_apps.wf(),
                    self.app_counters.entries@.len() == n,
                    0 <= i <= n,
                    forall|j: int|
                        0 <= j < n ==> (#[trigger] self.app_counters.entries@[j]).0 == s[j].0,
                    forall|j: int|
                        0 <= j < i ==> (#[trigger] self.app_counters.entries@[j]).1 == (if s[j].1.block_height
                            != current_block {
                            BlockEventCount { block_height: current_block, count: 0 }
                        } else {
                            s[j].1
                        }),
                    forall|j: int| i <= j < n ==> (#[trigger] self.app_counters.entries@[j]).1 == s[j].1,
                decreases n - i,
            {
                let (app, counter) = self.app_counters.entries[i];
                if counter.block_height != current_block {
                    self.app_counters.entries.set(
                        i,
                        (app, BlockEventCount { block_height: current_block, count: 0 }),
                    );
                }
                i = i + 1;
            }
            proof {
                let t = self.app_counters.entries@;
                assert(self.app_counters.wf());
                let target = reset_counters(entry_map(s), current_block);
                assert forall|x: ApplicationId| has_key(t, x) == has_key(s, x) by {
                    if has_key(s, x) {
                        let j = choose|j: int| 0 <= j < s.len() && s[j].0 == x;
                        assert(t[j].0 == x);
                    }
                    if has_key(t, x) {
                        let j = choose|j: int| 0 <= j < t.len() && t[j].0 == x;
                        assert(s[j].0 == x);
                    }
                }
                assert forall|x: ApplicationId| #[trigger] entry_map(t).contains_key(x) implies entry_map(
                    t,
                )[x] == target[x] by {
                    let j = choose|j: int| 0 <= j < t.len() && t[j].0 == x;
                    lemma_entry_at(t, j);
                    lemma_entry_at(s, j);
                }
                assert(entry_map(t) =~= target);
            }
        }
    }

    /// Admission check for one event of `app_id` at `current_block`; on
    /// success both counters count it.
    pub fn check_and_increment(&mut self, app_id: &ApplicationId, current_block: u64) -> (r: Result<
        (),
        RateLimitError,
    >)
        requires
            old(self).wf(),
            current_block as int + old(self).config.cooldown_blocks <= u64::MAX,
        ensures
            r == old(self).admission(*app_id, current_block),
            old(self).check_post(*app_id, current_block, *final(self)),
    {
        if self.paused {
            return Err(RateLimitError::IngestionPaused);
        }
        if !self.config.enabled {
            return Ok(());
        }
        match self.blocked_apps.get(app_id) {
            Some(unblock_at) => {
                let unblock_at = *unblock_at;
                if current_block < unblock_at {
                    return Err(RateLimitError::AppBlocked { unblock_at, current_block });
                }
                self.blocked_apps.remove(app_id);
            },
            None => {
                assert(self.blocked_apps@.remove(*app_id) =~= self.blocked_apps@);
            },
        }
        self.reset_if_new_block(current_block);
        let max_global = scaled_limit(
            self.config.max_total_events_per_block,
            self.config.burst_multiplier_permille,
        );
        if self.global_counter.count >= max_global {
            return Err(
                RateLimitError::GlobalLimitExceeded {
                    limit: max_global,
                    current: self.global_counter.count,
                },
            );
        }
        let counter = match self.app_counters.get(app_id) {
            Some(c) => *c,
            None => BlockEventCount { block_height: current_block, count: 0 },
        };
        let max_app = scaled_limit(
            self.config.max_events_per_app_per_block,
            self.config.burst_multiplier_permille,
        );
        if counter.count >= max_app {
            self.app_counters.insert(*app_id, counter);
            self.blocked_apps.insert(*app_id, current_block + self.config.cooldown_blocks);
            return Err(
                RateLimitError::AppLimitExceeded {
                    app_id: *app_id,
                    limit: max_app,
                    cooldown_blocks: self.config.cooldown_blocks,
                },
            );
        }
        self.app_counters.insert(
            *app_id,
            BlockEventCount { block_height: counter.block_height, count: counter.count + 1 },
        );
        self.global_counter = BlockEventCount {
            block_height: self.global_counter.block_height,
            count: self.global_counter.count + 1,
        };
        Ok(())
    }

    /// Pauses ingestion globally.
    pub fn pause(&mut self)
        ensures
            *final(self) == (RateLimiterState { paused: true, ..*old(self) }),
    {
        self.paused = true;
    }

    /// Resumes ingestion.
    pub fn resume(&mut self)
        ensures
            *final(self) == (RateLimiterState { paused: false, ..*old(self) }),
    {
        self.paused = false;
    }

    /// Replaces the configuration.
    pub fn update_config(&mut self, config: RateLimitConfig)
        ensures
            *final(self) == (RateLimiterState { config, ..*old(self) }),
    {
        self.config = config;
    }

    /// Current counters and flags.
    pub fn get_stats(&self) -> (r: RateLimitStats)
        requires
            self.wf(),
        ensures
            r == (RateLimitStats {
                global_count: self.global_counter.count,
                global_limit: self.config.max_total_events_per_block,
                blocked_apps_count: self.blocked_apps@.len() as usize,
                paused: self.paused,
                enabled: self.config.enabled,
            }),
    {
        RateLimitStats {
            global_count: self.global_counter.count,
            global_limit: self.config.max_total_events_per_block,
            blocked_apps_count: self.blocked_apps.len(),
            paused: self.paused,
            enabled: self.config.enabled,
        }
    }

    /// Lifts the block of `app_id` whatever its end; returns whether it was
    /// blocked.
    pub fn unblock_app(&mut self, app_id: &ApplicationId) -> (r: bool)
        requires
            old(self).wf(),
        ensures
            final(self).wf(),
            r == old(self).blocked_apps@.contains_key(*app_id),
            final(self).blocked_apps@ == old(self).blocked_apps@.remove(*app_id),
            final(self).app_counters == old(self).app_counters,
            final(self).global_counter == old(self).global_counter,
            final(self).config == old(self).config,
            final(self).paused == old(self).paused,
    {
        self.blocked_apps.remove(app_id)
    }
}

} // verus!

verus! {

/// While ingestion is paused, every admission check fails with
/// `IngestionPaused` whatever the counters, blocks and configuration; after
/// a pause and a resume, every application is admitted or refused exactly as
/// before the pause.
pub proof fn lemma_pause_dominance(s: RateLimiterState, app: ApplicationId, block: u64)
    ensures
        (RateLimiterState { paused: true, ..s }).admission(app, block) == Err::<(), RateLimitError>(
            RateLimitError::IngestionPaused,
        ),
        !s.paused ==> (RateLimiterState {
            paused: false,
            ..RateLimiterState { paused: true, ..s }
        }).admission(app, block) == s.admission(app, block),
{
    if !s.paused {
        assert(RateLimiterState { paused: false, ..RateLimiterState { paused: true, ..s } } == s);
    }
}

} // verus!
