//! The event store: the append-only event log, deduplication, secondary
//! indexes, and the components it drives on ingestion.

use vstd::prelude::*;

use crate::digest::Digest;
use crate::error::AnalyticsError;
use crate::ids::{ApplicationId, Owner};
use crate::keyed::{keys_ascending, list_of, lists, KeyedMap};
use crate::merkle::{EventId, MerkleIndex, MAX_LEAVES};
use crate::rate_limit::{RateLimitConfig, RateLimitError, RateLimiterState};
use crate::rbac::RBACState;
use crate::state::{AppConfig, CapturedEvent, Timestamp};

verus! {

/// Depth recorded in a fresh integrity index.
pub const MERKLE_DEPTH: u8 = 16;

/// The set of transaction hashes held by `v`.
pub open spec fn hash_set(v: Seq<String>) -> Set<Seq<char>> {
    Set::new(|h: Seq<char>| exists|i: int| 0 <= i < v.len() && v[i]@ == h)
}

/// Whether the hashes of `v` are pairwise distinct.
pub open spec fn hashes_distinct(v: Seq<String>) -> bool {
    forall|i: int, j: int| 0 <= i < v.len() && 0 <= j < v.len() && i != j ==> v[i]@ != v[j]@
}

/// Authoritative state of the analytics core.
#[derive(Clone, Debug)]
pub struct AnalyticsState {
    /// Monitored applications and their configuration.
    pub monitored_applications: KeyedMap<ApplicationId, AppConfig>,
    /// Primary admin owner.
    pub admin_owner: Owner,
    /// The event log.
    pub events: Vec<CapturedEvent>,
    /// Content hash of each logged event, in log order.
    pub event_hashes: Vec<Digest>,
    /// Event identifiers by timestamp, timestamps ascending.
    pub event_index: KeyedMap<Timestamp, Vec<EventId>>,
    /// Event identifiers by source application.
    pub app_index: KeyedMap<ApplicationId, Vec<EventId>>,
    /// The next identifier to assign.
    pub next_event_id: EventId,
    /// Transaction hashes of captured events (the deduplication set).
    pub tx_hash_index: Vec<String>,
    /// Role-based access control.
    pub rbac: RBACState,
    /// Admission control.
    pub rate_limiter: RateLimiterState,
    /// Integrity index over the logged events.
    pub merkle_index: MerkleIndex,
    /// Events ever captured, cleared ones included.
    pub total_events_captured: u64,
    /// Current block height.
    pub current_block: u64,
}

impl AnalyticsState {
    /// Well-formedness of the state and of every component; event
    /// identifiers strictly increase along the log and are all below the
    /// next one to assign; the integrity index holds exactly the logged
    /// events' content hashes.
    pub open spec fn wf(&self) -> bool {
        &&& self.monitored_applications.wf()
        &&& self.event_index.wf()
        &&& keys_ascending(self.event_index.entries@)
        &&& self.app_index.wf()
        &&& hashes_distinct(self.tx_hash_index@)
        &&& self.event_hashes@.len() == self.events@.len()
        &&& forall|i: int, j: int|
            0 <= i < j < self.events@.len() ==> self.events@[i].id < self.events@[j].id
        &&& forall|i: int| 0 <= i < self.events@.len() ==> self.events@[i].id < self.next_event_id
        &&& self.rbac.wf()
        &&& self.rate_limiter.wf()
        &&& self.merkle_index.wf()
        &&& self.merkle_index.leaf_set() == log_leaves(self.events@, self.event_hashes@)
    }

    /// The deduplication set.
    pub open spec fn tx_set(&self) -> Set<Seq<char>> {
        hash_set(self.tx_hash_index@)
    }

    /// `e` as stored: with the next identifier and the current block.
    pub open spec fn stored_form(&self, e: CapturedEvent) -> CapturedEvent {
        CapturedEvent { id: self.next_event_id, block_height: Some(self.current_block), ..e }
    }

    /// Whether there is room to capture `n` more events.
    pub open spec fn has_room(&self, n: int) -> bool {
        &&& self.next_event_id + n <= u64::MAX
        &&& self.total_events_captured + n <= u64::MAX
        &&& self.merkle_index.leaves@.len() + n <= MAX_LEAVES
    }

    /// `new` is this state with `e` appended to the log under the next
    /// identifier, its hash `h` recorded and indexed, and the counters
    /// advanced; everything else as it was.
    pub open spec fn appended(&self, e: CapturedEvent, h: Digest, new: AnalyticsState) -> bool {
        let s = self.stored_form(e);
        &&& new.wf()
        &&& new.events@ == self.events@.push(s)
        &&& new.event_hashes@ == self.event_hashes@.push(h)
        &&& new.tx_set() == self.tx_set().insert(e.transaction_hash@)
        &&& lists(new.event_index@) == lists(self.event_index@).insert(
            e.timestamp,
            list_of(lists(self.event_index@), e.timestamp).push(s.id),
        )
        &&& lists(new.app_index@) == lists(self.app_index@).insert(
            e.source_app,
            list_of(lists(self.app_index@), e.source_app).push(s.id),
        )
        &&& new.merkle_index.leaf_set() == self.merkle_index.leaf_set().insert(s.id, h@)
        &&& new.merkle_index.depth == self.merkle_index.depth
        &&& new.merkle_index.leaves@.len() <= self.merkle_index.leaves@.len() + 1
        &&& new.next_event_id == self.next_event_id + 1
        &&& new.total_events_captured == self.total_events_captured + 1
        &&& new.monitored_applications == self.monitored_applications
        &&& new.admin_owner == self.admin_owner
        &&& new.rbac == self.rbac
        &&& new.current_block == self.current_block
    }

    /// How a checked capture of `e` with content hash `h` answers `r` and
    /// leaves the state `new`: a duplicate transaction hash is refused with
    /// nothing changed; a refused admission changes only the rate limiter,
    /// as its check does; otherwise the event is admitted and appended.
    pub open spec fn capture_post(
        &self,
        e: CapturedEvent,
        h: Digest,
        r: Result<Option<EventId>, AnalyticsError>,
        new: AnalyticsState,
    ) -> bool {
        if self.tx_set().contains(e.transaction_hash@) {
            &&& r == Err::<Option<EventId>, AnalyticsError>(
                AnalyticsError::DuplicateEvent(e.transaction_hash),
            )
            &&& new == *self
        } else {
            &&& self.rate_limiter.check_post(e.source_app, self.current_block, new.rate_limiter)
            &&& match self.rate_limiter.admission(e.source_app, self.current_block) {
                Err(err) => {
                    &&& r == Err::<Option<EventId>, AnalyticsError>(
                        AnalyticsError::RateLimitError(err),
                    )
                    &&& new == AnalyticsState { rate_limiter: new.rate_limiter, ..*self }
                },
                Ok(_) => {
                    &&& r == Ok::<Option<EventId>, AnalyticsError>(Some(self.next_event_id))
                    &&& (AnalyticsState { rate_limiter: new.rate_limiter, ..*self }).appended(
                        e,
                        h,
                        new,
                    )
                },
            }
        }
    }

    /// Nothing captured, indexed or monitored yet; a rate limiter with the
    /// default configuration and no counts or blocks; an empty integrity
    /// index.
    pub open spec fn fresh(&self) -> bool {
        &&& self.rate_limiter.config == crate::rate_limit::default_config()
        &&& !self.rate_limiter.paused
        &&& self.rate_limiter.app_counters@ == Map::<ApplicationId, crate::rate_limit::BlockEventCount>::empty()
        &&& self.rate_limiter.blocked_apps@ == Map::<ApplicationId, u64>::empty()
        &&& self.rate_limiter.global_counter == (crate::rate_limit::BlockEventCount {
            block_height: 0,
            count: 0,
        })
        &&& self.events@.len() == 0
        &&& self.event_hashes@.len() == 0
        &&& self.tx_set() == Set::<Seq<char>>::empty()
        &&& self.event_index@ == Map::<Timestamp, Vec<EventId>>::empty()
        &&& self.app_index@ == Map::<ApplicationId, Vec<EventId>>::empty()
        &&& self.monitored_applications@ == Map::<ApplicationId, AppConfig>::empty()
        &&& self.merkle_index.leaf_set() == Map::<EventId, Seq<u8>>::empty()
        &&& self.merkle_index.root.is_none()
        &&& self.merkle_index.depth == MERKLE_DEPTH
        &&& self.next_event_id == 0
        &&& self.total_events_captured == 0
        &&& self.current_block == 0
    }

    /// A state with `admin_owner` as super admin, the default rate limit
    /// configuration, and nothing captured.
    pub fn new(admin_owner: Owner) -> (r: AnalyticsState)
        ensures
            r.wf(),
            r.admin_owner == admin_owner,
            r.rbac.super_admin == Some(admin_owner),
            r.rbac.roles@ == map![admin_owner => crate::rbac::Role::SuperAdmin],
            r.fresh(),
    {
        let r = AnalyticsState {
            monitored_applications: KeyedMap::new(),
            admin_owner,
            events: Vec::new(),
            event_hashes: Vec::new(),
            event_index: KeyedMap::new(),
            app_index: KeyedMap::new(),
            next_event_id: 0,
            tx_hash_index: Vec::new(),
            rbac: RBACState::new(admin_owner),
            rate_limiter: RateLimiterState::new(RateLimitConfig::default()),
            merkle_index: MerkleIndex::new(MERKLE_DEPTH),
            total_events_captured: 0,
            current_block: 0,
        };
        assert(r.tx_set() =~= Set::<Seq<char>>::empty());
        r
    }

    /// Whether an event with transaction hash `tx_hash` was captured.
    pub fn is_duplicate_tx(&self, tx_hash: &str) -> (r: bool)
        ensures
            r == self.tx_set().contains(tx_hash@),
    {
        let wanted = tx_hash.to_owned();
        let mut i: usize = 0;
        while i < self.tx_hash_index.len()
            invariant
                wanted@ == tx_hash@,
                0 <= i <= self.tx_hash_index@.len(),
                forall|j: int| 0 <= j < i ==> self.tx_hash_index@[j]@ != tx_hash@,
            decreases self.tx_hash_index@.len() - i,
        {
            if self.tx_hash_index[i] == wanted {
                return true;
            }
            i = i + 1;
        }
        false
    }

    /// Sets the current block height.
    pub fn set_block_height(&mut self, block: u64)
        ensures
            *final(self) == (AnalyticsState { current_block: block, ..*old(self) }),
    {
        self.current_block = block;
    }

    /// Adds `tx_hash` to the deduplication set.
    fn record_tx(&mut self, tx_hash: &String)
        requires
            hashes_distinct(old(self).tx_hash_index@),
        ensures
            hashes_distinct(final(self).tx_hash_index@),
            final(self).tx_set() == old(self).tx_set().insert(tx_hash@),
            *final(self) == (AnalyticsState { tx_hash_index: final(self).tx_hash_index, ..*old(self) }),
    {
        let ghost s = self.tx_hash_index@;
        let mut i: usize = 0;
        while i < self.tx_hash_index.len()
            invariant
                self.tx_hash_index@ == s,
                hashes_distinct(s),
                0 <= i <= s.len(),
                forall|j: int| 0 <= j < i ==> s[j]@ != tx_hash@,
            decreases s.len() - i,
        {
            if self.tx_hash_index[i] == *tx_hash {
                assert(hash_set(s).insert(tx_hash@) =~= hash_set(s));
                return;
            }
            i = i + 1;
        }
        self.tx_hash_index.push(tx_hash.clone());
        proof {
            let t = self.tx_hash_index@;
            assert(t[s.len() as int]@ == tx_hash@);
            assert forall|h: Seq<char>| hash_set(t).contains(h) == hash_set(s).insert(tx_hash@).contains(h) by {
                if hash_set(s).contains(h) {
                    let j = choose|j: int| 0 <= j < s.len() && s[j]@ == h;
                    assert(t[j]@ == h);
                }
                if hash_set(t).contains(h) && h != tx_hash@ {
                    let j = choose|j: int| 0 <= j < t.len() && t[j]@ == h;
                    assert(s[j]@ == h);
                }
            }
            assert(hash_set(t) =~= hash_set(s).insert(tx_hash@));
        }
    }

    /// Captures `event` with content hash `content_hash` without the
    /// duplicate and admission checks: assigns the next identifier and the
    /// current block, logs and indexes it, and counts it.
    pub fn capture_event_internal(&mut self, event: CapturedEvent, content_hash: Digest) -> (r:
        EventId)
        requires
            old(self).wf(),
            old(self).has_room(1),
        ensures
            r == old(self).next_event_id,
            old(self).appended(event, content_hash, *final(self)),
            final(self).rate_limiter == old(self).rate_limiter,
    {
        let mut event = event;
        let id = self.next_event_id;
        event.id = id;
        self.next_event_id = self.next_event_id + 1;
        event.block_height = Some(self.current_block);
        self.record_tx(&event.transaction_hash);
        let ts = event.timestamp;
        let app = event.source_app;
        self.events.push(event);
        self.event_hashes.push(content_hash);
        self.event_index.append_sorted(ts, id);
        self.app_index.append(app, id);
        self.merkle_index.insert_hash(id, content_hash);
        self.total_events_captured = self.total_events_captured + 1;
        assert(self.events@.drop_last() =~= old(self).events@);
        assert(self.event_hashes@.drop_last() =~= old(self).event_hashes@);
        id
    }

    /// Captures `event` with content hash `content_hash` after the duplicate
    /// check and the admission check; returns the identifier assigned.
    pub fn capture_event_with_checks(&mut self, event: CapturedEvent, content_hash: Digest) -> (r:
        Result<Option<EventId>, AnalyticsError>)
        requires
            old(self).wf(),
            old(self).has_room(1),
            old(self).current_block as int + old(self).rate_limiter.config.cooldown_blocks <= u64::MAX,
        ensures
            final(self).wf(),
            old(self).capture_post(event, content_hash, r, *final(self)),
    {
        if self.is_duplicate_tx(event.transaction_hash.as_str()) {
            return Err(AnalyticsError::DuplicateEvent(event.transaction_hash));
        }
        let block = self.current_block;
        let ghost before = *self;
        match self.rate_limiter.check_and_increment(&event.source_app, block) {
            Err(e) => {
                return Err(AnalyticsError::RateLimitError(e));
            },
            Ok(()) => {},
        }
        let ghost mid = *self;
        assert(mid == AnalyticsState { rate_limiter: mid.rate_limiter, ..before });
        let id = self.capture_event_internal(event, content_hash);
        Ok(Some(id))
    }
}

} // verus!

verus! {

/// Submitting two events with the same transaction hash admits at most the
/// first: once the first is admitted, the second is refused as a duplicate,
/// changes nothing, and the lifetime capture count has grown by exactly one.
pub proof fn lemma_dedup_idempotence(
    s0: AnalyticsState,
    e1: CapturedEvent,
    h1: Digest,
    r1: Result<Option<EventId>, AnalyticsError>,
    s1: AnalyticsState,
    e2: CapturedEvent,
    h2: Digest,
    r2: Result<Option<EventId>, AnalyticsError>,
    s2: AnalyticsState,
)
    requires
        s0.wf(),
        s0.capture_post(e1, h1, r1, s1),
        r1 is Ok,
        s1.capture_post(e2, h2, r2, s2),
        e2.transaction_hash@ == e1.transaction_hash@,
    ensures
        r2 == Err::<Option<EventId>, AnalyticsError>(
            AnalyticsError::DuplicateEvent(e2.transaction_hash),
        ),
        s2 == s1,
        s2.total_events_captured == s0.total_events_captured + 1,
{
    assert(s1.tx_set().contains(e1.transaction_hash@));
}

} // verus!

verus! {

/// The identifier of the last admitted capture among `results`, if any.
pub open spec fn last_admitted(results: Seq<Result<Option<EventId>, AnalyticsError>>) -> Option<
    EventId,
>
    decreases results.len(),
{
    if results.len() == 0 {
        None
    } else {
        match results.last() {
            Ok(Some(id)) => Some(id),
            _ => last_admitted(results.drop_last()),
        }
    }
}

/// Whether `states` and `results` record capturing each of `items` in turn
/// with the checks, from `start` to `end`.
pub open spec fn batch_chain(
    start: AnalyticsState,
    items: Seq<(CapturedEvent, Digest)>,
    states: Seq<AnalyticsState>,
    results: Seq<Result<Option<EventId>, AnalyticsError>>,
    end: AnalyticsState,
) -> bool {
    &&& states.len() == items.len() + 1
    &&& results.len() == items.len()
    &&& states[0] == start
    &&& states.last() == end
    &&& forall|i: int|
        0 <= i < items.len() ==> #[trigger] states[i].capture_post(
            items[i].0,
            items[i].1,
            results[i],
            states[i + 1],
        )
}

/// The leaf set obtained by inserting each logged event's hash in log order.
pub open spec fn log_leaves(events: Seq<CapturedEvent>, hashes: Seq<Digest>) -> Map<EventId, Seq<u8>>
    decreases events.len(),
{
    if events.len() == 0 {
        Map::empty()
    } else {
        log_leaves(events.drop_last(), hashes.drop_last()).insert(
            events.last().id,
            hashes[events.len() - 1]@,
        )
    }
}

/// Administrative operations.
#[derive(Clone, Copy, Debug)]
pub enum AdminOperation {
    /// Pause all ingestion.
    PauseIngestion,
    /// Resume ingestion.
    ResumeIngestion,
    /// Set both per-block maxima of the rate limiter.
    SetRateLimit { max_events_per_app_per_block: u64, max_total_events_per_block: u64 },
    /// Clear every event and index.
    ClearEvents,
    /// Rebuild the integrity index from the log.
    RebuildMerkleIndex,
    /// Make another owner the super admin.
    TransferSuperAdmin { new_admin: Owner },
}

impl AnalyticsState {
    /// Captures each item (an event and its content hash) in turn with the
    /// checks; a refused item does not stop the batch. Returns the
    /// identifier of the last admitted event.
    pub fn capture_event_batch(&mut self, items: &Vec<(CapturedEvent, Digest)>) -> (r: Option<
        EventId,
    >)
        requires
            old(self).wf(),
            old(self).has_room(items@.len() as int),
            old(self).current_block as int + old(self).rate_limiter.config.cooldown_blocks <= u64::MAX,
        ensures
            final(self).wf(),
            exists|states: Seq<AnalyticsState>, results: Seq<Result<Option<EventId>, AnalyticsError>>|
                batch_chain(*old(self), items@, states, results, *final(self)) && r
                    == last_admitted(results),
    {
        let ghost start = *self;
        let ghost mut states: Seq<AnalyticsState> = seq![*self];
        let ghost mut results: Seq<Result<Option<EventId>, AnalyticsError>> = Seq::empty();
        let mut last_id: Option<EventId> = None;
        let n = items.len();
        let mut i: usize = 0;
        while i < n
            invariant
                n == items@.len(),
                0 <= i <= n,
                self.wf(),
                self.has_room((n - i) as int),
                self.current_block == start.current_block,
                self.rate_limiter.config == start.rate_limiter.config,
                start.current_block as int + start.rate_limiter.config.cooldown_blocks <= u64::MAX,
                batch_chain(start, items@.subrange(0, i as int), states, results, *self),
                last_id == last_admitted(results),
            decreases n - i,
        {
            let event = items[i].0.duplicate();
            let hash = items[i].1;
            let ghost before = *self;
            let r = self.capture_event_with_checks(event, hash);
            if let Ok(Some(id)) = r {
                last_id = Some(id);
            }
            proof {
                let ghost old_states = states;
                let ghost old_results = results;
                states = states.push(*self);
                results = results.push(r);
                assert(results.drop_last() == old_results);
                assert forall|j: int| 0 <= j < i + 1 implies #[trigger] states[j].capture_post(
                    items@.subrange(0, i + 1)[j].0,
                    items@.subrange(0, i + 1)[j].1,
                    results[j],
                    states[j + 1],
                ) by {
                    if j < i {
                        assert(items@.subrange(0, i + 1)[j] == items@.subrange(0, i as int)[j]);
                        assert(states[j] == old_states[j]);
                        assert(states[j + 1] == old_states[j + 1]);
                        assert(results[j] == old_results[j]);
                    } else {
                        assert(states[j] == before);
                    }
                }
            }
            i = i + 1;
        }
        assert(items@.subrange(0, n as int) =~= items@);
        last_id
    }

    /// How an administrative operation leaves the state `new`.
    pub open spec fn admin_post(&self, action: AdminOperation, new: AnalyticsState) -> bool {
        match action {
            AdminOperation::PauseIngestion => new == (AnalyticsState {
                rate_limiter: RateLimiterState { paused: true, ..self.rate_limiter },
                ..*self
            }),
            AdminOperation::ResumeIngestion => new == (AnalyticsState {
                rate_limiter: RateLimiterState { paused: false, ..self.rate_limiter },
                ..*self
            }),
            AdminOperation::SetRateLimit {
                max_events_per_app_per_block,
                max_total_events_per_block,
            } => new == (AnalyticsState {
                rate_limiter: RateLimiterState {
                    config: RateLimitConfig {
                        max_events_per_app_per_block,
                        max_total_events_per_block,
                        ..self.rate_limiter.config
                    },
                    ..self.rate_limiter
                },
                ..*self
            }),
            AdminOperation::ClearEvents => {
                &&& new.events@.len() == 0
                &&& new.event_hashes@.len() == 0
                &&& new.event_index@ == Map::<Timestamp, Vec<EventId>>::empty()
                &&& new.app_index@ == Map::<ApplicationId, Vec<EventId>>::empty()
                &&& new.tx_set() == Set::<Seq<char>>::empty()
                &&& new.merkle_index.leaf_set() == Map::<EventId, Seq<u8>>::empty()
                &&& new.merkle_index.root.is_none()
                &&& new.merkle_index.depth == MERKLE_DEPTH
                &&& new == (AnalyticsState {
                    events: new.events,
                    event_hashes: new.event_hashes,
                    event_index: new.event_index,
                    app_index: new.app_index,
                    tx_hash_index: new.tx_hash_index,
                    merkle_index: new.merkle_index,
                    ..*self
                })
            },
            AdminOperation::RebuildMerkleIndex => {
                &&& new.merkle_index.leaf_set() == log_leaves(
                    self.events@,
                    self.event_hashes@,
                )
                &&& new.merkle_index.depth == MERKLE_DEPTH
                &&& new == (AnalyticsState {
                    merkle_index: new.merkle_index,
                    ..*self
                })
            },
            AdminOperation::TransferSuperAdmin { new_admin } => {
                &&& new.admin_owner == new_admin
                &&& new.rbac.super_admin == Some(new_admin)
                &&& new.rbac.roles@ == map![new_admin => crate::rbac::Role::SuperAdmin]
                &&& new == (AnalyticsState {
                    admin_owner: new_admin,
                    rbac: new.rbac,
                    ..*self
                })
            },
        }
    }

    /// Applies an administrative operation.
    pub fn execute_admin_action(&mut self, action: AdminOperation)
        requires
            old(self).wf(),
            action is RebuildMerkleIndex ==> old(self).events@.len() <= MAX_LEAVES,
        ensures
            final(self).wf(),
            old(self).admin_post(action, *final(self)),
    {
        match action {
            AdminOperation::PauseIngestion => {
                self.rate_limiter.pause();
            },
            AdminOperation::ResumeIngestion => {
                self.rate_limiter.resume();
            },
            AdminOperation::SetRateLimit { max_events_per_app_per_block, max_total_events_per_block } =>
                {
                let mut config = self.rate_limiter.config;
                config.max_events_per_app_per_block = max_events_per_app_per_block;
                config.max_total_events_per_block = max_total_events_per_block;
                self.rate_limiter.update_config(config);
            },
            AdminOperation::ClearEvents => {
                self.events.clear();
                self.event_hashes.clear();
                self.event_index.clear();
                self.app_index.clear();
                self.tx_hash_index.clear();
                self.merkle_index = MerkleIndex::new(MERKLE_DEPTH);
                assert(self.tx_set() =~= Set::<Seq<char>>::empty());
            },
            AdminOperation::RebuildMerkleIndex => {
                self.rebuild_merkle_index();
            },
            AdminOperation::TransferSuperAdmin { new_admin } => {
                self.admin_owner = new_admin;
                self.rbac = RBACState::new(new_admin);
            },
        }
    }

    /// Resets the integrity index and reinserts every logged event's content
    /// hash, in log order.
    fn rebuild_merkle_index(&mut self)
        requires
            old(self).wf(),
            old(self).events@.len() <= MAX_LEAVES,
        ensures
            final(self).wf(),
            final(self).merkle_index.leaf_set() == log_leaves(old(self).events@, old(self).event_hashes@),
            final(self).merkle_index.depth == MERKLE_DEPTH,
            *final(self) == (AnalyticsState { merkle_index: final(self).merkle_index, ..*old(self) }),
    {
        let ghost start = *self;
        let mut index = MerkleIndex::new(MERKLE_DEPTH);
        let n = self.events.len();
        let mut i: usize = 0;
        assert(start.events@.subrange(0, 0) =~= Seq::<CapturedEvent>::empty());
        while i < n
            invariant
                *self == start,
                self.wf(),
                n == self.events@.len(),
                n <= MAX_LEAVES,
                0 <= i <= n,
                index.wf(),
                index.depth == MERKLE_DEPTH,
                index.leaves@.len() <= i,
                index.leaf_set() == log_leaves(
                    self.events@.subrange(0, i as int),
                    self.event_hashes@.subrange(0, i as int),
                ),
            decreases n - i,
        {
            index.insert_hash(self.events[i].id, self.event_hashes[i]);
            proof {
                let ev = self.events@.subrange(0, i as int + 1);
                let hs = self.event_hashes@.subrange(0, i as int + 1);
                assert(ev.drop_last() =~= self.events@.subrange(0, i as int));
                assert(hs.drop_last() =~= self.event_hashes@.subrange(0, i as int));
            }
            i = i + 1;
        }
        assert(self.events@.subrange(0, n as int) =~= self.events@);
        assert(self.event_hashes@.subrange(0, n as int) =~= self.event_hashes@);
        self.merkle_index = index;
    }
}

} // verus!

verus! {

impl AnalyticsState {
    /// How `caller` assigning `role` to `target` answers `r` and leaves the
    /// state `new`: refused with `Unauthorized` unless the caller may manage
    /// the target; refused when it would demote the super admin; otherwise
    /// the assignment is made. Only the role state changes.
    pub open spec fn assign_role_post(
        &self,
        caller: Owner,
        target: Owner,
        role: crate::rbac::Role,
        r: Result<(), AnalyticsError>,
        new: AnalyticsState,
    ) -> bool {
        &&& new == AnalyticsState { rbac: new.rbac, ..*self }
        &&& new.rbac.super_admin == self.rbac.super_admin
        &&& if !crate::rbac::role_manages(self.rbac.role_of(caller), self.rbac.role_of(target)) {
            r == Err::<(), AnalyticsError>(AnalyticsError::Unauthorized) && new.rbac == self.rbac
        } else if self.rbac.super_admin == Some(target) && role != crate::rbac::Role::SuperAdmin {
            &&& r == Err::<(), AnalyticsError>(
                AnalyticsError::RBACError(crate::rbac::RBACError::CannotDemoteSuperAdmin),
            )
            &&& new.rbac == self.rbac
        } else {
            r is Ok && new.rbac.roles@ == self.rbac.roles@.insert(target, role)
        }
    }

    /// How `caller` removing `target`'s role answers `r` and leaves the
    /// state `new`: refused with `Unauthorized` unless the caller may manage
    /// the target; refused for the super admin; otherwise the assignment is
    /// removed. Only the role state changes.
    pub open spec fn remove_role_post(
        &self,
        caller: Owner,
        target: Owner,
        r: Result<(), AnalyticsError>,
        new: AnalyticsState,
    ) -> bool {
        &&& new == AnalyticsState { rbac: new.rbac, ..*self }
        &&& new.rbac.super_admin == self.rbac.super_admin
        &&& if !crate::rbac::role_manages(self.rbac.role_of(caller), self.rbac.role_of(target)) {
            r == Err::<(), AnalyticsError>(AnalyticsError::Unauthorized) && new.rbac == self.rbac
        } else if self.rbac.super_admin == Some(target) {
            &&& r == Err::<(), AnalyticsError>(
                AnalyticsError::RBACError(crate::rbac::RBACError::CannotDemoteSuperAdmin),
            )
            &&& new.rbac == self.rbac
        } else {
            r is Ok && new.rbac.roles@ == self.rbac.roles@.remove(target)
        }
    }

    /// `new` monitors `application_id` with a fresh configuration for
    /// `chain_id` and `graphql_endpoint`; nothing else changes.
    pub open spec fn add_app_post(
        &self,
        application_id: ApplicationId,
        chain_id: crate::ids::ChainId,
        graphql_endpoint: String,
        new: AnalyticsState,
    ) -> bool {
        &&& new.monitored_applications@.dom() == self.monitored_applications@.dom().insert(
            application_id,
        )
        &&& ({
            let c = new.monitored_applications@[application_id];
            &&& c.application_id == application_id
            &&& c.chain_id == chain_id
            &&& c.graphql_endpoint == graphql_endpoint
            &&& c.enabled
            &&& c.custom_metrics@.len() == 0
            &&& c.priority == 0
            &&& c.tags@.len() == 0
        })
        &&& forall|a: ApplicationId|
            a != application_id && #[trigger] self.monitored_applications@.contains_key(a)
                ==> new.monitored_applications@[a] == self.monitored_applications@[a]
        &&& new == AnalyticsState { monitored_applications: new.monitored_applications, ..*self }
    }

    /// Succeeds when `caller`'s role grants `permission`; fails with
    /// `Unauthorized` otherwise.
    pub fn require_permission(&self, caller: &Owner, permission: &crate::rbac::Permission) -> (r:
        Result<(), AnalyticsError>)
        requires
            self.wf(),
        ensures
            r is Ok == crate::rbac::role_grants(self.rbac.role_of(*caller), *permission),
            r matches Err(e) ==> e == AnalyticsError::Unauthorized,
    {
        if self.rbac.has_permission(caller, permission) {
            Ok(())
        } else {
            Err(AnalyticsError::Unauthorized)
        }
    }

    /// `caller` assigns `role` to `target`: refused with `Unauthorized`
    /// unless the caller may manage the target, then as role assignment does.
    pub fn assign_role(&mut self, caller: &Owner, target: Owner, role: crate::rbac::Role) -> (r:
        Result<(), AnalyticsError>)
        requires
            old(self).wf(),
        ensures
            final(self).wf(),
            old(self).assign_role_post(*caller, target, role, r, *final(self)),
    {
        if !self.rbac.can_manage(caller, &target) {
            return Err(AnalyticsError::Unauthorized);
        }
        match self.rbac.assign_role(target, role) {
            Ok(()) => Ok(()),
            Err(e) => Err(AnalyticsError::RBACError(e)),
        }
    }

    /// `caller` removes `target`'s role: refused with `Unauthorized` unless
    /// the caller may manage the target, then as role removal does.
    pub fn remove_role(&mut self, caller: &Owner, target: &Owner) -> (r: Result<(), AnalyticsError>)
        requires
            old(self).wf(),
        ensures
            final(self).wf(),
            old(self).remove_role_post(*caller, *target, r, *final(self)),
    {
        if !self.rbac.can_manage(caller, target) {
            return Err(AnalyticsError::Unauthorized);
        }
        match self.rbac.remove_role(target) {
            Ok(()) => Ok(()),
            Err(e) => Err(AnalyticsError::RBACError(e)),
        }
    }

    /// Starts monitoring `application_id` with a fresh configuration,
    /// replacing any earlier one.
    pub fn add_monitored_app(
        &mut self,
        application_id: ApplicationId,
        chain_id: crate::ids::ChainId,
        graphql_endpoint: String,
    )
        requires
            old(self).wf(),
        ensures
            final(self).wf(),
            old(self).add_app_post(application_id, chain_id, graphql_endpoint, *final(self)),
    {
        let config = AppConfig::new(application_id, chain_id, graphql_endpoint);
        self.monitored_applications.insert(application_id, config);
    }

    /// Stops monitoring `application_id`.
    pub fn remove_monitored_app(&mut self, application_id: &ApplicationId)
        requires
            old(self).wf(),
        ensures
            final(self).wf(),
            final(self).monitored_applications@ == old(self).monitored_applications@.remove(
                *application_id,
            ),
            *final(self) == (AnalyticsState {
                monitored_applications: final(self).monitored_applications,
                ..*old(self)
            }),
    {
        self.monitored_applications.remove(application_id);
    }

    /// Replaces the configuration of `application_id` with `config`.
    pub fn update_app_config(&mut self, application_id: ApplicationId, config: AppConfig)
        requires
            old(self).wf(),
        ensures
            final(self).wf(),
            final(self).monitored_applications@ == old(self).monitored_applications@.insert(
                application_id,
                config,
            ),
            *final(self) == (AnalyticsState {
                monitored_applications: final(self).monitored_applications,
                ..*old(self)
            }),
    {
        self.monitored_applications.insert(application_id, config);
    }
}

} // verus!

verus! {

/// The first event of `events` with identifier `id`.
pub open spec fn find_event(events: Seq<CapturedEvent>, id: EventId) -> Option<CapturedEvent>
    decreases events.len(),
{
    if events.len() == 0 {
        None
    } else if events[0].id == id {
        Some(events[0])
    } else {
        find_event(events.drop_first(), id)
    }
}

/// The events found for `ids`, in the order of `ids`, skipping identifiers
/// with no event.
pub open spec fn events_for_ids(events: Seq<CapturedEvent>, ids: Seq<EventId>) -> Seq<CapturedEvent>
    decreases ids.len(),
{
    if ids.len() == 0 {
        Seq::empty()
    } else {
        events_for_ids(events, ids.drop_last()) + match find_event(events, ids.last()) {
            Some(e) => seq![e],
            None => Seq::empty(),
        }
    }
}

/// The events of the index entries whose timestamp lies in `start..=end`, in
/// entry order.
pub open spec fn range_events(
    events: Seq<CapturedEvent>,
    entries: Seq<(Timestamp, Vec<EventId>)>,
    start: Timestamp,
    end: Timestamp,
) -> Seq<CapturedEvent>
    decreases entries.len(),
{
    if entries.len() == 0 {
        Seq::empty()
    } else {
        range_events(events, entries.drop_last(), start, end) + if start <= entries.last().0
            <= end {
            events_for_ids(events, entries.last().1@)
        } else {
            Seq::empty()
        }
    }
}

/// Appends to `out` the event found for each of `ids`.
fn push_events_for(events: &Vec<CapturedEvent>, ids: &Vec<EventId>, out: &mut Vec<CapturedEvent>)
    ensures
        final(out)@ == old(out)@ + events_for_ids(events@, ids@),
{
    let ghost start = out@;
    let mut i: usize = 0;
    assert(ids@.subrange(0, 0) =~= Seq::<EventId>::empty());
    assert(start + Seq::<CapturedEvent>::empty() =~= start);
    while i < ids.len()
        invariant
            0 <= i <= ids@.len(),
            out@ == start + events_for_ids(events@, ids@.subrange(0, i as int)),
        decreases ids@.len() - i,
    {
        let ghost before = out@;
        assert(ids@.subrange(0, i as int + 1).drop_last() =~= ids@.subrange(0, i as int));
        match find_in(events, ids[i]) {
            Some(k) => {
                out.push(events[k].duplicate());
                assert(out@ =~= before + seq![events@[k as int]]);
            },
            None => {
                assert(out@ =~= before + Seq::<CapturedEvent>::empty());
            },
        }
        i = i + 1;
        assert(out@ =~= start + events_for_ids(events@, ids@.subrange(0, i as int)));
    }
    assert(ids@.subrange(0, ids@.len() as int) =~= ids@);
}

/// Position of the first event with identifier `id`.
fn find_in(events: &Vec<CapturedEvent>, id: EventId) -> (r: Option<usize>)
    ensures
        r is None ==> find_event(events@, id) is None,
        r matches Some(k) ==> k < events@.len() && find_event(events@, id) == Some(events@[k as int]),
{
    let n = events.len();
    let mut i: usize = 0;
    assert(events@.subrange(0, n as int) =~= events@);
    while i < n
        invariant
            n == events@.len(),
            0 <= i <= n,
            find_event(events@, id) == find_event(events@.subrange(i as int, n as int), id),
        decreases n - i,
    {
        let ghost rest = events@.subrange(i as int, n as int);
        assert(rest.drop_first() =~= events@.subrange(i as int + 1, n as int));
        if events[i].id == id {
            return Some(i);
        }
        i = i + 1;
    }
    None
}

impl AnalyticsState {
    /// The first logged event with identifier `event_id`.
    pub fn get_event(&self, event_id: EventId) -> (r: Option<&CapturedEvent>)
        ensures
            r is None ==> find_event(self.events@, event_id) is None,
            r matches Some(e) ==> find_event(self.events@, event_id) == Some(*e),
    {
        match find_in(&self.events, event_id) {
            Some(k) => Some(&self.events[k]),
            None => None,
        }
    }

    /// The events of application `app_id`, in capture order.
    pub fn get_app_events(&self, app_id: &ApplicationId) -> (r: Vec<CapturedEvent>)
        requires
            self.wf(),
        ensures
            r@ == events_for_ids(self.events@, list_of(lists(self.app_index@), *app_id)),
    {
        let mut out: Vec<CapturedEvent> = Vec::new();
        match self.app_index.get(app_id) {
            Some(ids) => {
                push_events_for(&self.events, ids, &mut out);
                assert(out@ =~= events_for_ids(self.events@, ids@));
            },
            None => {
                assert(list_of(lists(self.app_index@), *app_id) =~= Seq::<EventId>::empty());
                assert(out@ =~= events_for_ids(self.events@, Seq::<EventId>::empty()));
            },
        }
        out
    }

    /// The events whose timestamp lies in `start..=end`, ordered by
    /// timestamp and then by capture.
    pub fn get_events_in_range(&self, start: Timestamp, end: Timestamp) -> (r: Vec<CapturedEvent>)
        requires
            self.wf(),
        ensures
            r@ == range_events(self.events@, self.event_index.entries@, start, end),
    {
        let ghost entries = self.event_index.entries@;
        let mut out: Vec<CapturedEvent> = Vec::new();
        let n = self.event_index.entries.len();
        let mut i: usize = 0;
        assert(entries.subrange(0, 0) =~= Seq::<(Timestamp, Vec<EventId>)>::empty());
        while i < n
            invariant
                n == entries.len(),
                entries == self.event_index.entries@,
                0 <= i <= n,
                out@ == range_events(self.events@, entries.subrange(0, i as int), start, end),
            decreases n - i,
        {
            let ghost before = out@;
            assert(entries.subrange(0, i as int + 1).drop_last() =~= entries.subrange(0, i as int));
            let ts = self.event_index.entries[i].0;
            if start <= ts && ts <= end {
                push_events_for(&self.events, &self.event_index.entries[i].1, &mut out);
            } else {
                assert(out@ =~= before + Seq::<CapturedEvent>::empty());
            }
            i = i + 1;
        }
        assert(entries.subrange(0, n as int) =~= entries);
        out
    }
}

} // verus!

verus! {

/// The events of `events` with identifier at least `from`, in order.
pub open spec fn events_since(events: Seq<CapturedEvent>, from: EventId) -> Seq<CapturedEvent>
    decreases events.len(),
{
    if events.len() == 0 {
        Seq::empty()
    } else if events.last().id >= from {
        events_since(events.drop_last(), from).push(events.last())
    } else {
        events_since(events.drop_last(), from)
    }
}

impl AnalyticsState {
    /// The logged events with identifier at least `from_event_id`, in log
    /// order: what a synchronisation request is answered with.
    pub fn events_from(&self, from_event_id: EventId) -> (r: Vec<CapturedEvent>)
        ensures
            r@ == events_since(self.events@, from_event_id),
    {
        let mut out: Vec<CapturedEvent> = Vec::new();
        let n = self.events.len();
        let mut i: usize = 0;
        assert(self.events@.subrange(0, 0) =~= Seq::<CapturedEvent>::empty());
        while i < n
            invariant
                n == self.events@.len(),
                0 <= i <= n,
                out@ == events_since(self.events@.subrange(0, i as int), from_event_id),
            decreases n - i,
        {
            assert(self.events@.subrange(0, i as int + 1).drop_last() =~= self.events@.subrange(
                0,
                i as int,
            ));
            if self.events[i].id >= from_event_id {
                out.push(self.events[i].duplicate());
            }
            i = i + 1;
        }
        assert(self.events@.subrange(0, n as int) =~= self.events@);
        out
    }
}

} // verus!

verus! {

impl Default for AnalyticsState {
    /// A state whose admin is the all-zero 20-byte address.
    fn default() -> (r: AnalyticsState)
        ensures
            r.wf(),
            r.admin_owner matches Owner::Address20(a) && a@ == Seq::new(20, |i: int| 0u8),
            r.rbac.super_admin == Some(r.admin_owner),
            r.rbac.roles@ == map![r.admin_owner => crate::rbac::Role::SuperAdmin],
            r.fresh(),
    {
        let zero = [0u8; 20];
        assert(zero@ =~= Seq::new(20, |i: int| 0u8));
        AnalyticsState::new(Owner::Address20(zero))
    }
}

} // verus!

verus! {

/// Rebuilding the integrity index from the log leaves its root unchanged:
/// the index always holds exactly the logged content hashes, and the root
/// depends on the leaf set alone.
pub proof fn lemma_rebuild_keeps_root(before: AnalyticsState, after: AnalyticsState)
    requires
        before.wf(),
        after.wf(),
        before.admin_post(AdminOperation::RebuildMerkleIndex, after),
    ensures
        after.merkle_index.root_view() == before.merkle_index.root_view(),
{
    crate::merkle::lemma_root_determined_by_leaf_set(before.merkle_index, after.merkle_index);
}

} // verus!
