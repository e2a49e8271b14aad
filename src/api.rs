//! Responses of the operations and queries, and the read-only projections
//! of the state they carry.

use vstd::prelude::*;

use crate::digest::Digest;
use crate::ids::Owner;
use crate::rbac::{role_grants, Permission, Role};
use crate::state::{CapturedEvent, TimeRange, Timestamp};
use crate::store::AnalyticsState;

verus! {

/// Marker for the interface of the analytics application.
#[derive(Clone, Copy, Debug)]
pub struct AnalyticsAbi;

/// Outcome of a state-changing operation.
#[derive(Clone, Debug)]
pub struct OperationResponse {
    /// Whether the operation succeeded.
    pub success: bool,
    /// Identifier of the captured event, if one was captured.
    pub event_id: Option<u64>,
    /// What went wrong, if anything.
    pub error: Option<String>,
}

impl Default for OperationResponse {
    fn default() -> (r: OperationResponse)
        ensures
            !r.success,
            r.event_id is None,
            r.error is None,
    {
        OperationResponse { success: false, event_id: None, error: None }
    }
}

/// An owner's role and the permissions it grants.
#[derive(Clone, Debug)]
pub struct RBACInfoResponse {
    pub role: Role,
    pub permissions: Vec<Permission>,
}

/// Status of the whole system.
#[derive(Clone, Copy, Debug)]
pub struct SystemHealthResponse {
    pub total_events: u64,
    pub total_applications: usize,
    pub merkle_root: Option<Digest>,
    pub rate_limit_enabled: bool,
    pub ingestion_paused: bool,
}

/// Every permission, in declaration order.
pub open spec fn all_permissions() -> Seq<Permission> {
    seq![
        Permission::AddApplication,
        Permission::RemoveApplication,
        Permission::CaptureEvents,
        Permission::ModifyMetrics,
        Permission::ConfigureSystem,
        Permission::ViewData,
        Permission::ManageRoles,
        Permission::ControlIngestion,
    ]
}

/// The permissions of `ps` that `role` grants, in the order of `ps`.
pub open spec fn granted(role: Role, ps: Seq<Permission>) -> Seq<Permission>
    decreases ps.len(),
{
    if ps.len() == 0 {
        Seq::empty()
    } else if role_grants(role, ps.last()) {
        granted(role, ps.drop_last()).push(ps.last())
    } else {
        granted(role, ps.drop_last())
    }
}

/// Number of events of `events` whose timestamp lies in `range` and in
/// `lo..hi`.
pub open spec fn count_between(events: Seq<CapturedEvent>, range: TimeRange, lo: int, hi: int) -> nat
    decreases events.len(),
{
    if events.len() == 0 {
        0
    } else {
        let t = events.last().timestamp;
        count_between(events.drop_last(), range, lo, hi) + if range.start <= t <= range.end && lo
            <= t < hi {
            1nat
        } else {
            0nat
        }
    }
}

impl AnalyticsState {
    /// The role of `owner` (the admin owner when absent) and, in declaration
    /// order, the permissions it grants.
    pub fn rbac_info(&self, owner: Option<Owner>) -> (r: RBACInfoResponse)
        requires
            self.wf(),
        ensures
            r.role == self.rbac.role_of(
                match owner {
                    Some(o) => o,
                    None => self.admin_owner,
                },
            ),
            r.permissions@ == granted(r.role, all_permissions()),
    {
        let target = match owner {
            Some(o) => o,
            None => self.admin_owner,
        };
        let role = self.rbac.get_role(&target);
        let all = vec![
            Permission::AddApplication,
            Permission::RemoveApplication,
            Permission::CaptureEvents,
            Permission::ModifyMetrics,
            Permission::ConfigureSystem,
            Permission::ViewData,
            Permission::ManageRoles,
            Permission::ControlIngestion,
        ];
        assert(all@ =~= all_permissions());
        let mut permissions: Vec<Permission> = Vec::new();
        let mut i: usize = 0;
        assert(all@.subrange(0, 0) =~= Seq::<Permission>::empty());
        while i < all.len()
            invariant
                0 <= i <= all@.len(),
                permissions@ == granted(role, all@.subrange(0, i as int)),
            decreases all@.len() - i,
        {
            assert(all@.subrange(0, i as int + 1).drop_last() =~= all@.subrange(0, i as int));
            if crate::rbac::RBACState::role_has_permission(&role, &all[i]) {
                permissions.push(all[i]);
            }
            i = i + 1;
        }
        assert(all@.subrange(0, all@.len() as int) =~= all@);
        RBACInfoResponse { role, permissions }
    }

    /// Counters and flags of the whole system.
    pub fn system_health(&self) -> (r: SystemHealthResponse)
        requires
            self.wf(),
        ensures
            r == (SystemHealthResponse {
                total_events: self.total_events_captured,
                total_applications: self.monitored_applications@.len() as usize,
                merkle_root: self.merkle_index.root,
                rate_limit_enabled: self.rate_limiter.config.enabled,
                ingestion_paused: self.rate_limiter.paused,
            }),
    {
        SystemHealthResponse {
            total_events: self.total_events_captured,
            total_applications: self.monitored_applications.len(),
            merkle_root: self.merkle_index.get_root(),
            rate_limit_enabled: self.rate_limiter.config.enabled,
            ingestion_paused: self.rate_limiter.paused,
        }
    }

    /// Event counts over consecutive windows of `granularity_ms` starting at
    /// the range's start, one per window that starts within the range; each
    /// counts the events of the range inside its window.
    pub fn event_counts(&self, range: TimeRange, granularity_ms: u64) -> (r: Vec<(Timestamp, u64)>)
        requires
            granularity_ms > 0,
            range.end as int + granularity_ms <= u64::MAX,
        ensures
            forall|i: int|
                0 <= i < r@.len() ==> {
                    &&& (#[trigger] r@[i]).0 == range.start + i * granularity_ms
                    &&& r@[i].0 <= range.end
                    &&& r@[i].1 == count_between(
                        self.events@,
                        range,
                        r@[i].0 as int,
                        r@[i].0 + granularity_ms,
                    )
                },
            range.start + r@.len() * granularity_ms > range.end,
    {
        let mut points: Vec<(Timestamp, u64)> = Vec::new();
        let mut current = range.start;
        let ghost mut k: int = 0;
        while current <= range.end
            invariant
                granularity_ms > 0,
                range.end as int + granularity_ms <= u64::MAX,
                points@.len() == k,
                current == range.start + k * granularity_ms,
                forall|i: int|
                    0 <= i < points@.len() ==> {
                        &&& (#[trigger] points@[i]).0 == range.start + i * granularity_ms
                        &&& points@[i].0 <= range.end
                        &&& points@[i].1 == count_between(
                            self.events@,
                            range,
                            points@[i].0 as int,
                            points@[i].0 + granularity_ms,
                        )
                    },
            decreases (if current <= range.end { range.end + 1 - current } else { 0 }),
        {
            let bucket_end = current + granularity_ms;
            let n = self.events.len();
            let mut count: u64 = 0;
            let mut j: usize = 0;
            assert(self.events@.subrange(0, 0) =~= Seq::<CapturedEvent>::empty());
            while j < n
                invariant
                    n == self.events@.len(),
                    0 <= j <= n,
                    count <= j,
                    count == count_between(
                        self.events@.subrange(0, j as int),
                        range,
                        current as int,
                        bucket_end as int,
                    ),
                decreases n - j,
            {
                assert(self.events@.subrange(0, j as int + 1).drop_last() =~= self.events@.subrange(
                    0,
                    j as int,
                ));
                let t = self.events[j].timestamp;
                if range.contains(t) && t >= current && t < bucket_end {
                    count = count + 1;
                }
                j = j + 1;
            }
            assert(self.events@.subrange(0, n as int) =~= self.events@);
            points.push((current, count));
            current = bucket_end;
            proof {
                assert((k + 1) * granularity_ms == k * granularity_ms + granularity_ms)
                    by (nonlinear_arith);
                k = k + 1;
            }
        }
        points
    }
}

} // verus!
