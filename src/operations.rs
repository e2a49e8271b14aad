//! State-changing operations: the permission each requires, and their
//! dispatch onto the state.

use vstd::prelude::*;

use crate::digest::Digest;
use crate::error::AnalyticsError;
use crate::ids::{ApplicationId, ChainId, Owner};
use crate::merkle::{EventId, MAX_LEAVES};
use crate::rate_limit::{RateLimitConfig, RateLimiterState};
use crate::rbac::{role_grants, Permission, Role};
use crate::state::{AppConfig, CapturedEvent, TransactionRecord};
use crate::store::{batch_chain, last_admitted, AdminOperation, AnalyticsState};

verus! {

/// Operations that modify the state. An event travels with its content
/// hash.
#[derive(Clone, Debug)]
pub enum Operation {
    AddMonitoredApp { application_id: ApplicationId, chain_id: ChainId, graphql_endpoint: String },
    RemoveMonitoredApp { application_id: ApplicationId },
    UpdateAppConfig { application_id: ApplicationId, config: AppConfig },
    CaptureEvent { event: CapturedEvent, content_hash: Digest },
    CaptureTransaction { transaction: TransactionRecord },
    CaptureEventBatch { events: Vec<(CapturedEvent, Digest)> },
    AdminAction { action: AdminOperation },
    AssignRole { target: Owner, role: Role },
    RemoveRole { target: Owner },
    UpdateRateLimitConfig { config: RateLimitConfig },
    PauseIngestion,
    ResumeIngestion,
    UnblockApp { application_id: ApplicationId },
}

/// `r` with any identifier dropped.
pub open spec fn without_id(r: Result<Option<EventId>, AnalyticsError>) -> Result<(), AnalyticsError> {
    match r {
        Ok(_) => Ok(()),
        Err(e) => Err(e),
    }
}

/// The permission an operation requires of its caller.
pub open spec fn required_permission(op: Operation) -> Permission {
    match op {
        Operation::AddMonitoredApp { .. } => Permission::AddApplication,
        Operation::RemoveMonitoredApp { .. } => Permission::RemoveApplication,
        Operation::UpdateAppConfig { .. } => Permission::AddApplication,
        Operation::CaptureEvent { .. } => Permission::CaptureEvents,
        Operation::CaptureTransaction { .. } => Permission::CaptureEvents,
        Operation::CaptureEventBatch { .. } => Permission::CaptureEvents,
        Operation::AdminAction { .. } => Permission::ConfigureSystem,
        Operation::AssignRole { .. } => Permission::ManageRoles,
        Operation::RemoveRole { .. } => Permission::ManageRoles,
        Operation::UpdateRateLimitConfig { .. } => Permission::ControlIngestion,
        Operation::PauseIngestion => Permission::ControlIngestion,
        Operation::ResumeIngestion => Permission::ControlIngestion,
        Operation::UnblockApp { .. } => Permission::ControlIngestion,
    }
}

/// The permission an operation requires of its caller.
pub fn permission_for(op: &Operation) -> (r: Permission)
    ensures
        r == required_permission(*op),
{
    match op {
        Operation::AddMonitoredApp { .. } => Permission::AddApplication,
        Operation::RemoveMonitoredApp { .. } => Permission::RemoveApplication,
        Operation::UpdateAppConfig { .. } => Permission::AddApplication,
        Operation::CaptureEvent { .. } => Permission::CaptureEvents,
        Operation::CaptureTransaction { .. } => Permission::CaptureEvents,
        Operation::CaptureEventBatch { .. } => Permission::CaptureEvents,
        Operation::AdminAction { .. } => Permission::ConfigureSystem,
        Operation::AssignRole { .. } => Permission::ManageRoles,
        Operation::RemoveRole { .. } => Permission::ManageRoles,
        Operation::UpdateRateLimitConfig { .. } => Permission::ControlIngestion,
        Operation::PauseIngestion => Permission::ControlIngestion,
        Operation::ResumeIngestion => Permission::ControlIngestion,
        Operation::UnblockApp { .. } => Permission::ControlIngestion,
    }
}

impl AnalyticsState {
    /// Whether `op` fits the machine limits of this state: room for the
    /// events it captures, block arithmetic that cannot overflow, and a log
    /// small enough to rebuild the integrity index from.
    pub open spec fn fits(&self, op: Operation) -> bool {
        let cooldown_fits = self.current_block as int + self.rate_limiter.config.cooldown_blocks
            <= u64::MAX;
        match op {
            Operation::CaptureEvent { .. } => self.has_room(1) && cooldown_fits,
            Operation::CaptureEventBatch { events } => self.has_room(events@.len() as int)
                && cooldown_fits,
            Operation::AdminAction { action } => action is RebuildMerkleIndex ==> self.events@.len()
                <= MAX_LEAVES,
            _ => true,
        }
    }

    /// How `caller` performing `op` answers `r` and leaves the state `new`:
    /// without the required permission the operation is refused with
    /// `Unauthorized` and nothing changes; otherwise it has the effect of the
    /// corresponding state operation.
    pub open spec fn operation_post(
        &self,
        caller: Owner,
        op: Operation,
        r: Result<Option<EventId>, AnalyticsError>,
        new: AnalyticsState,
    ) -> bool {
        if !role_grants(self.rbac.role_of(caller), required_permission(op)) {
            r == Err::<Option<EventId>, AnalyticsError>(AnalyticsError::Unauthorized) && new == *self
        } else {
            match op {
                Operation::AddMonitoredApp { application_id, chain_id, graphql_endpoint } => {
                    &&& r == Ok::<Option<EventId>, AnalyticsError>(None)
                    &&& self.add_app_post(application_id, chain_id, graphql_endpoint, new)
                },
                Operation::RemoveMonitoredApp { application_id } => {
                    &&& r == Ok::<Option<EventId>, AnalyticsError>(None)
                    &&& new.monitored_applications@ == self.monitored_applications@.remove(
                        application_id,
                    )
                    &&& new == AnalyticsState {
                        monitored_applications: new.monitored_applications,
                        ..*self
                    }
                },
                Operation::UpdateAppConfig { application_id, config } => {
                    &&& r == Ok::<Option<EventId>, AnalyticsError>(None)
                    &&& new.monitored_applications@ == self.monitored_applications@.insert(
                        application_id,
                        config,
                    )
                    &&& new == AnalyticsState {
                        monitored_applications: new.monitored_applications,
                        ..*self
                    }
                },
                Operation::CaptureEvent { event, content_hash } => self.capture_post(
                    event,
                    content_hash,
                    r,
                    new,
                ),
                Operation::CaptureTransaction { .. } => {
                    r == Ok::<Option<EventId>, AnalyticsError>(None) && new == *self
                },
                Operation::CaptureEventBatch { events } => exists|
                    states: Seq<AnalyticsState>,
                    results: Seq<Result<Option<EventId>, AnalyticsError>>,
                |
                    batch_chain(*self, events@, states, results, new) && r == Ok::<
                        Option<EventId>,
                        AnalyticsError,
                    >(last_admitted(results)),
                Operation::AdminAction { action } => {
                    &&& r == Ok::<Option<EventId>, AnalyticsError>(None)
                    &&& self.admin_post(action, new)
                },
                Operation::AssignRole { target, role } => {
                    &&& !(r matches Ok(Some(_)))
                    &&& self.assign_role_post(
                        caller,
                        target,
                        role,
                        without_id(r),
                        new,
                    )
                },
                Operation::RemoveRole { target } => {
                    &&& !(r matches Ok(Some(_)))
                    &&& self.remove_role_post(
                        caller,
                        target,
                        without_id(r),
                        new,
                    )
                },
                Operation::UpdateRateLimitConfig { config } => {
                    &&& r == Ok::<Option<EventId>, AnalyticsError>(None)
                    &&& new == AnalyticsState {
                        rate_limiter: RateLimiterState { config, ..self.rate_limiter },
                        ..*self
                    }
                },
                Operation::PauseIngestion => {
                    &&& r == Ok::<Option<EventId>, AnalyticsError>(None)
                    &&& new == AnalyticsState {
                        rate_limiter: RateLimiterState { paused: true, ..self.rate_limiter },
                        ..*self
                    }
                },
                Operation::ResumeIngestion => {
                    &&& r == Ok::<Option<EventId>, AnalyticsError>(None)
                    &&& new == AnalyticsState {
                        rate_limiter: RateLimiterState { paused: false, ..self.rate_limiter },
                        ..*self
                    }
                },
                Operation::UnblockApp { application_id } => {
                    &&& r == Ok::<Option<EventId>, AnalyticsError>(None)
                    &&& new.rate_limiter.blocked_apps@ == self.rate_limiter.blocked_apps@.remove(
                        application_id,
                    )
                    &&& new == AnalyticsState {
                        rate_limiter: RateLimiterState {
                            blocked_apps: new.rate_limiter.blocked_apps,
                            ..self.rate_limiter
                        },
                        ..*self
                    }
                },
            }
        }
    }

    /// Performs `op` for `caller` once its required permission is checked;
    /// returns the identifier of the captured event where one was captured.
    pub fn execute_operation(&mut self, caller: &Owner, op: Operation) -> (r: Result<
        Option<EventId>,
        AnalyticsError,
    >)
        requires
            old(self).wf(),
            old(self).fits(op),
        ensures
            final(self).wf(),
            old(self).operation_post(*caller, op, r, *final(self)),
    {
        let permission = permission_for(&op);
        if !self.rbac.has_permission(caller, &permission) {
            return Err(AnalyticsError::Unauthorized);
        }
        match op {
            Operation::AddMonitoredApp { application_id, chain_id, graphql_endpoint } => {
                self.add_monitored_app(application_id, chain_id, graphql_endpoint);
                Ok(None)
            },
            Operation::RemoveMonitoredApp { application_id } => {
                self.remove_monitored_app(&application_id);
                Ok(None)
            },
            Operation::UpdateAppConfig { application_id, config } => {
                self.update_app_config(application_id, config);
                Ok(None)
            },
            Operation::CaptureEvent { event, content_hash } => {
                self.capture_event_with_checks(event, content_hash)
            },
            Operation::CaptureTransaction { .. } => Ok(None),
            Operation::CaptureEventBatch { events } => Ok(self.capture_event_batch(&events)),
            Operation::AdminAction { action } => {
                self.execute_admin_action(action);
                Ok(None)
            },
            Operation::AssignRole { target, role } => match self.assign_role(caller, target, role) {
                Ok(()) => Ok(None),
                Err(e) => Err(e),
            },
            Operation::RemoveRole { target } => match self.remove_role(caller, &target) {
                Ok(()) => Ok(None),
                Err(e) => Err(e),
            },
            Operation::UpdateRateLimitConfig { config } => {
                self.rate_limiter.update_config(config);
                Ok(None)
            },
            Operation::PauseIngestion => {
                self.rate_limiter.pause();
                Ok(None)
            },
            Operation::ResumeIngestion => {
                self.rate_limiter.resume();
                Ok(None)
            },
            Operation::UnblockApp { application_id } => {
                self.rate_limiter.unblock_app(&application_id);
                Ok(None)
            },
        }
    }
}

} // verus!
