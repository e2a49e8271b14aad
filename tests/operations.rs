use pine_analytics::digest::Digest;
use pine_analytics::error::AnalyticsError;
use pine_analytics::ids::{ApplicationId, ChainId, Owner};
use pine_analytics::operations::{permission_for, Operation};
use pine_analytics::rate_limit::RateLimitConfig;
use pine_analytics::rbac::{Permission, Role};
use pine_analytics::state::CapturedEvent;
use pine_analytics::store::{AdminOperation, AnalyticsState};

fn app(id: u8) -> ApplicationId {
    ApplicationId { application_description_hash: Digest([id; 32]) }
}

fn owner(id: u8) -> Owner {
    Owner::Address20([id; 20])
}

fn capture(tx: &str) -> Operation {
    let event = CapturedEvent::new(app(1), ChainId(Digest([2u8; 32])), 5, "T".to_string(), "{}".to_string(), tx.to_string());
    Operation::CaptureEvent { event, content_hash: Digest::of_bytes(tx.as_bytes()) }
}

#[test]
fn operations_require_their_permission() {
    let mut state = AnalyticsState::default();
    let admin = state.admin_owner;
    let viewer = owner(9);
    assert!(matches!(state.execute_operation(&viewer, capture("a")), Err(AnalyticsError::Unauthorized)));
    assert!(matches!(state.execute_operation(&viewer, Operation::PauseIngestion), Err(AnalyticsError::Unauthorized)));
    assert!(!state.rate_limiter.paused);
    assert_eq!(state.events.len(), 0);
    assert!(matches!(state.execute_operation(&admin, capture("a")), Ok(Some(0))));
    assert!(state.execute_operation(&admin, Operation::AssignRole { target: owner(3), role: Role::DataIngester }).is_ok());
    assert!(matches!(state.execute_operation(&owner(3), capture("b")), Ok(Some(1))));
    assert!(matches!(
        state.execute_operation(&owner(3), Operation::AdminAction { action: AdminOperation::ClearEvents }),
        Err(AnalyticsError::Unauthorized)
    ));
    assert_eq!(state.events.len(), 2);
}

#[test]
fn dispatch_reaches_each_component() {
    let mut state = AnalyticsState::default();
    let admin = state.admin_owner;
    assert!(state.execute_operation(&admin, Operation::AddMonitoredApp {
        application_id: app(4),
        chain_id: ChainId(Digest([0u8; 32])),
        graphql_endpoint: "e".to_string(),
    }).is_ok());
    assert_eq!(state.system_health().total_applications, 1);
    assert!(state.execute_operation(&admin, Operation::RemoveMonitoredApp { application_id: app(4) }).is_ok());
    assert_eq!(state.system_health().total_applications, 0);
    assert!(state.execute_operation(&admin, Operation::PauseIngestion).is_ok());
    assert!(state.rate_limiter.paused);
    assert!(state.execute_operation(&admin, Operation::ResumeIngestion).is_ok());
    let config = RateLimitConfig { max_events_per_app_per_block: 1, max_total_events_per_block: 5, burst_multiplier_permille: 1000, cooldown_blocks: 2, enabled: true };
    assert!(state.execute_operation(&admin, Operation::UpdateRateLimitConfig { config }).is_ok());
    assert!(state.execute_operation(&admin, capture("x")).is_ok());
    assert!(state.execute_operation(&admin, capture("y")).is_err());
    assert_eq!(state.rate_limiter.get_stats().blocked_apps_count, 1);
    assert!(state.execute_operation(&admin, Operation::UnblockApp { application_id: app(1) }).is_ok());
    assert_eq!(state.rate_limiter.get_stats().blocked_apps_count, 0);
    assert!(matches!(
        state.execute_operation(&admin, Operation::RemoveRole { target: admin }),
        Err(AnalyticsError::RBACError(_))
    ));
    let batch = vec![(CapturedEvent::new(app(2), ChainId(Digest([0u8; 32])), 1, "T".to_string(), "{}".to_string(), "z".to_string()), Digest([1u8; 32]))];
    assert!(matches!(state.execute_operation(&admin, Operation::CaptureEventBatch { events: batch }), Ok(Some(1))));
}

#[test]
fn permissions_of_operations() {
    assert_eq!(permission_for(&Operation::PauseIngestion), Permission::ControlIngestion);
    assert_eq!(permission_for(&capture("a")), Permission::CaptureEvents);
    assert_eq!(permission_for(&Operation::RemoveRole { target: owner(1) }), Permission::ManageRoles);
    assert_eq!(
        permission_for(&Operation::AdminAction { action: AdminOperation::RebuildMerkleIndex }),
        Permission::ConfigureSystem
    );
}
