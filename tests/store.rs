use pine_analytics::aggregations::{AggregationEngine, TimeBucket};
use pine_analytics::digest::Digest;
use pine_analytics::error::AnalyticsError;
use pine_analytics::ids::{parse_owner_from_hex, ApplicationId, ChainId, Owner, OwnerParseError};
use pine_analytics::merkle::MerkleIndex;
use pine_analytics::query::{matches_filters, matches_filters_folded};
use pine_analytics::rate_limit::{RateLimitConfig, RateLimitError};
use pine_analytics::rbac::{Permission, Role};
use pine_analytics::state::{CapturedEvent, EventFilters, EventSeverity, Pagination, TimeRange};
use pine_analytics::store::{AdminOperation, AnalyticsState};

fn app(id: u8) -> ApplicationId {
    ApplicationId { application_description_hash: Digest([id; 32]) }
}

fn chain() -> ChainId {
    ChainId(Digest([7u8; 32]))
}

fn owner(id: u8) -> Owner {
    Owner::Address20([id; 20])
}

fn event(app_id: u8, ts: u64, tx: &str, data: &str) -> CapturedEvent {
    CapturedEvent::new(app(app_id), chain(), ts, "Transfer".to_string(), data.to_string(), tx.to_string())
}

fn hash_of(tx: &str) -> Digest {
    Digest::of_bytes(tx.as_bytes())
}

#[test]
fn duplicate_transaction_hash_is_admitted_once() {
    let mut state = AnalyticsState::new(owner(1));
    let first = state.capture_event_with_checks(event(1, 10, "0xabc", "{}"), hash_of("a"));
    assert!(matches!(first, Ok(Some(0))));
    let second = state.capture_event_with_checks(event(2, 11, "0xabc", "{}"), hash_of("b"));
    match second {
        Err(AnalyticsError::DuplicateEvent(h)) => assert_eq!(h, "0xabc"),
        other => panic!("unexpected {:?}", other),
    }
    assert_eq!(state.total_events_captured, 1);
    assert_eq!(state.events.len(), 1);
    assert!(state.is_duplicate_tx("0xabc"));
    assert!(!state.is_duplicate_tx("0xdef"));
}

#[test]
fn capture_assigns_ids_block_and_indexes() {
    let mut state = AnalyticsState::new(owner(1));
    state.set_block_height(9);
    assert!(matches!(state.capture_event_with_checks(event(1, 100, "t1", "{}"), hash_of("1")), Ok(Some(0))));
    assert!(matches!(state.capture_event_with_checks(event(2, 50, "t2", "{}"), hash_of("2")), Ok(Some(1))));
    assert!(matches!(state.capture_event_with_checks(event(1, 100, "t3", "{}"), hash_of("3")), Ok(Some(2))));
    assert_eq!(state.next_event_id, 3);
    assert_eq!(state.events[1].id, 1);
    assert_eq!(state.events[1].block_height, Some(9));
    let ids: Vec<u64> = state.get_app_events(&app(1)).iter().map(|e| e.id).collect();
    assert_eq!(ids, vec![0, 2]);
    let ranged: Vec<u64> = state.get_events_in_range(0, 1000).iter().map(|e| e.id).collect();
    assert_eq!(ranged, vec![1, 0, 2]);
    assert!(state.get_events_in_range(60, 99).is_empty());
    assert_eq!(state.get_event(2).unwrap().transaction_hash, "t3");
    assert!(state.get_event(5).is_none());
    assert_eq!(state.merkle_index.event_count(), 3);
    let proof = state.merkle_index.generate_proof(1).unwrap();
    assert_eq!(proof.leaf_hash.0, hash_of("2").0);
    assert!(MerkleIndex::verify_proof(&state.merkle_index.get_root().unwrap(), &proof));
}

#[test]
fn rate_limit_refusal_is_passed_on() {
    let mut state = AnalyticsState::new(owner(1));
    state.rate_limiter.update_config(RateLimitConfig {
        max_events_per_app_per_block: 1,
        max_total_events_per_block: 10,
        burst_multiplier_permille: 1000,
        cooldown_blocks: 3,
        enabled: true,
    });
    assert!(state.capture_event_with_checks(event(1, 1, "a", "{}"), hash_of("a")).is_ok());
    let r = state.capture_event_with_checks(event(1, 1, "b", "{}"), hash_of("b"));
    assert!(matches!(r, Err(AnalyticsError::RateLimitError(RateLimitError::AppLimitExceeded { .. }))));
    assert_eq!(state.events.len(), 1);
    assert!(!state.is_duplicate_tx("b"));
    state.rate_limiter.pause();
    let r = state.capture_event_with_checks(event(2, 1, "c", "{}"), hash_of("c"));
    assert!(matches!(r, Err(AnalyticsError::RateLimitError(RateLimitError::IngestionPaused))));
}

#[test]
fn batch_continues_after_failures_and_returns_last_id() {
    let mut state = AnalyticsState::new(owner(1));
    let items = vec![
        (event(1, 1, "x", "{}"), hash_of("x")),
        (event(1, 2, "x", "{}"), hash_of("x")),
        (event(2, 3, "y", "{}"), hash_of("y")),
        (event(2, 4, "y", "{}"), hash_of("y")),
    ];
    assert_eq!(state.capture_event_batch(&items), Some(1));
    assert_eq!(state.total_events_captured, 2);
    let dups = vec![(event(1, 5, "x", "{}"), hash_of("x"))];
    assert_eq!(state.capture_event_batch(&dups), None);
}

#[test]
fn clear_and_rebuild() {
    let mut state = AnalyticsState::new(owner(1));
    for (i, tx) in ["a", "b", "c"].iter().enumerate() {
        state.capture_event_with_checks(event(1, i as u64, tx, "{}"), hash_of(tx)).unwrap();
    }
    let root = state.merkle_index.get_root().unwrap();
    state.execute_admin_action(AdminOperation::RebuildMerkleIndex);
    assert_eq!(state.merkle_index.get_root().unwrap().0, root.0);
    assert_eq!(state.merkle_index.depth, 16);
    state.execute_admin_action(AdminOperation::ClearEvents);
    assert!(state.events.is_empty());
    assert!(state.merkle_index.get_root().is_none());
    assert!(state.get_app_events(&app(1)).is_empty());
    assert!(!state.is_duplicate_tx("a"));
    assert_eq!(state.total_events_captured, 3);
    assert!(matches!(state.capture_event_with_checks(event(1, 1, "a", "{}"), hash_of("a")), Ok(Some(3))));
}

#[test]
fn admin_actions_on_limiter_and_roles() {
    let mut state = AnalyticsState::new(owner(1));
    state.execute_admin_action(AdminOperation::PauseIngestion);
    assert!(state.rate_limiter.paused);
    state.execute_admin_action(AdminOperation::ResumeIngestion);
    assert!(!state.rate_limiter.paused);
    state.execute_admin_action(AdminOperation::SetRateLimit {
        max_events_per_app_per_block: 3,
        max_total_events_per_block: 30,
    });
    assert_eq!(state.rate_limiter.config.max_events_per_app_per_block, 3);
    assert_eq!(state.rate_limiter.config.max_total_events_per_block, 30);
    assert_eq!(state.rate_limiter.config.burst_multiplier_permille, 1500);
    state.execute_admin_action(AdminOperation::TransferSuperAdmin { new_admin: owner(2) });
    assert_eq!(state.rbac.get_role(&owner(2)), Role::SuperAdmin);
    assert_eq!(state.rbac.get_role(&owner(1)), Role::Viewer);
}

#[test]
fn role_operations_follow_delegation() {
    let mut state = AnalyticsState::new(owner(1));
    assert!(state.assign_role(&owner(1), owner(2), Role::Admin).is_ok());
    assert!(state.assign_role(&owner(2), owner(3), Role::Operator).is_ok());
    assert!(matches!(state.assign_role(&owner(2), owner(1), Role::Viewer), Err(AnalyticsError::Unauthorized)));
    assert!(matches!(state.assign_role(&owner(3), owner(4), Role::Viewer), Err(AnalyticsError::Unauthorized)));
    assert!(matches!(
        state.assign_role(&owner(1), owner(1), Role::Admin),
        Err(AnalyticsError::RBACError(_))
    ));
    assert!(matches!(state.remove_role(&owner(1), &owner(1)), Err(AnalyticsError::RBACError(_))));
    assert!(state.remove_role(&owner(2), &owner(3)).is_ok());
    assert_eq!(state.rbac.get_role(&owner(3)), Role::Viewer);
    assert!(state.require_permission(&owner(2), &Permission::ManageRoles).is_ok());
    assert!(matches!(
        state.require_permission(&owner(2), &Permission::ConfigureSystem),
        Err(AnalyticsError::Unauthorized)
    ));
}

#[test]
fn rbac_info_and_health() {
    let mut state = AnalyticsState::new(owner(1));
    let info = state.rbac_info(None);
    assert_eq!(info.role, Role::SuperAdmin);
    assert_eq!(info.permissions.len(), 8);
    let info = state.rbac_info(Some(owner(9)));
    assert_eq!(info.role, Role::Viewer);
    assert_eq!(info.permissions, vec![Permission::ViewData]);
    state.rbac.assign_role(owner(5), Role::DataIngester).unwrap();
    let info = state.rbac_info(Some(owner(5)));
    assert_eq!(info.permissions, vec![Permission::CaptureEvents, Permission::ViewData]);
    state.add_monitored_app(app(1), chain(), "http://a".to_string());
    state.add_monitored_app(app(2), chain(), "http://b".to_string());
    state.add_monitored_app(app(1), chain(), "http://c".to_string());
    state.capture_event_with_checks(event(1, 1, "t", "{}"), hash_of("t")).unwrap();
    let health = state.system_health();
    assert_eq!(health.total_events, 1);
    assert_eq!(health.total_applications, 2);
    assert!(health.merkle_root.is_some());
    assert!(health.rate_limit_enabled);
    assert!(!health.ingestion_paused);
    state.remove_monitored_app(&app(2));
    assert_eq!(state.system_health().total_applications, 1);
}

#[test]
fn event_counts_per_window() {
    let mut state = AnalyticsState::new(owner(1));
    for (ts, tx) in [(0u64, "a"), (5, "b"), (10, "c"), (19, "d"), (25, "e")].iter() {
        state.capture_event_with_checks(event(1, *ts, tx, "{}"), hash_of(tx)).unwrap();
    }
    let counts = state.event_counts(TimeRange::new(0, 20), 10);
    assert_eq!(counts, vec![(0, 2), (10, 2), (20, 0)]);
    assert!(state.event_counts(TimeRange::new(30, 20), 10).is_empty());
}

#[test]
fn filtered_and_paginated_events() {
    let mut state = AnalyticsState::new(owner(1));
    state.capture_event_with_checks(event(1, 1, "a", "{\"Kind\":\"Swap\"}"), hash_of("a")).unwrap();
    state.capture_event_with_checks(event(2, 2, "b", "{\"kind\":\"mint\"}"), hash_of("b")).unwrap();
    let mut e = event(1, 3, "c", "{\"kind\":\"swap\"}");
    e.severity = EventSeverity::Critical;
    e.event_type = "Alert".to_string();
    state.capture_event_with_checks(e, hash_of("c")).unwrap();
    let none = EventFilters { application_ids: None, event_types: None, time_range: None, severity: None, search_text: None };
    assert_eq!(state.get_events(&none, Pagination::default()).len(), 3);
    let ids = |f: &EventFilters, p: Pagination| -> Vec<u64> { state.get_events(f, p).iter().map(|e| e.id).collect() };
    assert_eq!(ids(&none, Pagination { offset: 1, limit: 1 }), vec![1]);
    assert_eq!(ids(&none, Pagination { offset: 5, limit: 1 }), Vec::<u64>::new());
    let by_app = EventFilters { application_ids: Some(vec![app(1)]), ..none.clone() };
    assert_eq!(ids(&by_app, Pagination::default()), vec![0, 2]);
    let by_text = EventFilters { search_text: Some("SWAP".to_string()), ..none.clone() };
    assert_eq!(ids(&by_text, Pagination::default()), vec![0, 2]);
    let by_type = EventFilters { event_types: Some(vec!["Alert".to_string()]), ..none.clone() };
    assert_eq!(ids(&by_type, Pagination::default()), vec![2]);
    let by_sev = EventFilters { severity: Some(EventSeverity::Info), ..none.clone() };
    assert_eq!(ids(&by_sev, Pagination::default()), vec![0, 1]);
    let by_time = EventFilters { time_range: Some(TimeRange::new(2, 3)), ..none.clone() };
    assert_eq!(ids(&by_time, Pagination::default()), vec![1, 2]);
}

#[test]
fn time_buckets() {
    let b = TimeBucket::from_timestamp(1234, 100);
    assert_eq!(b.start, 1200);
    assert_eq!(b.duration_ms, 100);
    assert_eq!(b.end(), 1300);
    let events = vec![event(1, 250, "a", "{}"), event(1, 30, "b", "{}"), event(1, 299, "c", "{}"), event(1, 99, "d", "{}")];
    let buckets = AggregationEngine::bucket_events(&events, 100);
    assert_eq!(buckets.len(), 2);
    assert_eq!(buckets[0].0, TimeBucket { start: 0, duration_ms: 100 });
    let first: Vec<&str> = buckets[0].1.iter().map(|e| e.transaction_hash.as_str()).collect();
    assert_eq!(first, vec!["b", "d"]);
    assert_eq!(buckets[1].0.start, 200);
    let second: Vec<&str> = buckets[1].1.iter().map(|e| e.transaction_hash.as_str()).collect();
    assert_eq!(second, vec!["a", "c"]);
}

#[test]
fn time_range_contains_both_ends() {
    let r = TimeRange::new(10, 20);
    assert!(r.contains(10));
    assert!(r.contains(20));
    assert!(!r.contains(9));
    assert!(!r.contains(21));
}

#[test]
fn owner_from_hex_text() {
    let hex20 = "00112233445566778899aabbccddeeff00112233";
    match parse_owner_from_hex(&format!("  0x{}\n", hex20)) {
        Ok(Owner::Address20(a)) => {
            assert_eq!(a[0], 0x00);
            assert_eq!(a[1], 0x11);
            assert_eq!(a[19], 0x33);
        }
        other => panic!("unexpected {:?}", other),
    }
    match parse_owner_from_hex(&format!("ffff{}", hex20.to_uppercase())) {
        Ok(Owner::Address20(a)) => assert_eq!(a[10], 0xaa),
        other => panic!("unexpected {:?}", other),
    }
    assert_eq!(parse_owner_from_hex("   ").unwrap_err(), OwnerParseError::Empty);
    assert_eq!(parse_owner_from_hex("0xzz").unwrap_err(), OwnerParseError::InvalidHex);
    assert_eq!(parse_owner_from_hex("abc").unwrap_err(), OwnerParseError::InvalidHex);
    assert_eq!(parse_owner_from_hex("0x0011").unwrap_err(), OwnerParseError::TooShort);
    assert_eq!(OwnerParseError::TooShort.message(), "admin_owner must be at least 20 bytes");
}

#[test]
fn owner_from_trimmed_bytes() {
    let hex20 = "00112233445566778899aabbccddeeff00112233";
    match pine_analytics::ids::parse_owner_from_trimmed(format!("0x{}", hex20).as_bytes()) {
        Ok(Owner::Address20(a)) => assert_eq!(a[19], 0x33),
        other => panic!("unexpected {:?}", other),
    }
    assert_eq!(pine_analytics::ids::parse_owner_from_trimmed(b"").unwrap_err(), OwnerParseError::Empty);
    assert_eq!(pine_analytics::ids::parse_owner_from_trimmed(b" 0x00").unwrap_err(), OwnerParseError::InvalidHex);
    assert_eq!(pine_analytics::ids::parse_owner_from_trimmed(b"0x12").unwrap_err(), OwnerParseError::TooShort);
}

#[test]
fn folded_filter_uses_given_lowercase_forms() {
    let e = event(1, 1, "a", "{\"Kind\":\"Swap\"}");
    let f = EventFilters { application_ids: None, event_types: None, time_range: None, severity: None, search_text: Some("SWAP".to_string()) };
    assert!(matches_filters_folded(&e, &f, "{\"kind\":\"swap\"}", "swap"));
    assert!(!matches_filters_folded(&e, &f, "{\"kind\":\"swap\"}", "mint"));
    assert!(matches_filters(&e, &f));
    let f2 = EventFilters { search_text: Some("mint".to_string()), ..f.clone() };
    assert!(!matches_filters(&e, &f2));
}
