use pine_analytics::digest::Digest;
use pine_analytics::ids::ApplicationId;
use pine_analytics::rate_limit::{RateLimitConfig, RateLimitError, RateLimiterState};

fn test_app_id(id: u8) -> ApplicationId {
    let mut bytes = [0u8; 32];
    bytes[0] = id;
    ApplicationId { application_description_hash: Digest(bytes) }
}

fn config(per_app: u64, total: u64, permille: u64, cooldown: u64) -> RateLimitConfig {
    RateLimitConfig {
        max_events_per_app_per_block: per_app,
        max_total_events_per_block: total,
        burst_multiplier_permille: permille,
        cooldown_blocks: cooldown,
        enabled: true,
    }
}

#[test]
fn test_rate_limit_allows_under_limit() {
    let mut limiter = RateLimiterState::new(RateLimitConfig {
        max_events_per_app_per_block: 10,
        max_total_events_per_block: 100,
        burst_multiplier_permille: 1000,
        cooldown_blocks: 5,
        enabled: true,
    });

    let app = test_app_id(1);
    for _ in 0..10 {
        assert!(limiter.check_and_increment(&app, 1).is_ok());
    }
}

#[test]
fn test_rate_limit_blocks_over_limit() {
    let mut limiter = RateLimiterState::new(RateLimitConfig {
        max_events_per_app_per_block: 5,
        max_total_events_per_block: 100,
        burst_multiplier_permille: 1000,
        cooldown_blocks: 5,
        enabled: true,
    });

    let app = test_app_id(1);
    for _ in 0..5 {
        assert!(limiter.check_and_increment(&app, 1).is_ok());
    }

    let result = limiter.check_and_increment(&app, 1);
    assert!(matches!(result, Err(RateLimitError::AppLimitExceeded { .. })));
}

#[test]
fn test_pause_blocks_all() {
    let mut limiter = RateLimiterState::new(RateLimitConfig::default());
    limiter.pause();

    let app = test_app_id(1);
    let result = limiter.check_and_increment(&app, 1);
    assert!(matches!(result, Err(RateLimitError::IngestionPaused)));
}

#[test]
fn sixth_event_blocks_until_cooldown_ends() {
    let mut limiter = RateLimiterState::new(config(5, 100, 1000, 5));
    let a = test_app_id(1);
    for _ in 0..5 {
        assert!(limiter.check_and_increment(&a, 1).is_ok());
    }
    match limiter.check_and_increment(&a, 1) {
        Err(RateLimitError::AppLimitExceeded { app_id, limit, cooldown_blocks }) => {
            assert_eq!(app_id.application_description_hash.0, a.application_description_hash.0);
            assert_eq!(limit, 5);
            assert_eq!(cooldown_blocks, 5);
        }
        other => panic!("unexpected {:?}", other),
    }
    assert_eq!(limiter.get_stats().blocked_apps_count, 1);
    for block in 2..6u64 {
        match limiter.check_and_increment(&a, block) {
            Err(RateLimitError::AppBlocked { unblock_at, current_block }) => {
                assert_eq!(unblock_at, 6);
                assert_eq!(current_block, block);
            }
            other => panic!("unexpected {:?}", other),
        }
    }
    assert!(limiter.check_and_increment(&a, 6).is_ok());
    assert_eq!(limiter.get_stats().blocked_apps_count, 0);
    let b = test_app_id(2);
    assert!(limiter.check_and_increment(&b, 6).is_ok());
    assert_eq!(limiter.get_stats().global_count, 2);
}

#[test]
fn pause_dominates_and_resume_restores() {
    let mut limiter = RateLimiterState::new(config(2, 100, 1000, 5));
    let a = test_app_id(1);
    let b = test_app_id(2);
    assert!(limiter.check_and_increment(&a, 1).is_ok());
    limiter.pause();
    for app in [a, b].iter() {
        for block in 1..4u64 {
            assert!(matches!(limiter.check_and_increment(app, block), Err(RateLimitError::IngestionPaused)));
        }
    }
    assert_eq!(limiter.get_stats().global_count, 1);
    assert!(limiter.get_stats().paused);
    limiter.resume();
    assert!(limiter.check_and_increment(&a, 1).is_ok());
    assert!(limiter.check_and_increment(&b, 1).is_ok());
}

#[test]
fn burst_multiplier_scales_limits_down() {
    let mut limiter = RateLimiterState::new(config(2, 100, 1500, 1));
    let a = test_app_id(1);
    for _ in 0..3 {
        assert!(limiter.check_and_increment(&a, 1).is_ok());
    }
    assert!(matches!(
        limiter.check_and_increment(&a, 1),
        Err(RateLimitError::AppLimitExceeded { limit: 3, .. })
    ));
}

#[test]
fn global_limit_refuses_without_blocking() {
    let mut limiter = RateLimiterState::new(config(10, 3, 1000, 5));
    for i in 0..3u8 {
        assert!(limiter.check_and_increment(&test_app_id(i), 7).is_ok());
    }
    match limiter.check_and_increment(&test_app_id(9), 7) {
        Err(RateLimitError::GlobalLimitExceeded { limit, current }) => {
            assert_eq!(limit, 3);
            assert_eq!(current, 3);
        }
        other => panic!("unexpected {:?}", other),
    }
    assert_eq!(limiter.get_stats().blocked_apps_count, 0);
    assert!(limiter.check_and_increment(&test_app_id(9), 8).is_ok());
    assert_eq!(limiter.get_stats().global_count, 1);
}

#[test]
fn new_block_resets_counters() {
    let mut limiter = RateLimiterState::new(config(1, 100, 1000, 0));
    let a = test_app_id(1);
    assert!(limiter.check_and_increment(&a, 1).is_ok());
    assert!(limiter.check_and_increment(&a, 2).is_ok());
    assert!(matches!(limiter.check_and_increment(&a, 2), Err(RateLimitError::AppLimitExceeded { .. })));
    assert!(limiter.check_and_increment(&a, 3).is_ok());
}

#[test]
fn disabled_limiter_admits_everything() {
    let mut cfg = config(1, 1, 1000, 5);
    cfg.enabled = false;
    let mut limiter = RateLimiterState::new(cfg);
    let a = test_app_id(1);
    for _ in 0..10 {
        assert!(limiter.check_and_increment(&a, 1).is_ok());
    }
    assert_eq!(limiter.get_stats().global_count, 0);
    assert!(!limiter.get_stats().enabled);
}

#[test]
fn unblock_and_update_config() {
    let mut limiter = RateLimiterState::new(config(1, 100, 1000, 10));
    let a = test_app_id(1);
    assert!(limiter.check_and_increment(&a, 1).is_ok());
    assert!(limiter.check_and_increment(&a, 1).is_err());
    assert!(limiter.unblock_app(&a));
    assert!(!limiter.unblock_app(&a));
    limiter.update_config(config(5, 100, 1000, 10));
    assert!(limiter.check_and_increment(&a, 1).is_ok());
    let stats = limiter.get_stats();
    assert_eq!(stats.global_limit, 100);
    assert_eq!(stats.global_count, 2);
}

#[test]
fn default_config_values() {
    let c = RateLimitConfig::default();
    assert_eq!(c.max_events_per_app_per_block, 100);
    assert_eq!(c.max_total_events_per_block, 1000);
    assert_eq!(c.burst_multiplier_permille, 1500);
    assert_eq!(c.cooldown_blocks, 5);
    assert!(c.enabled);
}
