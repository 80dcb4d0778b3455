//! Aggregation state machine, durable-state codec, path editing and
//! integration data.

use ccn::aggregator::{AggregatedResult, AggregationState, NotificationAggregator};
use ccn::codec::{encode_state, parse_state};
use ccn::integration::{IntegrationManager, VerificationResult};
use ccn::path_manager::PathManager;

#[test]
fn test_aggregation_stats() {
    let mut state = AggregationState::new(1000);
    state.add("success", 10, "npm test", 1000);
    state.add("error", 5, "cargo build", 1001);
    state.add("success", 20, "make deploy", 1002);

    let (total, success, error) = state.get_stats();
    assert_eq!(total, 3);
    assert_eq!(success, 2);
    assert_eq!(error, 1);
}

#[test]
fn test_aggregated_result_title() {
    let result = AggregatedResult { total: 5, success: 3, error: 2, notifications: vec![] };

    let title = result.title();
    assert!(title.contains("5"));
    assert!(title.contains("3 成功"));
    assert!(title.contains("2 失败"));
}

#[test]
fn test_max_toasts_trigger() {
    // three successes within the window: the third add is ready
    let mut aggregator = NotificationAggregator::new(None, 5000, 3);
    assert!(aggregator.add_notification("success", 10, "npm test", 100).is_none());
    assert!(aggregator.add_notification("success", 10, "npm test", 101).is_none());
    let result = aggregator.add_notification("success", 10, "npm test", 102).unwrap();
    assert_eq!(result.total, 3);
    assert_eq!(result.success, 3);
    assert_eq!(result.error, 0);
    assert_eq!(result.title(), "3 个任务已完成");
    // the state is not cleared by a ready result: the next add is ready again
    let again = aggregator.add_notification("success", 2, "ls", 103).unwrap();
    assert_eq!(again.total, 4);
}

#[test]
fn test_buffer_then_flush() {
    // two events below max_toasts stay buffered; flush summarizes both
    let mut aggregator = NotificationAggregator::new(None, 5000, 5);
    assert!(aggregator.add_notification("error", 5, "cargo build", 50).is_none());
    let state = aggregator.state.clone();
    let mut aggregator = NotificationAggregator::new(state, 5000, 5);
    assert!(aggregator.add_notification("success", 20, "make deploy", 51).is_none());
    let result = aggregator.flush().unwrap();
    assert_eq!(result.total, 2);
    assert_eq!(result.success, 1);
    assert_eq!(result.error, 1);
    assert_eq!(result.status(), "error");
    assert!(aggregator.state.is_none());
}

#[test]
fn test_window_expiry() {
    // window of 5000 ms = 5 s; an event 6 s after window_start discards
    // the old batch, buffered entries and all
    let mut aggregator = NotificationAggregator::new(None, 5000, 10);
    assert!(aggregator.add_notification("success", 10, "first", 100).is_none());
    assert!(aggregator.add_notification("success", 10, "second", 101).is_none());
    assert!(aggregator.has_pending(104));
    assert!(!aggregator.has_pending(106));
    assert!(aggregator.add_notification("success", 10, "third", 106).is_none());
    let st = aggregator.state.as_ref().unwrap();
    assert_eq!(st.window_start, 106);
    assert_eq!(st.notifications.len(), 1);
    assert_eq!(st.notifications[0].cmd, "third");
}

#[test]
fn test_flush_empty_is_noop() {
    // no record at all
    let mut aggregator = NotificationAggregator::new(None, 5000, 3);
    assert!(aggregator.flush().is_none());
    assert!(aggregator.state.is_none());
    // a record with no entries is left untouched
    let empty = AggregationState::new(42);
    let mut aggregator = NotificationAggregator::new(Some(empty), 5000, 3);
    assert!(aggregator.flush().is_none());
    assert_eq!(aggregator.state.as_ref().unwrap().window_start, 42);
    assert!(!aggregator.has_pending(42));
}

#[test]
fn test_result_message_lines() {
    let mut state = AggregationState::new(7);
    state.add("success", 10, "npm test", 7);
    state.add("error", 5, "cargo build", 8);
    let mut aggregator = NotificationAggregator::new(Some(state), 5000, 2);
    let result = aggregator.add_notification("success", 20, "make deploy", 9).unwrap();
    assert_eq!(result.total, 3);
    let message = result.message();
    assert_eq!(
        message,
        "✅ 成功: 2 个\n❌ 失败: 1 个\n\n最近的任务:\n  ✅ npm test (10秒)\n  ❌ cargo build (5秒)\n  ✅ make deploy (20秒)"
    );
}

#[test]
fn test_result_message_omits_long_lists() {
    let mut state = AggregationState::new(0);
    for i in 0..6 {
        state.add("success", i, "task", i);
    }
    let (total, success, error) = state.get_stats();
    let result = AggregatedResult {
        total,
        success,
        error,
        notifications: state.notifications,
    };
    // more than five entries: only the bucket line, no recent-tasks list
    assert_eq!(result.message(), "✅ 成功: 6 个");
    assert_eq!(result.title(), "6 个任务已完成");
    assert_eq!(result.status(), "success");
}

#[test]
fn test_encode_exact() {
    let mut state = AggregationState::new(1700000000);
    state.add("success", 12, "npm test", 1700000001);
    let encoded = encode_state(&state);
    assert_eq!(
        encoded,
        "{\"notifications\":[{\"status\":\"success\",\"duration\":12,\"cmd\":\"npm test\",\"timestamp\":1700000001}],\"window_start\":1700000000}"
    );
}

#[test]
fn test_round_trip() {
    let mut state = AggregationState::new(123456789);
    state.add("success", 10, "npm test", 123456790);
    state.add("error", 0, "echo \"hi\\there\"", 123456791);
    state.add("pending", 18446744073709551615, "构建 任务", 123456795);

    let encoded = encode_state(&state);
    let reloaded = parse_state(&encoded).unwrap();
    assert_eq!(reloaded.window_start, state.window_start);
    assert_eq!(reloaded.notifications.len(), state.notifications.len());
    for (a, b) in reloaded.notifications.iter().zip(state.notifications.iter()) {
        assert_eq!(a.status, b.status);
        assert_eq!(a.duration, b.duration);
        assert_eq!(a.cmd, b.cmd);
        assert_eq!(a.timestamp, b.timestamp);
    }
}

#[test]
fn test_round_trip_empty_batch() {
    let state = AggregationState::new(0);
    let encoded = encode_state(&state);
    assert_eq!(encoded, "{\"notifications\":[],\"window_start\":0}");
    let reloaded = parse_state(&encoded).unwrap();
    assert_eq!(reloaded.window_start, 0);
    assert!(reloaded.notifications.is_empty());
}

#[test]
fn test_parse_rejects_malformed() {
    // unreadable or non-canonical records are treated as absent
    assert!(parse_state("").is_none());
    assert!(parse_state("{}").is_none());
    assert!(parse_state("not json at all").is_none());
    assert!(parse_state("{\"notifications\":[],\"window_start\":0} ").is_none());
    assert!(parse_state("{\"notifications\":[],\"window_start\":00}").is_none());
    assert!(parse_state("{\"notifications\":[],\"window_start\":99999999999999999999}").is_none());
    assert!(parse_state("{\"notifications\":[,],\"window_start\":0}").is_none());
    assert!(parse_state("{\"notifications\":[").is_none());
}

#[test]
fn test_contains_path_case_insensitive() {
    assert!(PathManager::contains_path("C:\\Tools\\CCN;C:\\Windows", "c:\\tools\\ccn"));
    assert!(!PathManager::contains_path("C:\\Tools\\CCN", "c:\\other"));
}

#[test]
fn test_append_to_path() {
    assert_eq!(PathManager::append_to_path("", "C:\\ccn"), "C:\\ccn");
    assert_eq!(PathManager::append_to_path("C:\\bin", "C:\\ccn"), "C:\\bin;C:\\ccn");
}

#[test]
fn test_remove_from_path_str() {
    assert_eq!(PathManager::remove_from_path_str("a;b;a", "a"), "b");
    assert_eq!(PathManager::remove_from_path_str("a;b;c", "x"), "a;b;c");
    assert_eq!(PathManager::remove_from_path_str("a", "a"), "");
}

#[test]
fn test_add_and_remove_plans() {
    assert_eq!(PathManager::add_to_path("C:\\bin;C:\\ccn", "c:\\CCN"), None);
    assert_eq!(
        PathManager::add_to_path("C:\\bin", "C:\\ccn"),
        Some("C:\\bin;C:\\ccn".to_string())
    );
    assert_eq!(PathManager::remove_from_path("C:\\bin", "C:\\ccn"), None);
    assert_eq!(
        PathManager::remove_from_path("C:\\bin;C:\\ccn", "C:\\ccn"),
        Some("C:\\bin".to_string())
    );
}

#[test]
fn test_default_config_values() {
    let config = ccn::config::Config::default();
    assert_eq!(config.version, "1.0");
    assert!(config.sound_enabled);
    assert_eq!(config.threshold.min_duration, 10);
    assert!(config.threshold.whitelist.is_empty());
    assert_eq!(config.templates.default.duration, 5000);
    assert!(config.aggregation.enabled);
    assert_eq!(config.aggregation.window, 5000);
    assert_eq!(config.aggregation.max_toasts, 3);
    assert_eq!(config.logging.level, "info");
}

#[test]
fn test_integration_manager_new() {
    let manager = IntegrationManager::new();
    let _ = &manager;
}

#[test]
fn test_verification_result_structure() {
    let result = VerificationResult {
        ccn_in_path: true,
        test_notification_sent: false,
        error: Some("测试错误".to_string()),
    };

    assert_eq!(result.ccn_in_path, true);
    assert_eq!(result.test_notification_sent, false);
    assert!(result.error.is_some());
    assert_eq!(result.error.unwrap(), "测试错误");
}

#[test]
fn test_verification_result_no_error() {
    let result = VerificationResult {
        ccn_in_path: true,
        test_notification_sent: true,
        error: None,
    };

    assert!(result.ccn_in_path);
    assert!(result.test_notification_sent);
    assert!(result.error.is_none());
}
