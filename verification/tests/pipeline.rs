//! Policy, dispatch and platform behavior.

use ccn::config::{Config, TemplateConfig};
use ccn::dispatch::{build_message, build_title, decide, parse_status, DispatchDecision};
use ccn::notification::NotificationStatus;
use ccn::platform::{platform_name, supports_native_notifications, Platform};
use ccn::policy::PolicyEngine;

#[test]
fn test_should_notify_error() {
    let config = Config::default();
    let engine = PolicyEngine::new(config);

    assert!(engine.should_notify(NotificationStatus::Error, 1, "test"));
    assert!(engine.should_notify(NotificationStatus::Error, 100, "test"));
}

#[test]
fn test_should_notify_threshold() {
    let config = Config::default();
    let engine = PolicyEngine::new(config);

    assert!(!engine.should_notify(NotificationStatus::Success, 5, "test"));
    assert!(engine.should_notify(NotificationStatus::Success, 15, "test"));
}

#[test]
fn test_whitelist() {
    let mut config = Config::default();
    config.threshold.whitelist = vec!["deploy".to_string()];
    let engine = PolicyEngine::new(config);

    assert!(engine.should_notify(NotificationStatus::Success, 3, "deploy"));
}

#[test]
fn test_whitelist_zero_duration() {
    let mut config = Config::default();
    config.threshold.whitelist = vec!["deploy".to_string()];
    let engine = PolicyEngine::new(config);

    // whitelisted commands are notified even at duration zero
    assert!(engine.should_notify(NotificationStatus::Success, 0, "make deploy"));
    // ... though duration zero still bypasses aggregation
    assert_eq!(
        decide(&engine, NotificationStatus::Success, 0, "make deploy"),
        DispatchDecision::SendDirect
    );
}

#[test]
fn test_match_template() {
    let mut config = Config::default();
    config.templates.custom.push((
        "build".to_string(),
        TemplateConfig {
            icon: "build.png".to_string(),
            sound: "build.wav".to_string(),
            duration: 8000,
        },
    ));
    let engine = PolicyEngine::new(config);

    assert_eq!(engine.match_template("npm run build"), Some("build".to_string()));
    assert_eq!(engine.match_template("npm test"), Some("default".to_string()));
}

#[test]
fn test_template_duration_lookup() {
    let mut config = Config::default();
    config.templates.custom.push((
        "build".to_string(),
        TemplateConfig {
            icon: "build.png".to_string(),
            sound: "build.wav".to_string(),
            duration: 8000,
        },
    ));

    assert_eq!(config.template_duration("build"), 8000);
    assert_eq!(config.template_duration("default"), 5000);
    assert_eq!(config.template_duration("unknown"), 5000);
    assert_eq!(config.template_sound("build"), "build.wav".to_string());
    assert_eq!(config.template_sound("unknown"), "default".to_string());
}

#[test]
fn test_parse_status_words() {
    assert_eq!(parse_status("success"), (NotificationStatus::Success, true));
    assert_eq!(parse_status("ERROR"), (NotificationStatus::Error, true));
    assert_eq!(parse_status("Failed"), (NotificationStatus::Error, true));
    assert_eq!(parse_status("failure"), (NotificationStatus::Error, true));
    assert_eq!(parse_status("pending"), (NotificationStatus::Pending, true));
    assert_eq!(parse_status("Running"), (NotificationStatus::Pending, true));
    // unrecognized words fall back to success, flagged
    assert_eq!(parse_status("bogus"), (NotificationStatus::Success, false));
}

#[test]
fn test_decide_paths() {
    let config = Config::default();
    let engine = PolicyEngine::new(config);

    // below threshold, not whitelisted: dropped
    assert_eq!(
        decide(&engine, NotificationStatus::Success, 5, "ls"),
        DispatchDecision::Suppress
    );
    // long enough: batched
    assert_eq!(
        decide(&engine, NotificationStatus::Success, 15, "cargo test"),
        DispatchDecision::Aggregate
    );
    // errors bypass batching
    assert_eq!(
        decide(&engine, NotificationStatus::Error, 15, "cargo test"),
        DispatchDecision::SendDirect
    );
    // with aggregation disabled everything notified goes direct
    let mut config = Config::default();
    config.aggregation.enabled = false;
    let engine = PolicyEngine::new(config);
    assert_eq!(
        decide(&engine, NotificationStatus::Success, 15, "cargo test"),
        DispatchDecision::SendDirect
    );
}

#[test]
fn test_build_title_success() {
    let title = build_title(NotificationStatus::Success, "npm test");
    assert_eq!(title, "任务完成");
}

#[test]
fn test_build_title_error() {
    let title = build_title(NotificationStatus::Error, "cargo build");
    assert_eq!(title, "任务失败");
}

#[test]
fn test_build_title_pending() {
    let title = build_title(NotificationStatus::Pending, "deploy");
    assert_eq!(title, "任务进行中");
}

#[test]
fn test_build_message() {
    let message = build_message(15, "npm test");
    assert_eq!(message, "npm test (耗时: 15秒)");
}

#[test]
fn test_build_message_zero_duration() {
    let message = build_message(0, "unknown cmd");
    assert_eq!(message, "unknown cmd (耗时: 0秒)");
}

#[test]
fn test_build_message_long_duration() {
    let message = build_message(3600, "long running task");
    assert_eq!(message, "long running task (耗时: 3600秒)");
}

#[test]
fn test_platform_detection() {
    for p in [Platform::Windows, Platform::MacOS, Platform::Linux, Platform::Unknown] {
        let platforms = vec![
            p == Platform::Windows,
            p == Platform::MacOS,
            p == Platform::Linux,
        ];
        let detected_count = platforms.iter().filter(|&&x| x).count();
        assert!(detected_count <= 1);
    }
}

#[test]
fn test_platform_name() {
    for p in [Platform::Windows, Platform::MacOS, Platform::Linux, Platform::Unknown] {
        let name = platform_name(p);
        assert!(!name.is_empty());
        assert!(name == "Windows" || name == "macOS" || name == "Linux" || name == "Unknown");
    }
}

#[test]
fn test_supports_native_notifications() {
    for p in [Platform::Windows, Platform::MacOS, Platform::Linux, Platform::Unknown] {
        let supported = supports_native_notifications(p);
        if p == Platform::Windows || p == Platform::MacOS {
            assert!(supported);
        } else {
            assert!(!supported);
        }
    }
}
