//! Per-event dispatch decisions.
//!
//! One event arrives per process invocation.  The surrounding application
//! parses the command line, loads the configuration, and then asks this
//! module what to do: drop the event, send one notification directly, or
//! feed the event to the aggregator.  It also renders the title and
//! message of a single (unbatched) notification.

use vstd::prelude::*;
use crate::config::Config;
use crate::notification::NotificationStatus;
use crate::policy::{spec_should_notify, PolicyEngine};
use crate::text::{lower_of, spec_u64_digits, str_eq, to_lowercase, u64_to_string};

verus! {

/// How a status word is understood: the recognized spellings, and
/// `Success` with a "not recognized" flag for everything else.
pub open spec fn spec_parse_status(s: Seq<char>) -> (NotificationStatus, bool) {
    if s == "success"@ {
        (NotificationStatus::Success, true)
    } else if s == "error"@ || s == "failed"@ || s == "failure"@ {
        (NotificationStatus::Error, true)
    } else if s == "pending"@ || s == "running"@ {
        (NotificationStatus::Pending, true)
    } else {
        (NotificationStatus::Success, false)
    }
}

/// Understands an already lower-cased status word.
pub fn parse_status_folded(s: &str) -> (r: (NotificationStatus, bool))
    ensures
        r == spec_parse_status(s@),
{
    if str_eq(s, "success") {
        (NotificationStatus::Success, true)
    } else if str_eq(s, "error") || str_eq(s, "failed") || str_eq(s, "failure") {
        (NotificationStatus::Error, true)
    } else if str_eq(s, "pending") || str_eq(s, "running") {
        (NotificationStatus::Pending, true)
    } else {
        (NotificationStatus::Success, false)
    }
}

/// Understands a status word as the command surface does: case
/// insensitively, with unrecognized words defaulting to `Success` (the
/// caller warns about those).
pub fn parse_status(s: &str) -> (r: (NotificationStatus, bool))
    ensures
        r == spec_parse_status(lower_of(s@)),
{
    let lowered = to_lowercase(s);
    parse_status_folded(lowered.as_str())
}

/// Events that skip batching: instantaneous ones and anything that is
/// not a plain success.
pub open spec fn spec_should_bypass(status: NotificationStatus, duration_sec: u64) -> bool {
    duration_sec == 0 || status == NotificationStatus::Error || status
        == NotificationStatus::Pending
}

/// Whether the event goes straight to the notifier, skipping batching.
pub fn should_bypass_aggregation(status: NotificationStatus, duration_sec: u64) -> (r: bool)
    ensures
        r == spec_should_bypass(status, duration_sec),
{
    duration_sec == 0 || matches!(status, NotificationStatus::Error)
        || matches!(status, NotificationStatus::Pending)
}

/// What the pipeline does with one event.
#[derive(Debug, Clone, Copy, PartialEq, Eq, Structural)]
pub enum DispatchDecision {
    /// Filtered out by policy: no side effects at all.
    Suppress,
    /// One notification, sent directly.
    SendDirect,
    /// Handed to the aggregator.
    Aggregate,
}

/// The dispatch rule: suppressed events are dropped; bypassing events,
/// and all events while batching is disabled, are sent directly; the
/// rest are batched.
pub open spec fn spec_decide(
    c: Config,
    status: NotificationStatus,
    duration_sec: u64,
    cmd: Seq<char>,
) -> DispatchDecision {
    if !spec_should_notify(c, status, duration_sec, cmd) {
        DispatchDecision::Suppress
    } else if spec_should_bypass(status, duration_sec) || !c.aggregation.enabled {
        DispatchDecision::SendDirect
    } else {
        DispatchDecision::Aggregate
    }
}

/// Decides what to do with one event.
pub fn decide(
    engine: &PolicyEngine,
    status: NotificationStatus,
    duration_sec: u64,
    cmd: &str,
) -> (r: DispatchDecision)
    ensures
        r == spec_decide(engine.config, status, duration_sec, cmd@),
{
    if !engine.should_notify(status, duration_sec, cmd) {
        DispatchDecision::Suppress
    } else if should_bypass_aggregation(status, duration_sec) || !engine.config.aggregation.enabled
    {
        DispatchDecision::SendDirect
    } else {
        DispatchDecision::Aggregate
    }
}

/// The title of a single notification.
pub open spec fn spec_build_title(status: NotificationStatus) -> Seq<char> {
    match status {
        NotificationStatus::Success => "任务完成"@,
        NotificationStatus::Error => "任务失败"@,
        NotificationStatus::Pending => "任务进行中"@,
    }
}

/// Renders the title of a single notification.
pub fn build_title(status: NotificationStatus, _cmd: &str) -> (r: String)
    ensures
        r@ == spec_build_title(status),
{
    match status {
        NotificationStatus::Success => String::from_str("任务完成"),
        NotificationStatus::Error => String::from_str("任务失败"),
        NotificationStatus::Pending => String::from_str("任务进行中"),
    }
}

/// The message of a single notification.
pub open spec fn spec_build_message(duration_sec: u64, cmd: Seq<char>) -> Seq<char> {
    cmd + " (耗时: "@ + spec_u64_digits(duration_sec as int) + "秒)"@
}

/// Renders the message of a single notification.
pub fn build_message(duration_sec: u64, cmd: &str) -> (r: String)
    ensures
        r@ == spec_build_message(duration_sec, cmd@),
{
    let mut s = String::from_str(cmd);
    s.append(" (耗时: ");
    let t = u64_to_string(duration_sec);
    s.append(t.as_str());
    s.append("秒)");
    s
}

} // verus!
