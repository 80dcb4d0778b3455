//! Policy engine.
//!
//! Pure decisions over one event and the configuration: whether the event
//! is worth surfacing at all, which named template governs its
//! presentation, and whether aggregation applies.

use vstd::prelude::*;
use crate::config::{Config, TemplateConfig};
use crate::notification::NotificationStatus;
use crate::text::{contains_str, spec_contains};

verus! {

/// Some whitelist entry occurs in the command line.
pub open spec fn in_whitelist(whitelist: Seq<String>, cmd: Seq<char>) -> bool {
    exists|i: int| 0 <= i < whitelist.len() && spec_contains(cmd, whitelist[i]@)
}

/// An event is notified when it errored, when its command is whitelisted,
/// or when it ran at least the configured minimum duration.
pub open spec fn spec_should_notify(
    c: Config,
    status: NotificationStatus,
    duration_sec: u64,
    cmd: Seq<char>,
) -> bool {
    ||| status == NotificationStatus::Error
    ||| in_whitelist(c.threshold.whitelist@, cmd)
    ||| duration_sec >= c.threshold.min_duration
}

/// The name of the first custom template whose name occurs in the
/// command line, if any.
pub open spec fn first_matching_template(
    custom: Seq<(String, TemplateConfig)>,
    cmd: Seq<char>,
) -> Option<Seq<char>>
    decreases custom.len(),
{
    if custom.len() == 0 {
        None
    } else if spec_contains(cmd, custom[0].0@) {
        Some(custom[0].0@)
    } else {
        first_matching_template(custom.drop_first(), cmd)
    }
}

/// Decides which events are surfaced and how they are presented.
pub struct PolicyEngine {
    pub config: Config,
}

impl PolicyEngine {
    pub fn new(config: Config) -> (r: Self)
        ensures
            r.config == config,
    {
        PolicyEngine { config }
    }

    /// Whether the event should produce a notification at all.
    ///
    /// Errors are never suppressed; whitelisted commands are always
    /// notified; everything else must reach the minimum duration.
    pub fn should_notify(
        &self,
        status: NotificationStatus,
        duration_sec: u64,
        cmd: &str,
    ) -> (r: bool)
        ensures
            r == spec_should_notify(self.config, status, duration_sec, cmd@),
    {
        if matches!(status, NotificationStatus::Error) {
            return true;
        }
        let n = self.config.threshold.whitelist.len();
        let mut i: usize = 0;
        while i < n
            invariant
                i <= n,
                n == self.config.threshold.whitelist@.len(),
                forall|j: int|
                    0 <= j < i ==> !spec_contains(cmd@, self.config.threshold.whitelist@[j]@),
            decreases n - i,
        {
            if contains_str(cmd, self.config.threshold.whitelist[i].as_str()) {
                proof {
                    assert(in_whitelist(self.config.threshold.whitelist@, cmd@));
                }
                return true;
            }
            i = i + 1;
        }
        proof {
            assert(!in_whitelist(self.config.threshold.whitelist@, cmd@));
        }
        duration_sec >= self.config.threshold.min_duration
    }

    /// The template that governs the event's presentation: the first
    /// custom template whose name occurs in the command line, else
    /// `"default"`.
    pub fn match_template(&self, cmd: &str) -> (r: Option<String>)
        ensures
            r is Some,
            match first_matching_template(self.config.templates.custom@, cmd@) {
                Some(name) => r->0@ == name,
                None => r->0@ == "default"@,
            },
    {
        let n = self.config.templates.custom.len();
        let mut i: usize = 0;
        proof {
            assert(self.config.templates.custom@.skip(0) =~= self.config.templates.custom@);
        }
        while i < n
            invariant
                i <= n,
                n == self.config.templates.custom@.len(),
                first_matching_template(self.config.templates.custom@, cmd@)
                    == first_matching_template(self.config.templates.custom@.skip(i as int), cmd@),
            decreases n - i,
        {
            proof {
                assert(self.config.templates.custom@.skip(i as int)[0]
                    == self.config.templates.custom@[i as int]);
                assert(self.config.templates.custom@.skip(i as int).drop_first()
                    =~= self.config.templates.custom@.skip(i + 1 as int));
            }
            if contains_str(cmd, self.config.templates.custom[i].0.as_str()) {
                return Some(self.config.templates.custom[i].0.clone());
            }
            i = i + 1;
        }
        proof {
            assert(self.config.templates.custom@.skip(n as int) =~= Seq::<(
                String,
                TemplateConfig,
            )>::empty());
        }
        Some(String::from_str("default"))
    }

    /// Whether batching is enabled at all.
    pub fn should_aggregate(&self) -> (r: bool)
        ensures
            r == self.config.aggregation.enabled,
    {
        self.config.aggregation.enabled
    }

    /// The batch window lifetime in milliseconds.
    pub fn aggregation_window(&self) -> (r: u64)
        ensures
            r == self.config.aggregation.window,
    {
        self.config.aggregation.window
    }
}

/// An errored event is notified regardless of duration and whitelist.
pub proof fn lemma_error_override(c: Config, duration_sec: u64, cmd: Seq<char>)
    ensures
        spec_should_notify(c, NotificationStatus::Error, duration_sec, cmd),
{
}

/// A non-whitelisted successful event is notified exactly when it reaches
/// the minimum duration.
pub proof fn lemma_threshold(c: Config, duration_sec: u64, cmd: Seq<char>)
    requires
        !in_whitelist(c.threshold.whitelist@, cmd),
    ensures
        spec_should_notify(c, NotificationStatus::Success, duration_sec, cmd) == (duration_sec
            >= c.threshold.min_duration),
{
}

/// A command containing a whitelisted substring is notified even at
/// duration zero.
pub proof fn lemma_whitelist_override(
    c: Config,
    status: NotificationStatus,
    duration_sec: u64,
    cmd: Seq<char>,
)
    requires
        in_whitelist(c.threshold.whitelist@, cmd),
    ensures
        spec_should_notify(c, status, duration_sec, cmd),
{
}

} // verus!
