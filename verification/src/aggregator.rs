//! Notification aggregation.
//!
//! The durable record of an in-progress batch and the state machine that
//! drives it.  Each event is handled by a short-lived process, so the
//! surrounding application loads the record from durable storage, hands
//! it in as a plain value together with the current time, and persists
//! what comes out; every decision in between is made here.

use vstd::prelude::*;
use crate::text::{spec_u64_digits, spec_join, str_eq, u64_to_string, join_with};

verus! {

/// What the library knows about one buffered event: its status text,
/// duration, command line and arrival time.
pub type NotificationModel = (Seq<char>, u64, Seq<char>, u64);

/// One buffered event.
#[derive(Debug, Clone)]
pub struct AggregatedNotification {
    pub status: String,
    pub duration: u64,
    pub cmd: String,
    pub timestamp: u64,
}

impl View for AggregatedNotification {
    type V = NotificationModel;

    open spec fn view(&self) -> NotificationModel {
        (self.status@, self.duration, self.cmd@, self.timestamp)
    }
}

/// The models of a sequence of buffered events.
pub open spec fn models_of(s: Seq<AggregatedNotification>) -> Seq<NotificationModel> {
    s.map(|i: int, n: AggregatedNotification| n@)
}

/// How many of the events carry the given status text.
pub open spec fn count_status(s: Seq<NotificationModel>, which: Seq<char>) -> int
    decreases s.len(),
{
    if s.len() == 0 {
        0
    } else {
        count_status(s.drop_last(), which) + if s.last().0 == which {
            1int
        } else {
            0int
        }
    }
}

/// The count never exceeds the number of events.
pub proof fn lemma_count_status_le_len(s: Seq<NotificationModel>, which: Seq<char>)
    ensures
        0 <= count_status(s, which) <= s.len(),
    decreases s.len(),
{
    if s.len() > 0 {
        lemma_count_status_le_len(s.drop_last(), which);
    }
}

/// The durable record of an in-progress batch: the buffered events in
/// arrival order and the time the batch window opened.
#[derive(Debug, Clone)]
pub struct AggregationState {
    pub notifications: Vec<AggregatedNotification>,
    pub window_start: u64,
}

/// A window that opened at `window_start` has expired at `now` when more
/// than `window_ms / 1000` seconds have elapsed.
pub open spec fn spec_is_expired(window_start: u64, window_ms: u64, now: u64) -> bool {
    now.saturating_sub(window_start) > window_ms / 1000
}

impl AggregationState {
    /// A fresh batch opening at `now`, with no buffered events.
    pub fn new(now: u64) -> (r: Self)
        ensures
            r.notifications@.len() == 0,
            r.window_start == now,
    {
        AggregationState { notifications: Vec::new(), window_start: now }
    }

    /// Whether this batch's window has lapsed at `now`.
    pub fn is_expired(&self, window_ms: u64, now: u64) -> (r: bool)
        ensures
            r == spec_is_expired(self.window_start, window_ms, now),
    {
        let elapsed = now.saturating_sub(self.window_start);
        elapsed > window_ms / 1000
    }

    /// Appends one event, stamped with the current time.
    pub fn add(&mut self, status: &str, duration: u64, cmd: &str, now: u64)
        ensures
            final(self).window_start == old(self).window_start,
            models_of(final(self).notifications@) == models_of(old(self).notifications@).push(
                (status@, duration, cmd@, now),
            ),
    {
        let entry = AggregatedNotification {
            status: String::from_str(status),
            duration,
            cmd: String::from_str(cmd),
            timestamp: now,
        };
        self.notifications.push(entry);
        proof {
            assert(models_of(self.notifications@) =~= models_of(old(self).notifications@).push(
                (status@, duration, cmd@, now),
            ));
        }
    }

    /// Counts the buffered events: total, successes, errors.
    pub fn get_stats(&self) -> (r: (usize, usize, usize))
        ensures
            r.0 == self.notifications@.len(),
            r.1 == count_status(models_of(self.notifications@), "success"@),
            r.2 == count_status(models_of(self.notifications@), "error"@),
    {
        let n = self.notifications.len();
        let mut success: usize = 0;
        let mut error: usize = 0;
        let mut i: usize = 0;
        proof {
            assert(models_of(self.notifications@).take(0) =~= Seq::<NotificationModel>::empty());
        }
        while i < n
            invariant
                i <= n,
                n == self.notifications@.len(),
                success == count_status(models_of(self.notifications@).take(i as int), "success"@),
                error == count_status(models_of(self.notifications@).take(i as int), "error"@),
                success <= i,
                error <= i,
            decreases n - i,
        {
            proof {
                let ms = models_of(self.notifications@);
                assert(ms.take(i + 1 as int).drop_last() =~= ms.take(i as int));
                assert(ms.take(i + 1 as int).last() == ms[i as int]);
            }
            if str_eq(self.notifications[i].status.as_str(), "success") {
                success = success + 1;
            }
            if str_eq(self.notifications[i].status.as_str(), "error") {
                error = error + 1;
            }
            i = i + 1;
        }
        proof {
            assert(models_of(self.notifications@).take(n as int) =~= models_of(
                self.notifications@,
            ));
        }
        (n, success, error)
    }
}

/// The summary fields of `res` agree with the given sequence of events.
pub open spec fn result_matches(res: AggregatedResult, entries: Seq<NotificationModel>) -> bool {
    &&& res.total == entries.len()
    &&& res.success == count_status(entries, "success"@)
    &&& res.error == count_status(entries, "error"@)
    &&& models_of(res.notifications@) == entries
}

/// The entries and window start that an `add` builds on: the loaded batch
/// if one is open and not expired, else a fresh batch opening at `now`.
pub open spec fn spec_base(state: Option<AggregationState>, window_ms: u64, now: u64) -> (
    Seq<NotificationModel>,
    u64,
) {
    match state {
        Some(st) => if spec_is_expired(st.window_start, window_ms, now) {
            (Seq::empty(), now)
        } else {
            (models_of(st.notifications@), st.window_start)
        },
        None => (Seq::empty(), now),
    }
}

/// A batch whose window has lapsed contributes nothing to the next add:
/// it is discarded, buffered events and all, and replaced by a fresh
/// window opening at `now`.
pub proof fn lemma_expired_window_discarded(st: AggregationState, window_ms: u64, now: u64)
    requires
        spec_is_expired(st.window_start, window_ms, now),
    ensures
        spec_base(Some(st), window_ms, now) == (Seq::<NotificationModel>::empty(), now),
{
}

/// The aggregation state machine.
///
/// `state` is the current durable record (`None` when no batch is open);
/// the surrounding application persists `state` after each operation.
pub struct NotificationAggregator {
    pub state: Option<AggregationState>,
    pub window_ms: u64,
    pub max_toasts: usize,
}

impl NotificationAggregator {
    /// Wraps a loaded record (or its absence) with the batching
    /// parameters.  An unreadable record is handed in as `None`.
    pub fn new(state: Option<AggregationState>, window_ms: u64, max_toasts: usize) -> (r: Self)
        ensures
            r.state == state,
            r.window_ms == window_ms,
            r.max_toasts == max_toasts,
    {
        NotificationAggregator { state, window_ms, max_toasts }
    }

    /// Buffers one event and reports whether the batch is ready.
    ///
    /// An expired window is discarded together with its buffered events
    /// and replaced by a fresh one.  The new event is always appended and
    /// the state kept, even when a ready result is returned: only an
    /// explicit `flush` clears the buffer.
    pub fn add_notification(&mut self, status: &str, duration: u64, cmd: &str, now: u64) -> (r:
        Option<AggregatedResult>)
        ensures
            final(self).window_ms == old(self).window_ms,
            final(self).max_toasts == old(self).max_toasts,
            final(self).state is Some,
            ({
                let (base, ws) = spec_base(old(self).state, old(self).window_ms, now);
                let entries = base.push((status@, duration, cmd@, now));
                &&& final(self).state->0.window_start == ws
                &&& models_of(final(self).state->0.notifications@) == entries
                &&& (r is Some <==> entries.len() >= old(self).max_toasts)
                &&& (r is Some ==> result_matches(r->0, entries))
            }),
    {
        let window_ms = self.window_ms;
        let mut st = match self.state.take() {
            Some(st) => if st.is_expired(window_ms, now) {
                AggregationState::new(now)
            } else {
                st
            },
            None => AggregationState::new(now),
        };
        st.add(status, duration, cmd, now);
        let should_send = st.notifications.len() >= self.max_toasts;
        let r = if should_send {
            Some(Self::build_result(&st))
        } else {
            None
        };
        proof {
            assert(models_of(st.notifications@).len() == st.notifications@.len());
        }
        self.state = Some(st);
        r
    }

    /// Flushes the buffered events unconditionally.
    ///
    /// Returns nothing when no events are buffered (and leaves the state
    /// untouched); otherwise clears the durable record and returns the
    /// summary, whether or not the window has expired.
    pub fn flush(&mut self) -> (r: Option<AggregatedResult>)
        ensures
            final(self).window_ms == old(self).window_ms,
            final(self).max_toasts == old(self).max_toasts,
            match old(self).state {
                None => r is None && final(self).state is None,
                Some(st) => if st.notifications@.len() == 0 {
                    r is None && final(self).state == old(self).state
                } else {
                    &&& r is Some
                    &&& result_matches(r->0, models_of(st.notifications@))
                    &&& final(self).state is None
                },
            },
    {
        match &self.state {
            None => None,
            Some(st) => {
                if st.notifications.len() == 0 {
                    return None;
                }
                let result = Self::build_result(st);
                self.state = None;
                Some(result)
            },
        }
    }

    /// Whether a batch is open, holds at least one event, and has not
    /// expired at `now`.
    pub fn has_pending(&self, now: u64) -> (r: bool)
        ensures
            r == match self.state {
                Some(st) => st.notifications@.len() > 0 && !spec_is_expired(
                    st.window_start,
                    self.window_ms,
                    now,
                ),
                None => false,
            },
    {
        match &self.state {
            Some(st) => st.notifications.len() > 0 && !st.is_expired(self.window_ms, now),
            None => false,
        }
    }

    /// Summarizes the batch's events.
    fn build_result(state: &AggregationState) -> (r: AggregatedResult)
        ensures
            result_matches(r, models_of(state.notifications@)),
    {
        let (total, success, error) = state.get_stats();
        AggregatedResult { total, success, error, notifications: copy_entries(&state.notifications) }
    }
}

/// A field-for-field copy of the buffered events.
fn copy_entries(v: &Vec<AggregatedNotification>) -> (r: Vec<AggregatedNotification>)
    ensures
        r@ == v@,
{
    let mut r: Vec<AggregatedNotification> = Vec::new();
    let mut i: usize = 0;
    while i < v.len()
        invariant
            i <= v.len(),
            r@ == v@.take(i as int),
        decreases v.len() - i,
    {
        let e = &v[i];
        r.push(
            AggregatedNotification {
                status: e.status.clone(),
                duration: e.duration,
                cmd: e.cmd.clone(),
                timestamp: e.timestamp,
            },
        );
        proof {
            assert(v@.take(i as int).push(v@[i as int]) =~= v@.take(i + 1 as int));
        }
        i = i + 1;
    }
    proof {
        assert(v@.take(v@.len() as int) =~= v@);
    }
    r
}

/// The summary a ready batch produces, used only to render one outgoing
/// notification.
#[derive(Debug, Clone)]
pub struct AggregatedResult {
    pub total: usize,
    pub success: usize,
    pub error: usize,
    pub notifications: Vec<AggregatedNotification>,
}

/// The title of the batched notification.
pub open spec fn spec_title(total: int, success: int, error: int) -> Seq<char> {
    if error > 0 {
        spec_u64_digits(total) + " 个任务完成 ("@ + spec_u64_digits(success) + " 成功, "@
            + spec_u64_digits(error) + " 失败)"@
    } else {
        spec_u64_digits(total) + " 个任务已完成"@
    }
}

/// The icon shown for one buffered event.
pub open spec fn spec_icon(status: Seq<char>) -> Seq<char> {
    if status == "success"@ {
        "✅"@
    } else {
        "❌"@
    }
}

/// The line shown for one buffered event in the recent-tasks section.
pub open spec fn spec_entry_line(e: NotificationModel) -> Seq<char> {
    "  "@ + spec_icon(e.0) + " "@ + e.2 + " ("@ + spec_u64_digits(e.1 as int) + "秒)"@
}

/// The lines of the batched notification's message: one line per
/// non-zero bucket, and a recent-tasks section when at most five events
/// are buffered.
pub open spec fn spec_message_lines(
    success: int,
    error: int,
    entries: Seq<NotificationModel>,
) -> Seq<Seq<char>> {
    let a = if success > 0 {
        seq![("✅ 成功: "@ + spec_u64_digits(success) + " 个"@)]
    } else {
        Seq::<Seq<char>>::empty()
    };
    let b = if error > 0 {
        seq![("❌ 失败: "@ + spec_u64_digits(error) + " 个"@)]
    } else {
        Seq::<Seq<char>>::empty()
    };
    let c = if entries.len() > 0 && entries.len() <= 5 {
        seq!["\n最近的任务:"@] + entries.map(|i: int, e: NotificationModel| spec_entry_line(e))
    } else {
        Seq::<Seq<char>>::empty()
    };
    a + b + c
}

/// The message of the batched notification.
pub open spec fn spec_message(success: int, error: int, entries: Seq<NotificationModel>) -> Seq<
    char,
> {
    spec_join(spec_message_lines(success, error, entries), "\n"@)
}

impl AggregatedResult {
    /// Renders the notification title.
    pub fn title(&self) -> (r: String)
        ensures
            r@ == spec_title(self.total as int, self.success as int, self.error as int),
    {
        let mut s = u64_to_string(self.total as u64);
        if self.error > 0 {
            s.append(" 个任务完成 (");
            let t = u64_to_string(self.success as u64);
            s.append(t.as_str());
            s.append(" 成功, ");
            let t = u64_to_string(self.error as u64);
            s.append(t.as_str());
            s.append(" 失败)");
        } else {
            s.append(" 个任务已完成");
        }
        s
    }

    /// Renders the notification message.
    pub fn message(&self) -> (r: String)
        ensures
            r@ == spec_message(
                self.success as int,
                self.error as int,
                models_of(self.notifications@),
            ),
    {
        let ghost entries = models_of(self.notifications@);
        let mut lines: Vec<String> = Vec::new();
        if self.success > 0 {
            let mut l = String::from_str("✅ 成功: ");
            let t = u64_to_string(self.success as u64);
            l.append(t.as_str());
            l.append(" 个");
            lines.push(l);
        }
        if self.error > 0 {
            let mut l = String::from_str("❌ 失败: ");
            let t = u64_to_string(self.error as u64);
            l.append(t.as_str());
            l.append(" 个");
            lines.push(l);
        }
        let ghost head = spec_message_lines(self.success as int, self.error as int, entries).take(
            spec_message_lines(self.success as int, self.error as int, entries).len() as int
                - if entries.len() > 0 && entries.len() <= 5 {
                entries.len() as int + 1
            } else {
                0
            },
        );
        proof {
            assert(lines.deep_view() =~= head);
        }
        let n = self.notifications.len();
        if n > 0 && n <= 5 {
            lines.push(String::from_str("\n最近的任务:"));
            proof {
                assert(lines.deep_view() =~= head + seq!["\n最近的任务:"@]);
            }
            let mut i: usize = 0;
            while i < n
                invariant
                    i <= n,
                    n == self.notifications@.len(),
                    n <= 5,
                    entries == models_of(self.notifications@),
                    head == spec_message_lines(
                        self.success as int,
                        self.error as int,
                        entries,
                    ).take(
                        spec_message_lines(self.success as int, self.error as int, entries).len()
                            as int - (entries.len() as int + 1),
                    ),
                    lines.deep_view() == head + seq!["\n最近的任务:"@] + entries.take(i as int).map(
                        |j: int, e: NotificationModel| spec_entry_line(e),
                    ),
                decreases n - i,
            {
                let e = &self.notifications[i];
                let mut l = String::from_str("  ");
                if str_eq(e.status.as_str(), "success") {
                    l.append("✅");
                } else {
                    l.append("❌");
                }
                l.append(" ");
                l.append(e.cmd.as_str());
                l.append(" (");
                let t = u64_to_string(e.duration);
                l.append(t.as_str());
                l.append("秒)");
                proof {
                    assert(l@ == spec_entry_line(entries[i as int]));
                }
                let ghost pre_dv = lines.deep_view();
                lines.push(l);
                proof {
                    assert(lines.deep_view() =~= pre_dv.push(spec_entry_line(entries[i as int])));
                    assert(entries.take(i + 1 as int).map(
                        |j: int, e: NotificationModel| spec_entry_line(e),
                    ) =~= entries.take(i as int).map(
                        |j: int, e: NotificationModel| spec_entry_line(e),
                    ).push(spec_entry_line(entries[i as int])));
                    assert(lines.deep_view() =~= head + seq!["\n最近的任务:"@] + entries.take(
                        i + 1 as int,
                    ).map(|j: int, e: NotificationModel| spec_entry_line(e)));
                }
                i = i + 1;
            }
            proof {
                assert(entries.take(n as int) =~= entries);
                assert(lines.deep_view() =~= spec_message_lines(
                    self.success as int,
                    self.error as int,
                    entries,
                ));
            }
        } else {
            proof {
                assert(lines.deep_view() =~= spec_message_lines(
                    self.success as int,
                    self.error as int,
                    entries,
                ));
            }
        }
        join_with(&lines, "\n")
    }

    /// The status the batched notification is sent with: `"error"` when
    /// any event failed, else `"success"`.
    pub fn status(&self) -> (r: &str)
        ensures
            r@ == if self.error > 0 {
                "error"@
            } else {
                "success"@
            },
    {
        if self.error > 0 {
            "error"
        } else {
            "success"
        }
    }
}

} // verus!
