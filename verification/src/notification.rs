//! Toast notifications and persistent notification log.
//!
//! [`Toasts`] manages short-lived overlay messages that expire after a
//! duration based on severity; [`NotificationLog`] keeps a capped history of
//! all notifications, numbered in order, for a scrollable console panel.

use std::collections::VecDeque;
use std::time::{Duration, Instant};
use vstd::prelude::*;

verus! {

// ---------------------------------------------------------------------------
// Durations and the clock
// ---------------------------------------------------------------------------

/// The length of a span in nanoseconds (what `Duration::as_nanos` returns).
pub uninterp spec fn duration_nanos(d: Duration) -> u128;

/// `Duration` is `Copy`: its `clone` returns the same span.
pub assume_specification[ <Duration as Clone>::clone ](d: &Duration) -> (r: Duration)
    ensures
        r == *d,
;

/// `Duration::as_nanos`: the length of the span in nanoseconds.
#[verifier::external_body]
fn nanos_of(d: &Duration) -> (n: u128)
    ensures
        n == duration_nanos(*d),
{
    d.as_nanos()
}

/// `Duration::from_secs`: a span of `secs` whole seconds.
#[verifier::external_body]
fn duration_from_secs(secs: u64) -> (d: Duration)
    ensures
        duration_nanos(d) == secs * 1_000_000_000,
{
    Duration::from_secs(secs)
}

/// `Duration::saturating_sub`: `a - b`, or zero when `b` is the longer.
#[verifier::external_body]
fn duration_saturating_sub(a: Duration, b: Duration) -> (d: Duration)
    ensures
        duration_nanos(d) == if duration_nanos(a) >= duration_nanos(b) {
            duration_nanos(a) - duration_nanos(b)
        } else {
            0
        },
{
    a.saturating_sub(b)
}

/// The clock's current reading.
#[verifier::external_type_specification]
#[verifier::external_body]
pub struct ExInstant(Instant);

/// `Instant` is `Copy`: its `clone` returns the same reading.
pub assume_specification[ <Instant as Clone>::clone ](i: &Instant) -> (r: Instant)
    ensures
        r == *i,
;

/// Reads the monotonic clock (`std::time::Instant::now`). Nothing is promised
/// of the reading: it depends on when the call happens.
#[verifier::external_body]
fn clock_now() -> Instant {
    Instant::now()
}

/// Time since `start` on the monotonic clock (`Instant::elapsed`). Nothing
/// is promised of the value: it depends on when the call happens.
#[verifier::external_body]
fn clock_elapsed(start: &Instant) -> Duration {
    start.elapsed()
}

// ---------------------------------------------------------------------------
// Severity
// ---------------------------------------------------------------------------

/// Severity level for notifications.
#[derive(Debug, Clone, Copy, PartialEq, Eq, Hash, Structural)]
#[non_exhaustive]
pub enum Severity {
    /// Informational: operation succeeded, status update.
    Info,
    /// Something unexpected but non-fatal.
    Warning,
    /// Operation failed or critical issue.
    Error,
}

/// Default display time of a severity, in seconds.
pub open spec fn default_secs(severity: Severity) -> nat {
    match severity {
        Severity::Info => 3,
        Severity::Warning => 5,
        Severity::Error => 8,
    }
}

/// Display name of a severity.
pub open spec fn severity_name(severity: Severity) -> Seq<char> {
    match severity {
        Severity::Info => "info"@,
        Severity::Warning => "warning"@,
        Severity::Error => "error"@,
    }
}

impl Severity {
    /// Default display duration for this severity level.
    pub fn default_duration(self) -> (d: Duration)
        ensures
            duration_nanos(d) == default_secs(self) * 1_000_000_000,
    {
        match self {
            Severity::Info => duration_from_secs(3),
            Severity::Warning => duration_from_secs(5),
            Severity::Error => duration_from_secs(8),
        }
    }

    /// Display name of the severity ("info", "warning", "error").
    pub fn to_string(&self) -> (s: String)
        ensures
            s@ == severity_name(*self),
    {
        match self {
            Severity::Info => "info".to_owned(),
            Severity::Warning => "warning".to_owned(),
            Severity::Error => "error".to_owned(),
        }
    }
}

// ---------------------------------------------------------------------------
// Toast
// ---------------------------------------------------------------------------

/// An ephemeral notification with auto-expiry.
///
/// Tracks its own creation time and duration so consumers can query
/// [`is_expired`](Toast::is_expired) and [`remaining`](Toast::remaining).
#[derive(Debug, Clone)]
pub struct Toast {
    /// The notification message.
    pub message: String,
    /// Severity level (determines default duration and display style).
    pub severity: Severity,
    created: Instant,
    duration: Duration,
}

impl Toast {
    /// How long the toast is displayed.
    pub closed spec fn spec_duration(&self) -> Duration {
        self.duration
    }

    /// The toast's message.
    pub closed spec fn spec_message(&self) -> Seq<char> {
        self.message@
    }

    /// The toast's severity.
    pub closed spec fn spec_severity(&self) -> Severity {
        self.severity
    }

    /// Create a toast with the severity's default duration.
    pub fn new(message: &str, severity: Severity) -> (t: Self)
        ensures
            t.spec_message() == message@,
            t.spec_severity() == severity,
            duration_nanos(t.spec_duration()) == default_secs(severity) * 1_000_000_000,
    {
        let duration = severity.default_duration();
        Toast { message: message.to_owned(), severity, created: clock_now(), duration }
    }

    /// Create a toast with a custom duration.
    pub fn with_duration(message: &str, severity: Severity, duration: Duration) -> (t: Self)
        ensures
            t.spec_message() == message@,
            t.spec_severity() == severity,
            t.spec_duration() == duration,
    {
        Toast { message: message.to_owned(), severity, created: clock_now(), duration }
    }

    /// Whether a toast that has been shown for `elapsed` has expired.
    pub fn expired_after(&self, elapsed: Duration) -> (b: bool)
        ensures
            b == (duration_nanos(elapsed) >= duration_nanos(self.spec_duration())),
    {
        nanos_of(&elapsed) >= nanos_of(&self.duration)
    }

    /// Time left for a toast that has been shown for `elapsed`.
    pub fn remaining_after(&self, elapsed: Duration) -> (d: Duration)
        ensures
            duration_nanos(d) == if duration_nanos(self.spec_duration()) >= duration_nanos(elapsed) {
                duration_nanos(self.spec_duration()) - duration_nanos(elapsed)
            } else {
                0
            },
    {
        duration_saturating_sub(self.duration, elapsed)
    }

    /// Whether this toast has expired and should be removed. A toast of zero
    /// duration is always expired.
    pub fn is_expired(&self) -> (b: bool)
        ensures
            duration_nanos(self.spec_duration()) == 0 ==> b,
    {
        let elapsed = clock_elapsed(&self.created);
        self.expired_after(elapsed)
    }

    /// Remaining time before expiry; never more than the toast's duration.
    pub fn remaining(&self) -> (d: Duration)
        ensures
            duration_nanos(d) <= duration_nanos(self.spec_duration()),
    {
        let elapsed = clock_elapsed(&self.created);
        self.remaining_after(elapsed)
    }

    /// The total duration this toast is displayed.
    pub fn duration(&self) -> (d: Duration)
        ensures
            d == self.spec_duration(),
    {
        self.duration
    }
}

// ---------------------------------------------------------------------------
// Toasts
// ---------------------------------------------------------------------------

/// The toasts of `toasts` that have not expired, given for each how long it
/// has been shown (`elapsed[i]` for `toasts[i]`), in their order.
pub open spec fn unexpired(toasts: Seq<Toast>, elapsed: Seq<Duration>) -> Seq<Toast>
    decreases toasts.len(),
{
    if toasts.len() == 0 || elapsed.len() != toasts.len() {
        Seq::empty()
    } else {
        let kept = unexpired(toasts.drop_last(), elapsed.drop_last());
        if duration_nanos(elapsed.last()) < duration_nanos(toasts.last().spec_duration()) {
            kept.push(toasts.last())
        } else {
            kept
        }
    }
}

/// Manages a collection of active toast notifications.
///
/// Call [`gc`](Toasts::gc) each frame to remove expired toasts.
#[derive(Debug, Clone)]
pub struct Toasts {
    active: Vec<Toast>,
}

impl Toasts {
    /// The active toasts, oldest first.
    pub closed spec fn spec_active(&self) -> Seq<Toast> {
        self.active@
    }

    /// Create an empty toast manager.
    pub fn new() -> (t: Self)
        ensures
            t.spec_active() == Seq::<Toast>::empty(),
    {
        Toasts { active: Vec::new() }
    }

    /// Push a toast with the severity's default duration.
    pub fn push(&mut self, message: &str, severity: Severity)
        ensures
            final(self).spec_active().len() == old(self).spec_active().len() + 1,
            final(self).spec_active().drop_last() == old(self).spec_active(),
            final(self).spec_active().last().spec_message() == message@,
            final(self).spec_active().last().spec_severity() == severity,
            duration_nanos(final(self).spec_active().last().spec_duration()) == default_secs(severity)
                * 1_000_000_000,
    {
        let toast = Toast::new(message, severity);
        self.active.push(toast);
        assert(self.active@.drop_last() =~= old(self).active@);
    }

    /// Push a pre-built toast.
    pub fn push_toast(&mut self, toast: Toast)
        ensures
            final(self).spec_active() == old(self).spec_active().push(toast),
    {
        self.active.push(toast);
    }

    /// Keep the toasts that have not expired, given for each active toast
    /// how long it has been shown (`elapsed[i]` for the `i`-th toast).
    pub fn retain_unexpired(&mut self, elapsed: &[Duration])
        requires
            elapsed@.len() == old(self).spec_active().len(),
        ensures
            final(self).spec_active() == unexpired(old(self).spec_active(), elapsed@),
    {
        let ghost all = self.active@;
        let mut kept: Vec<Toast> = Vec::new();
        let mut rest: Vec<Toast> = Vec::new();
        std::mem::swap(&mut rest, &mut self.active);
        // Move the toasts out back to front, then put the survivors back in order.
        let n = rest.len();
        let mut reversed: Vec<Toast> = Vec::new();
        while rest.len() > 0
            invariant
                rest@.len() + reversed@.len() == n,
                n == all.len(),
                rest@ == all.take(rest@.len() as int),
                forall|j: int| 0 <= j < reversed@.len() ==> #[trigger] reversed@[j] == all[n - 1 - j],
            decreases rest@.len(),
        {
            let t = rest.pop().unwrap();
            reversed.push(t);
            assert(rest@ =~= all.take(rest@.len() as int));
        }
        let mut i: usize = 0;
        while reversed.len() > 0
            invariant
                reversed@.len() + i == n,
                n == all.len(),
                n == elapsed@.len(),
                forall|j: int| 0 <= j < reversed@.len() ==> #[trigger] reversed@[j] == all[n - 1 - j],
                kept@ == unexpired(all.take(i as int), elapsed@.take(i as int)),
            decreases reversed@.len(),
        {
            let t = reversed.pop().unwrap();
            assert(t == all[i as int]);
            proof {
                assert(all.take(i + 1).drop_last() =~= all.take(i as int));
                assert(elapsed@.take(i + 1).drop_last() =~= elapsed@.take(i as int));
                assert(all.take(i + 1).last() == all[i as int]);
                assert(elapsed@.take(i + 1).last() == elapsed@[i as int]);
            }
            if !t.expired_after(elapsed[i]) {
                kept.push(t);
            }
            i = i + 1;
        }
        assert(all.take(n as int) =~= all);
        assert(elapsed@.take(n as int) =~= elapsed@);
        self.active = kept;
    }

    /// Remove expired toasts. Call each frame. What survives is decided by
    /// the clock: the toasts kept are, in order, those that had not expired
    /// when each was checked.
    pub fn gc(&mut self)
        ensures
            exists|elapsed: Seq<Duration>|
                elapsed.len() == old(self).spec_active().len() && final(self).spec_active()
                    == #[trigger] unexpired(old(self).spec_active(), elapsed),
    {
        let n = self.active.len();
        let mut elapsed: Vec<Duration> = Vec::new();
        let mut i: usize = 0;
        while i < n
            invariant
                i <= n,
                n == self.active@.len(),
                elapsed@.len() == i,
                self.active@ == old(self).active@,
            decreases n - i,
        {
            elapsed.push(clock_elapsed(&self.active[i].created));
            i = i + 1;
        }
        self.retain_unexpired(elapsed.as_slice());
    }

    /// Active (non-expired) toasts, newest last.
    pub fn active(&self) -> (s: &[Toast])
        ensures
            s@ == self.spec_active(),
    {
        self.active.as_slice()
    }

    /// Number of active toasts.
    pub fn len(&self) -> (n: usize)
        ensures
            n == self.spec_active().len(),
    {
        self.active.len()
    }

    /// Whether there are no active toasts.
    pub fn is_empty(&self) -> (b: bool)
        ensures
            b == (self.spec_active().len() == 0),
    {
        self.active.len() == 0
    }

    /// Remove all active toasts.
    pub fn clear(&mut self)
        ensures
            final(self).spec_active() == Seq::<Toast>::empty(),
    {
        self.active.clear();
    }
}

impl Default for Toasts {
    fn default() -> (t: Self)
        ensures
            t.spec_active() == Seq::<Toast>::empty(),
    {
        Self::new()
    }
}

/// Garbage collection never adds a toast or reorders them, and drops every
/// toast of zero duration: the survivors are an ordered subsequence of the
/// toasts, each with a duration longer than the time it had been shown.
pub proof fn lemma_unexpired_is_ordered_subset(toasts: Seq<Toast>, elapsed: Seq<Duration>)
    requires
        elapsed.len() == toasts.len(),
    ensures
        unexpired(toasts, elapsed).len() <= toasts.len(),
        forall|k: int|
            0 <= k < unexpired(toasts, elapsed).len() ==> exists|j: int|
                0 <= j < toasts.len() && toasts[j] == #[trigger] unexpired(toasts, elapsed)[k]
                    && duration_nanos(elapsed[j]) < duration_nanos(toasts[j].spec_duration()),
        forall|k: int|
            0 <= k < unexpired(toasts, elapsed).len() ==> duration_nanos((#[trigger] unexpired(toasts, elapsed)[k]).spec_duration()) > 0,
    decreases toasts.len(),
{
    if toasts.len() > 0 {
        let t0 = toasts.drop_last();
        let e0 = elapsed.drop_last();
        lemma_unexpired_is_ordered_subset(t0, e0);
        let kept = unexpired(t0, e0);
        let u = unexpired(toasts, elapsed);
        assert forall|k: int| 0 <= k < u.len() implies exists|j: int|
            0 <= j < toasts.len() && toasts[j] == #[trigger] u[k]
                && duration_nanos(elapsed[j]) < duration_nanos(toasts[j].spec_duration()) by {
            if k < kept.len() {
                assert(u[k] == kept[k]);
                let j = choose|j: int| 0 <= j < t0.len() && t0[j] == #[trigger] kept[k]
                    && duration_nanos(e0[j]) < duration_nanos(t0[j].spec_duration());
                assert(toasts[j] == t0[j]);
                assert(elapsed[j] == e0[j]);
            } else {
                assert(u[k] == toasts.last());
                assert(toasts[toasts.len() - 1] == toasts.last());
            }
        }
        assert forall|k: int| 0 <= k < u.len() implies duration_nanos((#[trigger] u[k]).spec_duration()) > 0 by {
            if k < kept.len() {
                assert(u[k] == kept[k]);
            }
        }
    }
}

// ---------------------------------------------------------------------------
// Notification and NotificationLog
// ---------------------------------------------------------------------------

/// A persistent notification for console/log panel display.
///
/// Notifications don't expire. They carry a monotonic sequence number
/// instead of wall-clock time so ordering is always correct.
#[derive(Debug, Clone)]
pub struct Notification {
    /// The notification message.
    pub message: String,
    /// Severity level.
    pub severity: Severity,
    /// Source subsystem (e.g. "history", "export", "inspector").
    pub source: String,
    /// Monotonic sequence number (assigned by [`NotificationLog`]).
    pub seq: u64,
}

/// Default maximum log entries.
pub const DEFAULT_MAX_LOG: usize = 512;

/// The log after making room for one more entry: the oldest entry leaves
/// when the log is at (or over) its cap.
pub open spec fn log_make_room(entries: Seq<Notification>, max_entries: usize) -> Seq<Notification> {
    if entries.len() >= max_entries && entries.len() > 0 {
        entries.drop_first()
    } else {
        entries
    }
}

/// Capped notification history for a scrollable console/log panel.
///
/// Uses a `VecDeque` for O(1) eviction of the oldest entries.
#[derive(Debug, Clone)]
pub struct NotificationLog {
    entries: VecDeque<Notification>,
    max_entries: usize,
    next_seq: u64,
}

impl NotificationLog {
    /// The entries, oldest first.
    pub closed spec fn spec_entries(&self) -> Seq<Notification> {
        self.entries@
    }

    /// The cap on the number of entries.
    pub closed spec fn spec_max_entries(&self) -> usize {
        self.max_entries
    }

    /// The sequence number the next entry will get.
    pub closed spec fn spec_next_seq(&self) -> u64 {
        self.next_seq
    }

    /// The log holds at most its cap (at least one) of entries, their
    /// sequence numbers strictly increase, and all are below the next one.
    pub open spec fn wf(&self) -> bool {
        let e = self.spec_entries();
        &&& e.len() <= self.spec_max_entries()
        &&& forall|i: int, j: int| 0 <= i < j < e.len() ==> (#[trigger] e[i]).seq < (#[trigger] e[j]).seq
        &&& forall|i: int| 0 <= i < e.len() ==> (#[trigger] e[i]).seq < self.spec_next_seq()
    }

    /// `self` is `prev` after logging `message` with `severity` from `source`.
    pub open spec fn logged(&self, prev: &Self, message: Seq<char>, severity: Severity, source: Seq<char>) -> bool {
        let kept = log_make_room(prev.spec_entries(), prev.spec_max_entries());
        let e = self.spec_entries();
        &&& self.spec_max_entries() == prev.spec_max_entries()
        &&& self.spec_next_seq() == prev.spec_next_seq() + 1
        &&& if prev.spec_max_entries() == 0 {
            e == Seq::<Notification>::empty()
        } else {
            &&& e.len() == kept.len() + 1
            &&& e.drop_last() == kept
            &&& e.last().message@ == message
            &&& e.last().severity == severity
            &&& e.last().source@ == source
            &&& e.last().seq == prev.spec_next_seq()
        }
    }

    /// Create a log with the default max entries (512).
    pub fn new() -> (l: Self)
        ensures
            l.wf(),
            l.spec_entries() == Seq::<Notification>::empty(),
            l.spec_max_entries() == DEFAULT_MAX_LOG,
            l.spec_next_seq() == 0,
    {
        NotificationLog { entries: VecDeque::new(), max_entries: DEFAULT_MAX_LOG, next_seq: 0 }
    }

    /// Create a log with a custom max entries cap.
    pub fn with_max_entries(max_entries: usize) -> (l: Self)
        ensures
            l.wf(),
            l.spec_entries() == Seq::<Notification>::empty(),
            l.spec_max_entries() == max_entries,
            l.spec_next_seq() == 0,
    {
        let capacity = if max_entries < 1024 { max_entries } else { 1024 };
        NotificationLog { entries: VecDeque::with_capacity(capacity), max_entries, next_seq: 0 }
    }

    /// Add a notification to the log.
    pub fn push(&mut self, message: &str, severity: Severity, source: &'static str)
        requires
            old(self).wf(),
            old(self).spec_next_seq() < u64::MAX,
        ensures
            final(self).wf(),
            final(self).logged(old(self), message@, severity, source@),
    {
        self.push_notification(message.to_owned(), severity, source.to_owned());
    }

    /// Add a notification with a dynamic source string.
    pub fn push_owned(&mut self, message: &str, severity: Severity, source: String)
        requires
            old(self).wf(),
            old(self).spec_next_seq() < u64::MAX,
        ensures
            final(self).wf(),
            final(self).logged(old(self), message@, severity, source@),
    {
        self.push_notification(message.to_owned(), severity, source);
    }

    fn push_notification(&mut self, message: String, severity: Severity, source: String)
        requires
            old(self).wf(),
            old(self).spec_next_seq() < u64::MAX,
        ensures
            final(self).wf(),
            final(self).logged(old(self), message@, severity, source@),
    {
        let notification = Notification { message, severity, source, seq: self.next_seq };
        self.next_seq = self.next_seq + 1;
        if self.max_entries == 0 {
            // A log capped at zero keeps nothing; the number is still used.
            assert(self.entries@ =~= Seq::<Notification>::empty());
            return;
        }
        let ghost kept = log_make_room(self.entries@, self.max_entries);
        if self.entries.len() >= self.max_entries {
            let _ = self.entries.pop_front();
        }
        assert(self.entries@ =~= kept);
        self.entries.push_back(notification);
        assert(self.entries@.drop_last() =~= kept);
        proof {
            let e = self.entries@;
            let o = old(self).entries@;
            assert forall|i: int, j: int| 0 <= i < j < e.len() implies (#[trigger] e[i]).seq < (#[trigger] e[j]).seq by {
                if j == e.len() - 1 {
                    if o.len() >= self.max_entries && o.len() > 0 {
                        assert(e[i] == o[i + 1]);
                    } else {
                        assert(e[i] == o[i]);
                    }
                } else if o.len() >= self.max_entries && o.len() > 0 {
                    assert(e[i] == o[i + 1]);
                    assert(e[j] == o[j + 1]);
                } else {
                    assert(e[i] == o[i]);
                    assert(e[j] == o[j]);
                }
            }
            assert forall|i: int| 0 <= i < e.len() implies (#[trigger] e[i]).seq < self.next_seq by {
                if i < e.len() - 1 {
                    if o.len() >= self.max_entries && o.len() > 0 {
                        assert(e[i] == o[i + 1]);
                    } else {
                        assert(e[i] == o[i]);
                    }
                }
            }
        }
    }

    /// All log entries, oldest first.
    pub fn entries(&self) -> (e: &VecDeque<Notification>)
        ensures
            e@ == self.spec_entries(),
    {
        &self.entries
    }

    /// Number of entries in the log.
    pub fn len(&self) -> (n: usize)
        ensures
            n == self.spec_entries().len(),
    {
        self.entries.len()
    }

    /// Whether the log is empty.
    pub fn is_empty(&self) -> (b: bool)
        ensures
            b == (self.spec_entries().len() == 0),
    {
        self.entries.len() == 0
    }

    /// Entries of the given severity, oldest first.
    pub fn by_severity(&self, severity: Severity) -> (r: Vec<&Notification>)
        ensures
            r@.len() == self.spec_entries().filter(|n: Notification| n.severity == severity).len(),
            forall|k: int|
                0 <= k < r@.len() ==> *r@[k] == self.spec_entries().filter(
                    |n: Notification| n.severity == severity,
                )[k],
    {
        let ghost pred = |n: Notification| n.severity == severity;
        let mut r: Vec<&Notification> = Vec::new();
        let n = self.entries.len();
        let mut i: usize = 0;
        while i < n
            invariant
                i <= n,
                n == self.entries@.len(),
                pred == (|n: Notification| n.severity == severity),
                r@.len() == self.entries@.take(i as int).filter(pred).len(),
                forall|k: int| 0 <= k < r@.len() ==> *r@[k] == self.entries@.take(i as int).filter(pred)[k],
            decreases n - i,
        {
            let e = &self.entries[i];
            let ghost r0 = r@;
            let keep = e.severity == severity;
            assert(keep == pred(self.entries@[i as int]));
            if keep {
                r.push(e);
                assert(r@ == r0.push(e));
            }
            proof {
                reveal_with_fuel(Seq::filter, 1);
                let t = self.entries@.take(i + 1);
                assert(t.drop_last() =~= self.entries@.take(i as int));
                assert(t.last() == self.entries@[i as int]);
                assert(t.filter(pred) == if pred(t.last()) {
                    t.drop_last().filter(pred).push(t.last())
                } else {
                    t.drop_last().filter(pred)
                });
            }
            i = i + 1;
        }
        assert(self.entries@.take(n as int) =~= self.entries@);
        r
    }

    /// Entries from the given source, oldest first.
    pub fn by_source(&self, source: &str) -> (r: Vec<&Notification>)
        ensures
            r@.len() == self.spec_entries().filter(|n: Notification| n.source@ == source@).len(),
            forall|k: int|
                0 <= k < r@.len() ==> *r@[k] == self.spec_entries().filter(
                    |n: Notification| n.source@ == source@,
                )[k],
    {
        let ghost pred = |n: Notification| n.source@ == source@;
        let key = source.to_owned();
        let mut r: Vec<&Notification> = Vec::new();
        let n = self.entries.len();
        let mut i: usize = 0;
        while i < n
            invariant
                i <= n,
                n == self.entries@.len(),
                key@ == source@,
                pred == (|n: Notification| n.source@ == source@),
                r@.len() == self.entries@.take(i as int).filter(pred).len(),
                forall|k: int| 0 <= k < r@.len() ==> *r@[k] == self.entries@.take(i as int).filter(pred)[k],
            decreases n - i,
        {
            let e = &self.entries[i];
            let ghost r0 = r@;
            let keep = e.source == key;
            assert(keep == pred(self.entries@[i as int]));
            if keep {
                r.push(e);
                assert(r@ == r0.push(e));
            }
            proof {
                reveal_with_fuel(Seq::filter, 1);
                let t = self.entries@.take(i + 1);
                assert(t.drop_last() =~= self.entries@.take(i as int));
                assert(t.last() == self.entries@[i as int]);
                assert(t.filter(pred) == if pred(t.last()) {
                    t.drop_last().filter(pred).push(t.last())
                } else {
                    t.drop_last().filter(pred)
                });
            }
            i = i + 1;
        }
        assert(self.entries@.take(n as int) =~= self.entries@);
        r
    }

    /// The sequence number the next entry will get.
    pub fn next_seq(&self) -> (n: u64)
        ensures
            n == self.spec_next_seq(),
    {
        self.next_seq
    }

    /// Maximum entries cap.
    pub fn max_entries(&self) -> (n: usize)
        ensures
            n == self.spec_max_entries(),
    {
        self.max_entries
    }

    /// Clear the log. Sequence numbering continues where it was.
    pub fn clear(&mut self)
        requires
            old(self).wf(),
        ensures
            final(self).wf(),
            final(self).spec_entries() == Seq::<Notification>::empty(),
            final(self).spec_max_entries() == old(self).spec_max_entries(),
            final(self).spec_next_seq() == old(self).spec_next_seq(),
    {
        self.entries.clear();
    }
}

impl Default for NotificationLog {
    fn default() -> (l: Self)
        ensures
            l.wf(),
            l.spec_entries() == Seq::<Notification>::empty(),
            l.spec_max_entries() == DEFAULT_MAX_LOG,
            l.spec_next_seq() == 0,
    {
        Self::new()
    }
}

/// The log never holds more than its cap of entries (none, when the cap is
/// zero), and with a cap above zero the newest entry is the one just logged.
pub proof fn lemma_log_capped(l0: NotificationLog, l1: NotificationLog, message: Seq<char>, severity: Severity, source: Seq<char>)
    requires
        l0.wf(),
        l1.wf(),
        l1.logged(&l0, message, severity, source),
    ensures
        l1.spec_entries().len() <= l1.spec_max_entries(),
        l1.spec_max_entries() == 0 ==> l1.spec_entries().len() == 0,
        l1.spec_max_entries() > 0 ==> l1.spec_entries().len() > 0 && l1.spec_entries().last().seq
            == l0.spec_next_seq(),
{
}

/// Sequence numbers strictly increase from the oldest entry to the newest.
pub proof fn lemma_log_seq_increasing(l: NotificationLog, i: int, j: int)
    requires
        l.wf(),
        0 <= i < j < l.spec_entries().len(),
    ensures
        l.spec_entries()[i].seq < l.spec_entries()[j].seq,
{
}

} // verus!
