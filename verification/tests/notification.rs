use muharrir::notification::{NotificationLog, Severity, Toast, Toasts, DEFAULT_MAX_LOG};
use std::time::Duration;

/// Fraction of the toast's display time that has passed, in [0, 1].
fn progress(t: &Toast) -> f32 {
    let total = t.duration().as_nanos();
    if total == 0 {
        return 1.0;
    }
    let elapsed = total - t.remaining().as_nanos();
    (elapsed as f64 / total as f64).clamp(0.0, 1.0) as f32
}

// === Severity ===

#[test]
fn severity_default_durations() {
    assert_eq!(Severity::Info.default_duration(), Duration::from_secs(3));
    assert_eq!(Severity::Warning.default_duration(), Duration::from_secs(5));
    assert_eq!(Severity::Error.default_duration(), Duration::from_secs(8));
}

#[test]
fn severity_display() {
    assert_eq!(Severity::Info.to_string(), "info");
    assert_eq!(Severity::Warning.to_string(), "warning");
    assert_eq!(Severity::Error.to_string(), "error");
}

// === Toast ===

#[test]
fn toast_new() {
    let t = Toast::new("hello", Severity::Info);
    assert_eq!(t.message, "hello");
    assert_eq!(t.severity, Severity::Info);
    assert!(!t.is_expired());
    assert!(progress(&t) < 0.1);
}

#[test]
fn toast_zero_duration_progress() {
    let t = Toast::with_duration("instant", Severity::Info, Duration::ZERO);
    assert!((progress(&t) - 1.0).abs() < f32::EPSILON);
    assert!(t.is_expired());
}

#[test]
fn toast_remaining() {
    let t = Toast::new("test", Severity::Error);
    let remaining = t.remaining();
    assert!(remaining <= Duration::from_secs(8));
    assert!(remaining > Duration::from_secs(7));
}

#[test]
fn toast_expired_after_and_remaining_after() {
    let t = Toast::with_duration("fast", Severity::Warning, Duration::from_millis(1));
    assert_eq!(t.duration(), Duration::from_millis(1));
    assert!(!t.expired_after(Duration::from_nanos(999_999)));
    assert!(t.expired_after(Duration::from_millis(1)));
    assert_eq!(t.remaining_after(Duration::from_nanos(400_000)), Duration::from_nanos(600_000));
    assert_eq!(t.remaining_after(Duration::from_millis(2)), Duration::ZERO);
}

// === Toasts ===

#[test]
fn toasts_push_and_len() {
    let mut toasts = Toasts::new();
    assert!(toasts.is_empty());

    toasts.push("a", Severity::Info);
    toasts.push("b", Severity::Warning);
    assert_eq!(toasts.len(), 2);
    assert_eq!(toasts.active()[0].message, "a");
}

#[test]
fn toasts_clear() {
    let mut toasts = Toasts::new();
    toasts.push("a", Severity::Info);
    toasts.push("b", Severity::Info);
    toasts.clear();
    assert!(toasts.is_empty());
}

#[test]
fn toasts_retain_unexpired_keeps_order() {
    let mut toasts = Toasts::new();
    toasts.push_toast(Toast::with_duration("fast", Severity::Info, Duration::from_millis(1)));
    toasts.push("slow", Severity::Error);
    toasts.push_toast(Toast::with_duration("medium", Severity::Info, Duration::from_millis(5)));
    toasts.retain_unexpired(&[Duration::from_millis(2), Duration::from_millis(2), Duration::from_millis(2)]);
    assert_eq!(toasts.len(), 2);
    assert_eq!(toasts.active()[0].message, "slow");
    assert_eq!(toasts.active()[1].message, "medium");
}

#[test]
fn toasts_gc_removes_zero_duration() {
    let mut toasts = Toasts::new();
    toasts.push_toast(Toast::with_duration("instant", Severity::Info, Duration::ZERO));
    toasts.push("slow", Severity::Error);
    toasts.gc();
    assert_eq!(toasts.len(), 1);
    assert_eq!(toasts.active()[0].message, "slow");
}

// === NotificationLog ===

#[test]
fn log_push_and_query() {
    let mut log = NotificationLog::new();
    log.push("save ok", Severity::Info, "history");
    log.push("low mem", Severity::Warning, "hw");
    log.push("crash", Severity::Error, "export");

    assert_eq!(log.len(), 3);
    assert_eq!(log.entries()[0].seq, 0);
    assert_eq!(log.entries()[2].seq, 2);
}

#[test]
fn log_by_severity() {
    let mut log = NotificationLog::new();
    log.push("a", Severity::Info, "src");
    log.push("b", Severity::Error, "src");
    log.push("c", Severity::Info, "src");

    let infos = log.by_severity(Severity::Info);
    assert_eq!(infos.len(), 2);
    let errors = log.by_severity(Severity::Error);
    assert_eq!(errors.len(), 1);
}

#[test]
fn log_by_source() {
    let mut log = NotificationLog::new();
    log.push("a", Severity::Info, "history");
    log.push("b", Severity::Info, "export");
    log.push("c", Severity::Info, "history");

    let history = log.by_source("history");
    assert_eq!(history.len(), 2);
}

#[test]
fn log_max_entries_eviction() {
    let mut log = NotificationLog::with_max_entries(3);
    for i in 0..5 {
        log.push(&format!("msg {i}"), Severity::Info, "test");
    }
    assert_eq!(log.len(), 3);
    assert_eq!(log.max_entries(), 3);
    assert_eq!(log.entries()[0].message, "msg 2");
    assert_eq!(log.entries()[2].message, "msg 4");
}

#[test]
fn log_clear() {
    let mut log = NotificationLog::new();
    log.push("a", Severity::Info, "test");
    log.clear();
    assert!(log.is_empty());
}

#[test]
fn log_default() {
    let log = NotificationLog::default();
    assert_eq!(log.max_entries(), DEFAULT_MAX_LOG);
    assert!(log.is_empty());
}

#[test]
fn log_push_owned_source() {
    let mut log = NotificationLog::new();
    log.push_owned("msg", Severity::Info, "dynamic_source".to_string());
    assert_eq!(log.entries()[0].source, "dynamic_source");
}

#[test]
fn log_sequence_numbers_monotonic() {
    let mut log = NotificationLog::new();
    log.push("a", Severity::Info, "test");
    log.push("b", Severity::Info, "test");
    log.push("c", Severity::Info, "test");
    assert!(log.entries()[0].seq < log.entries()[1].seq);
    assert!(log.entries()[1].seq < log.entries()[2].seq);
}

#[test]
fn log_zero_cap_keeps_nothing() {
    let mut log = NotificationLog::with_max_entries(0);
    log.push("a", Severity::Info, "t");
    log.push("b", Severity::Warning, "t");
    assert_eq!(log.len(), 0);
    assert_eq!(log.next_seq(), 2);
}

#[test]
fn log_clear_keeps_numbering() {
    let mut log = NotificationLog::new();
    log.push("a", Severity::Info, "t");
    log.push("b", Severity::Info, "t");
    log.clear();
    log.push("c", Severity::Error, "t");
    assert_eq!(log.entries()[0].seq, 2);
    assert_eq!(log.by_severity(Severity::Error)[0].message, "c");
}

/// Wait on the clock until at least `millis` milliseconds have passed.
fn wait_millis(millis: u64) {
    let start = std::time::Instant::now();
    while start.elapsed() < std::time::Duration::from_millis(millis) {}
}

#[test]
fn toast_with_custom_duration() {
    let t = Toast::with_duration("fast", Severity::Warning, Duration::from_millis(1));
    assert_eq!(t.duration(), Duration::from_millis(1));
    wait_millis(2);
    assert!(t.is_expired());
    assert!((progress(&t) - 1.0).abs() < f32::EPSILON);
}

#[test]
fn toasts_gc_removes_expired() {
    let mut toasts = Toasts::new();
    toasts.push_toast(Toast::with_duration("fast", Severity::Info, Duration::from_millis(1)));
    toasts.push("slow", Severity::Error);
    assert_eq!(toasts.len(), 2);

    wait_millis(2);
    toasts.gc();

    assert_eq!(toasts.len(), 1);
    assert_eq!(toasts.active()[0].message, "slow");
}

#[test]
fn log_next_seq_counts_pushes() {
    let mut log = NotificationLog::with_max_entries(1);
    assert_eq!(log.next_seq(), 0);
    log.push("a", Severity::Info, "test");
    log.push("b", Severity::Info, "test");
    assert_eq!(log.next_seq(), 2);
    assert_eq!(log.len(), 1);
}
