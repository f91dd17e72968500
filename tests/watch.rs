use super_pipe::watch::{Debouncer, EventKind, Notice, QUIET_MS};

fn s(p: &str) -> String {
    p.to_string()
}

#[test]
fn a_burst_of_writes_runs_once() {
    let mut d = Debouncer::new(QUIET_MS);
    let path = s("/tmp/f");
    assert_eq!(d.notice(EventKind::Write, &path, 0), Notice::Scheduled);
    for t in 1..10u64 {
        assert_eq!(d.notice(EventKind::Write, &path, t * 100), Notice::Extended);
    }
    assert_eq!(d.next_deadline(), Some(900 + QUIET_MS));
    assert!(d.expire(900 + QUIET_MS - 1).is_empty());
    assert_eq!(d.expire(900 + QUIET_MS), vec![path.clone()]);
    assert!(d.expire(100_000).is_empty());
    assert_eq!(d.next_deadline(), None);
}

#[test]
fn a_change_during_the_window_starts_it_again() {
    let mut d = Debouncer::new(1000);
    let path = s("/tmp/f");
    d.notice(EventKind::Create, &path, 0);
    assert!(d.expire(999).is_empty());
    d.notice(EventKind::Write, &path, 999);
    assert!(d.expire(1000).is_empty());
    assert_eq!(d.expire(1999), vec![path]);
}

#[test]
fn paths_fall_due_separately_in_order() {
    let mut d = Debouncer::new(1000);
    d.notice(EventKind::Write, &s("/a"), 0);
    d.notice(EventKind::Write, &s("/b"), 10);
    d.notice(EventKind::Write, &s("/c"), 2000);
    assert_eq!(d.next_deadline(), Some(1000));
    assert_eq!(d.expire(1500), vec![s("/a"), s("/b")]);
    assert_eq!(d.next_deadline(), Some(3000));
}

#[test]
fn removal_cancels_and_runs_nothing() {
    let mut d = Debouncer::new(1000);
    let path = s("/tmp/f");
    d.notice(EventKind::Write, &path, 0);
    assert_eq!(d.notice(EventKind::Remove, &path, 10), Notice::Removed);
    assert!(d.expire(5000).is_empty());
    assert_eq!(d.notice(EventKind::Remove, &s("/x"), 20), Notice::Removed);
}

#[test]
fn other_events_are_ignored() {
    let mut d = Debouncer::new(1000);
    assert_eq!(d.notice(EventKind::Other, &s("/tmp/f"), 0), Notice::Ignored);
    assert_eq!(d.next_deadline(), None);
    assert!(d.expire(u64::MAX).is_empty());
}

#[test]
fn deadline_saturates_at_the_end_of_time() {
    let mut d = Debouncer::new(1000);
    d.notice(EventKind::Write, &s("/a"), u64::MAX - 10);
    assert_eq!(d.next_deadline(), Some(u64::MAX));
    assert_eq!(d.expire(u64::MAX), vec![s("/a")]);
}
