use xy_reactive::notify::{channel, ChannelTable, NotifyPoll};

#[test]
fn single_notify_yields_one_event() {
    let mut table = ChannelTable::new();
    let (s, r) = channel(&mut table);
    s.notify(&mut table);
    assert_eq!(r.poll_next(&mut table), NotifyPoll::Ready);
    assert_eq!(r.poll_next(&mut table), NotifyPoll::Pending);
}

#[test]
fn three_notifies_coalesce_to_one_event() {
    let mut table = ChannelTable::new();
    let (s, r) = channel(&mut table);
    s.notify(&mut table);
    s.notify(&mut table);
    s.notify(&mut table);
    assert_eq!(r.poll_next(&mut table), NotifyPoll::Ready);
    assert_eq!(r.poll_next(&mut table), NotifyPoll::Pending);
}

#[test]
fn poll_before_any_notify_is_pending() {
    let mut table = ChannelTable::new();
    let (_s, r) = channel(&mut table);
    assert_eq!(r.poll_next(&mut table), NotifyPoll::Pending);
}

#[test]
fn notify_after_drain_fires_again() {
    let mut table = ChannelTable::new();
    let (s, r) = channel(&mut table);
    s.notify(&mut table);
    assert_eq!(r.poll_next(&mut table), NotifyPoll::Ready);
    s.notify(&mut table);
    assert_eq!(r.poll_next(&mut table), NotifyPoll::Ready);
    assert_eq!(r.poll_next(&mut table), NotifyPoll::Pending);
}

#[test]
fn notify_reports_wake_only_after_waiter_registered() {
    let mut table = ChannelTable::new();
    let (s, r) = channel(&mut table);
    // nobody waits yet: no wake owed
    assert!(!s.notify(&mut table));
    assert_eq!(r.poll_next(&mut table), NotifyPoll::Ready);
    // the poll registered a waiter, so the next notify owes a wake
    assert!(s.notify(&mut table));
    // the waiter was consumed by that wake
    assert!(!s.notify(&mut table));
}

#[test]
fn channels_are_independent() {
    let mut table = ChannelTable::new();
    let (s1, r1) = channel(&mut table);
    let (_s2, r2) = channel(&mut table);
    s1.notify(&mut table);
    assert_eq!(r2.poll_next(&mut table), NotifyPoll::Pending);
    assert_eq!(r1.poll_next(&mut table), NotifyPoll::Ready);
}

#[test]
fn handle_equality_is_shared_identity() {
    let mut table = ChannelTable::new();
    let (s1, r1) = channel(&mut table);
    let (s2, r2) = channel(&mut table);
    assert_eq!(s1, s1);
    assert_eq!(r1, r1);
    assert_ne!(s1, s2);
    assert_ne!(r1, r2);
}
