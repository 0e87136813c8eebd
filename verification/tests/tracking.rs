use xy_reactive::observer::{Observer, ReactiveGraph};

#[test]
fn observer_follows_stack_discipline() {
    let mut g = ReactiveGraph::new();
    let outer = g.create_subscriber();
    let inner = g.create_subscriber();
    assert_eq!(Observer::get(&g), None);
    g.push_observer(outer);
    assert_eq!(Observer::get(&g), Some(outer));
    g.push_observer(inner);
    assert_eq!(Observer::get(&g), Some(inner));
    assert_eq!(g.pop_observer(), Some(inner));
    assert_eq!(Observer::get(&g), Some(outer));
    assert_eq!(g.pop_observer(), Some(outer));
    assert_eq!(Observer::get(&g), None);
}

#[test]
fn reads_register_dependencies_on_the_observer() {
    let mut g = ReactiveGraph::new();
    let a = g.create_source();
    let b = g.create_source();
    let s = g.create_subscriber();
    g.begin_track(s);
    g.read_source(a);
    g.end_track(s);
    assert!(g.has_dependency(s, a));
    assert!(!g.has_dependency(s, b));
}

#[test]
fn untracked_reads_register_nothing() {
    let mut g = ReactiveGraph::new();
    let a = g.create_source();
    let s = g.create_subscriber();
    g.read_source(a);
    assert!(!g.has_dependency(s, a));
}

#[test]
fn rerun_rebuilds_dependency_set_exactly() {
    let mut g = ReactiveGraph::new();
    let a = g.create_source();
    let b = g.create_source();
    let c = g.create_source();
    let s = g.create_subscriber();
    // first run takes the branch reading a and b
    g.begin_track(s);
    g.read_source(a);
    g.read_source(b);
    g.end_track(s);
    assert!(g.has_dependency(s, a));
    assert!(g.has_dependency(s, b));
    assert!(!g.has_dependency(s, c));
    // second run takes another branch, reading b and c
    g.begin_track(s);
    g.read_source(b);
    g.read_source(c);
    g.end_track(s);
    // the dependency set is exactly what the latest run read
    assert!(!g.has_dependency(s, a));
    assert!(g.has_dependency(s, b));
    assert!(g.has_dependency(s, c));
}

#[test]
fn repeated_reads_add_one_edge() {
    let mut g = ReactiveGraph::new();
    let a = g.create_source();
    let s = g.create_subscriber();
    g.begin_track(s);
    g.read_source(a);
    g.read_source(a);
    g.end_track(s);
    assert!(g.has_dependency(s, a));
    // a write after the run notifies the subscriber exactly once
    let notified = g.write_source(a);
    assert_eq!(notified, vec![s]);
}

#[test]
fn write_notifies_exactly_the_registered_subscribers() {
    let mut g = ReactiveGraph::new();
    let a = g.create_source();
    let b = g.create_source();
    let s1 = g.create_subscriber();
    let s2 = g.create_subscriber();
    g.begin_track(s1);
    g.read_source(a);
    g.end_track(s1);
    g.begin_track(s2);
    g.read_source(a);
    g.read_source(b);
    g.end_track(s2);
    let notified = g.write_source(b);
    assert_eq!(notified, vec![s2]);
    let notified_a = g.write_source(a);
    assert_eq!(notified_a.len(), 2);
    assert!(notified_a.contains(&s1));
    assert!(notified_a.contains(&s2));
    assert!(g.is_dirty(s1));
    assert!(g.is_dirty(s2));
}

#[test]
fn running_subscriber_is_not_reentered_by_its_own_write() {
    let mut g = ReactiveGraph::new();
    let a = g.create_source();
    let s = g.create_subscriber();
    g.begin_track(s);
    g.read_source(a);
    // the computation writes a source it itself depends on, mid-run
    let notified = g.write_source(a);
    assert!(notified.is_empty());
    // but the change is not lost: the subscriber is marked dirty
    assert!(g.is_dirty(s));
    g.end_track(s);
    // once the run is over, a write reaches it again
    let notified_after = g.write_source(a);
    assert_eq!(notified_after, vec![s]);
}

#[test]
fn subscriber_handles_compare_by_identity() {
    let mut g = ReactiveGraph::new();
    let s1 = g.create_subscriber();
    let s2 = g.create_subscriber();
    let s1_copy = s1;
    assert_eq!(s1, s1_copy);
    assert_ne!(s1, s2);
}
