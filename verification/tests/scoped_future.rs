use xy_reactive::arena::{Owner, OwnerArena};
use xy_reactive::observer::{Observer, ReactiveGraph};
use xy_reactive::scoped::{CapturedContext, ScopedFuture};

#[test]
fn capture_happens_at_construction_not_at_poll() {
    let mut arena = OwnerArena::new();
    let mut g = ReactiveGraph::new();
    let owner = arena.enter();
    let sub = g.create_subscriber();
    g.push_observer(sub);

    let sf = ScopedFuture::new(7u32, &arena, &g);

    // the ambient context goes away; the capture does not
    g.pop_observer();
    arena.exit();
    assert_eq!(sf.owner(), Some(owner));
    assert_eq!(sf.observer(), Some(sub));
    assert_eq!(sf.into_inner(), 7u32);
}

#[test]
fn capture_kind_dispatches_four_ways() {
    let mut arena = OwnerArena::new();
    let mut g = ReactiveGraph::new();

    let neither = ScopedFuture::new((), &arena, &g);
    assert_eq!(neither.capture_kind(), CapturedContext::Neither);

    let sub = g.create_subscriber();
    g.push_observer(sub);
    let observer_only = ScopedFuture::new((), &arena, &g);
    assert_eq!(observer_only.capture_kind(), CapturedContext::ObserverOnly(sub));
    g.pop_observer();

    let owner = arena.enter();
    let owner_only = ScopedFuture::new((), &arena, &g);
    assert_eq!(owner_only.capture_kind(), CapturedContext::OwnerOnly(owner));

    g.push_observer(sub);
    let both = ScopedFuture::new((), &arena, &g);
    assert_eq!(both.capture_kind(), CapturedContext::Both(owner, sub));
    g.pop_observer();
    arena.exit();
}

#[test]
fn poll_attributes_reads_to_the_captured_observer() {
    let mut arena = OwnerArena::new();
    let mut g = ReactiveGraph::new();
    let x = g.create_source();

    // construction context: an owner scope and a tracking subscriber
    let owner = arena.enter();
    let sub = g.create_subscriber();
    g.push_observer(sub);
    let sf = ScopedFuture::new((), &arena, &g);
    g.pop_observer();
    arena.exit();

    // ambient context at poll time is unrelated
    assert_eq!(Owner::current(&arena), None);
    assert_eq!(Observer::get(&g), None);

    // one poll under the restored context: a read inside the future
    let guard = sf.enter_poll(&mut arena, &mut g);
    assert_eq!(Owner::current(&arena), Some(owner));
    assert_eq!(Observer::get(&g), Some(sub));
    g.read_source(x);
    sf.exit_poll(guard, &mut arena, &mut g);

    // the dependency edge landed on the originally captured subscriber
    assert!(g.has_dependency(sub, x));
    // and the restoration unwound completely
    assert_eq!(Owner::current(&arena), None);
    assert_eq!(Observer::get(&g), None);
}

#[test]
fn poll_with_no_capture_changes_nothing() {
    let mut arena = OwnerArena::new();
    let mut g = ReactiveGraph::new();
    let sf = ScopedFuture::new(0u8, &arena, &g);
    let guard = sf.enter_poll(&mut arena, &mut g);
    assert_eq!(Owner::current(&arena), None);
    assert_eq!(Observer::get(&g), None);
    sf.exit_poll(guard, &mut arena, &mut g);
    assert_eq!(Owner::current(&arena), None);
    assert_eq!(Observer::get(&g), None);
}

#[test]
fn observer_only_poll_restores_only_the_observer() {
    let mut arena = OwnerArena::new();
    let mut g = ReactiveGraph::new();
    let sub = g.create_subscriber();
    g.push_observer(sub);
    let sf = ScopedFuture::new((), &arena, &g);
    g.pop_observer();

    let guard = sf.enter_poll(&mut arena, &mut g);
    assert_eq!(Owner::current(&arena), None);
    assert_eq!(Observer::get(&g), Some(sub));
    sf.exit_poll(guard, &mut arena, &mut g);
    assert_eq!(Observer::get(&g), None);
}
