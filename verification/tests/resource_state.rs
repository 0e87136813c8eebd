use xy_reactive::async_state::{AsyncState, Resource};
use xy_reactive::notify::{channel, ChannelTable, NotifyPoll};
use xy_reactive::observer::ReactiveGraph;

#[test]
fn async_state_accessors() {
    let loading: AsyncState<i64> = AsyncState::Loading;
    assert_eq!(loading.current_value(), None);
    assert!(loading.loading());

    let complete = AsyncState::Complete(10i64);
    assert_eq!(complete.current_value(), Some(&10));
    assert!(!complete.loading());

    let reloading = AsyncState::Reloading(10i64);
    assert_eq!(reloading.current_value(), Some(&10));
    assert!(reloading.loading());
}

#[test]
fn async_state_defaults_to_loading() {
    let s: AsyncState<i64> = Default::default();
    assert_eq!(s, AsyncState::Loading);
}

#[test]
fn resource_starts_loading_with_no_value() {
    let mut g = ReactiveGraph::new();
    let mut table = ChannelTable::new();
    let sub = g.create_subscriber();
    let (sender, _receiver) = channel(&mut table);
    let res: Resource<i64> = Resource::new(sub, sender);
    assert_eq!(res.current_value(), None);
    assert!(res.loading());
}

#[test]
fn resource_full_lifecycle() {
    let mut g = ReactiveGraph::new();
    let mut table = ChannelTable::new();
    let sub = g.create_subscriber();
    let x = g.create_source();
    let (sender, receiver) = channel(&mut table);
    let mut res: Resource<i64> = Resource::new(sub, sender);

    // the first computation runs under the resource's subscriber and
    // reads the signal it depends on
    let gen0 = res.generation();
    g.begin_track(res.subscriber());
    g.read_source(x);
    g.end_track(res.subscriber());
    assert!(res.try_resolve(gen0, 10));
    assert_eq!(res.current_value(), Some(&10));
    assert!(!res.loading());

    // a write to the dependency invalidates: stale value retained
    let notified = g.write_source(x);
    assert_eq!(notified, vec![sub]);
    let (gen1, _wake) = res.dependency_changed(&mut table);
    assert!(res.loading());
    assert_eq!(res.current_value(), Some(&10));
    // the wake event reaches the resource's task, coalesced
    assert_eq!(receiver.poll_next(&mut table), NotifyPoll::Ready);

    // the fresh computation completes
    assert!(res.try_resolve(gen1, 20));
    assert_eq!(res.current_value(), Some(&20));
    assert!(!res.loading());
}

#[test]
fn stale_resolution_is_discarded() {
    let mut g = ReactiveGraph::new();
    let mut table = ChannelTable::new();
    let sub = g.create_subscriber();
    let (sender, _receiver) = channel(&mut table);
    let mut res: Resource<i64> = Resource::new(sub, sender);

    let gen0 = res.generation();
    assert!(res.try_resolve(gen0, 10));

    // two dependency changes in a row: the middle generation is retired
    // before its computation ever resolves
    let (gen1, _) = res.dependency_changed(&mut table);
    let (gen2, _) = res.dependency_changed(&mut table);
    assert!(gen1 != gen2);

    // the superseded computation's result is dropped whole
    assert!(!res.try_resolve(gen1, 99));
    assert!(res.loading());
    assert_eq!(res.current_value(), Some(&10));

    // the latest computation wins
    assert!(res.try_resolve(gen2, 20));
    assert_eq!(res.current_value(), Some(&20));
    assert!(!res.loading());
}

#[test]
fn resolving_twice_for_one_generation_is_rejected() {
    let mut g = ReactiveGraph::new();
    let mut table = ChannelTable::new();
    let sub = g.create_subscriber();
    let (sender, _receiver) = channel(&mut table);
    let mut res: Resource<i64> = Resource::new(sub, sender);
    let gen0 = res.generation();
    assert!(res.try_resolve(gen0, 10));
    assert!(!res.try_resolve(gen0, 11));
    assert_eq!(res.current_value(), Some(&10));
}
