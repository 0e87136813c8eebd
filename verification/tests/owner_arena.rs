use xy_reactive::arena::{Owner, OwnerArena};

#[test]
fn cleanups_run_in_reverse_registration_order() {
    let mut arena = OwnerArena::new();
    let o = arena.enter();
    let c1 = arena.register_cleanup(o);
    let c2 = arena.register_cleanup(o);
    arena.exit();
    let run = arena.dispose(o);
    assert_eq!(run, vec![c2, c1]);
}

#[test]
fn dispose_twice_runs_nothing_the_second_time() {
    let mut arena = OwnerArena::new();
    let o = arena.enter();
    arena.register_cleanup(o);
    arena.register_cleanup(o);
    arena.exit();
    let first = arena.dispose(o);
    assert_eq!(first.len(), 2);
    let second = arena.dispose(o);
    assert!(second.is_empty());
}

#[test]
fn dispose_covers_children_recursively() {
    let mut arena = OwnerArena::new();
    let parent = arena.enter();
    let cp = arena.register_cleanup(parent);
    let child = arena.enter();
    let cc = arena.register_cleanup(child);
    let grandchild = arena.enter();
    let cg = arena.register_cleanup(grandchild);
    arena.exit();
    arena.exit();
    arena.exit();
    let run = arena.dispose(parent);
    // own cleanups first, then the child subtree in creation order
    assert_eq!(run, vec![cp, cc, cg]);
    assert!(arena.is_disposed(parent));
    assert!(arena.is_disposed(child));
    assert!(arena.is_disposed(grandchild));
}

#[test]
fn child_disposed_first_is_not_disposed_again() {
    let mut arena = OwnerArena::new();
    let parent = arena.enter();
    let cp = arena.register_cleanup(parent);
    let child = arena.enter();
    let cc = arena.register_cleanup(child);
    arena.exit();
    arena.exit();
    let child_run = arena.dispose(child);
    assert_eq!(child_run, vec![cc]);
    let parent_run = arena.dispose(parent);
    // the child's cleanup ran exactly once, in the first call
    assert_eq!(parent_run, vec![cp]);
}

#[test]
fn current_owner_follows_the_scope_stack() {
    let mut arena = OwnerArena::new();
    assert_eq!(Owner::current(&arena), None);
    let outer = arena.enter();
    assert_eq!(Owner::current(&arena), Some(outer));
    let inner = arena.enter();
    assert_eq!(Owner::current(&arena), Some(inner));
    arena.exit();
    assert_eq!(Owner::current(&arena), Some(outer));
    arena.exit();
    assert_eq!(Owner::current(&arena), None);
}

#[test]
fn siblings_dispose_independently() {
    let mut arena = OwnerArena::new();
    let parent = arena.enter();
    let a = arena.enter();
    let ca = arena.register_cleanup(a);
    arena.exit();
    let b = arena.enter();
    let cb = arena.register_cleanup(b);
    arena.exit();
    arena.exit();
    let run_a = arena.dispose(a);
    assert_eq!(run_a, vec![ca]);
    assert!(!arena.is_disposed(b));
    assert!(!arena.is_disposed(parent));
    let run_parent = arena.dispose(parent);
    assert_eq!(run_parent, vec![cb]);
}

#[test]
fn cleanup_tokens_are_unique() {
    let mut arena = OwnerArena::new();
    let a = arena.enter();
    let b = arena.enter();
    arena.exit();
    arena.exit();
    let t1 = arena.register_cleanup(a);
    let t2 = arena.register_cleanup(b);
    let t3 = arena.register_cleanup(a);
    assert!(t1 != t2 && t2 != t3 && t1 != t3);
}
