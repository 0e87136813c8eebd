//! Ownership arena: a tree of scopes that own cleanup callbacks and child
//! scopes.
//!
//! Scopes are nodes addressed by stable indices; an [`Owner`] handle names a
//! node. A parent holds its children exclusively, while a child records its
//! parent only by index, so the tree has no ownership cycles. The arena also
//! carries the stack of entered scopes, whose top is the current owner; this
//! replaces process-global "current scope" state with an explicit context
//! value.
//!
//! Cleanup callbacks are represented by tokens handed out at registration:
//! disposal returns the tokens of the callbacks to run, in order, and the
//! host invokes them. A scope's own callbacks come in reverse registration
//! order (last registered runs first), before the scope's children are
//! disposed in turn. Disposal is idempotent: a disposed scope contributes
//! nothing when disposed again.

use vstd::multiset::Multiset;
use vstd::prelude::*;

verus! {

/// One scope of the ownership tree, as contracts see it.
#[verifier::ext_equal]
pub struct OwnerView {
    /// Index of the parent scope, if any (a non-owning back reference).
    pub parent: Option<int>,
    /// Indices of the child scopes, in creation order.
    pub children: Seq<int>,
    /// Cleanup tokens, in registration order.
    pub cleanups: Seq<u64>,
    /// Whether this scope has been disposed.
    pub disposed: bool,
}

/// Children always point to later-created nodes, within bounds: the index
/// order is a topological order of the tree.
pub open spec fn nodes_wf(s: Seq<OwnerView>) -> bool {
    forall|i: int, j: int|
        0 <= i < s.len() && 0 <= j < s[i].children.len()
            ==> i < #[trigger] s[i].children[j] < s.len()
}

/// All members of `d` are node indices of `s`.
pub open spec fn in_range(s: Seq<OwnerView>, d: Set<int>) -> bool {
    forall|i: int| #[trigger] d.contains(i) ==> 0 <= i < s.len()
}

/// The set `d` is closed under children, except at the nodes of `e`: every
/// non-exempt member has all of its children in `d`.
pub open spec fn closed_except(s: Seq<OwnerView>, d: Set<int>, e: Set<int>) -> bool {
    forall|i: int, j: int|
        d.contains(i) && 0 <= i < s.len() && !e.contains(i) && 0 <= j < s[i].children.len()
            ==> d.contains(#[trigger] s[i].children[j])
}

/// The indices of the disposed nodes of `s`.
pub open spec fn disposed_set(s: Seq<OwnerView>) -> Set<int> {
    Set::new(|i: int| 0 <= i < s.len() && s[i].disposed)
}

/// `s` with its disposed flags replaced by membership in `d`.
pub open spec fn with_disposed(s: Seq<OwnerView>, d: Set<int>) -> Seq<OwnerView> {
    Seq::new(s.len(), |i: int| OwnerView { disposed: d.contains(i), ..s[i] })
}

/// Two node sequences that agree on everything but the disposed flags.
pub open spec fn same_structure(s1: Seq<OwnerView>, s2: Seq<OwnerView>) -> bool {
    &&& s1.len() == s2.len()
    &&& forall|i: int|
        0 <= i < s1.len()
            ==> (#[trigger] s2[i]).parent == s1[i].parent && s2[i].children == s1[i].children
                && s2[i].cleanups == s1[i].cleanups
}

/// Disposal of node `id`, given the set `done` of already-disposed nodes:
/// yields the grown set and the cleanup tokens to run, in execution order.
/// An already-disposed (or out-of-range) node contributes nothing; otherwise
/// the node's own cleanups come in reverse registration order, followed by
/// the disposal of its children in creation order.
pub open spec fn spec_dispose(s: Seq<OwnerView>, done: Set<int>, id: int) -> (Set<int>, Seq<u64>)
    decreases s.len() - id, 1int, 0int,
    when nodes_wf(s)
{
    if !(0 <= id < s.len()) || done.contains(id) {
        (done, Seq::empty())
    } else {
        let rest = spec_dispose_children(s, done.insert(id), id, 0);
        (rest.0, s[id].cleanups.reverse() + rest.1)
    }
}

/// Disposal of the children of `id` from position `k` on.
pub open spec fn spec_dispose_children(
    s: Seq<OwnerView>,
    done: Set<int>,
    id: int,
    k: int,
) -> (Set<int>, Seq<u64>)
    decreases s.len() - id, 0int, s[id].children.len() - k,
    when nodes_wf(s)
{
    if !(0 <= id < s.len()) || !(0 <= k < s[id].children.len()) {
        (done, Seq::empty())
    } else {
        let first = spec_dispose(s, done, s[id].children[k]);
        let rest = spec_dispose_children(s, first.0, id, k + 1);
        (rest.0, first.1 + rest.1)
    }
}

/// Disposal only grows the disposed set, it stays within the arena, and the
/// disposed node itself always joins it.
pub proof fn lemma_dispose_mono(s: Seq<OwnerView>, done: Set<int>, id: int)
    requires
        nodes_wf(s),
        in_range(s, done),
    ensures
        ({
            let r = spec_dispose(s, done, id);
            &&& done.subset_of(r.0)
            &&& in_range(s, r.0)
            &&& (0 <= id < s.len() ==> r.0.contains(id))
        }),
    decreases s.len() - id, 1int, 0int,
{
    if 0 <= id < s.len() && !done.contains(id) {
        let done1 = done.insert(id);
        assert(in_range(s, done1));
        lemma_dispose_children_mono(s, done1, id, 0);
    }
}

/// Child disposal only grows the disposed set and stays within the arena.
pub proof fn lemma_dispose_children_mono(s: Seq<OwnerView>, done: Set<int>, id: int, k: int)
    requires
        nodes_wf(s),
        in_range(s, done),
        0 <= id < s.len(),
    ensures
        ({
            let r = spec_dispose_children(s, done, id, k);
            &&& done.subset_of(r.0)
            &&& in_range(s, r.0)
        }),
    decreases s.len() - id, 0int, s[id].children.len() - k,
{
    if 0 <= k < s[id].children.len() {
        let c = s[id].children[k];
        lemma_dispose_mono(s, done, c);
        lemma_dispose_children_mono(s, spec_dispose(s, done, c).0, id, k + 1);
    }
}

/// Disposal preserves closure under children: starting from a set whose
/// non-exempt members have all their children disposed, it ends in such a
/// set. With no exemptions, this says a dispose never leaves a disposed
/// scope with a live child.
pub proof fn lemma_dispose_closed(s: Seq<OwnerView>, done: Set<int>, e: Set<int>, id: int)
    requires
        nodes_wf(s),
        in_range(s, done),
        closed_except(s, done, e),
    ensures
        closed_except(s, spec_dispose(s, done, id).0, e),
    decreases s.len() - id, 1int, 0int,
{
    if 0 <= id < s.len() && !done.contains(id) {
        let done1 = done.insert(id);
        assert(in_range(s, done1));
        assert(closed_except(s, done1, e.insert(id))) by {
            assert forall|i: int, j: int|
                done1.contains(i) && 0 <= i < s.len() && !e.insert(id).contains(i) && 0 <= j < s[i]
                    .children.len() implies done1.contains(#[trigger] s[i].children[j]) by {
                assert(done.contains(i));
                assert(done.contains(s[i].children[j]));
            }
        }
        lemma_dispose_children_mono(s, done1, id, 0);
        lemma_dispose_children_closed(s, done1, e, id, 0);
        let r0 = spec_dispose_children(s, done1, id, 0).0;
        assert forall|i: int, j: int|
            r0.contains(i) && 0 <= i < s.len() && !e.contains(i) && 0 <= j < s[i].children.len()
            implies r0.contains(#[trigger] s[i].children[j]) by {
            if i != id {
                assert(!e.insert(id).contains(i));
            }
        }
    }
}

/// Child disposal preserves closure under children, with the parent itself
/// exempt until all of its children have been handled; afterwards every
/// child of the parent is in the disposed set.
pub proof fn lemma_dispose_children_closed(
    s: Seq<OwnerView>,
    done: Set<int>,
    e: Set<int>,
    id: int,
    k: int,
)
    requires
        nodes_wf(s),
        in_range(s, done),
        0 <= id < s.len(),
        0 <= k,
        done.contains(id),
        closed_except(s, done, e.insert(id)),
        forall|j: int|
            0 <= j < k && j < s[id].children.len() ==> done.contains(
                #[trigger] s[id].children[j],
            ),
    ensures
        ({
            let r = spec_dispose_children(s, done, id, k);
            &&& closed_except(s, r.0, e.insert(id))
            &&& forall|j: int|
                0 <= j < s[id].children.len() ==> r.0.contains(#[trigger] s[id].children[j])
        }),
    decreases s.len() - id, 0int, s[id].children.len() - k,
{
    if 0 <= k < s[id].children.len() {
        let c = s[id].children[k];
        lemma_dispose_mono(s, done, c);
        lemma_dispose_closed(s, done, e.insert(id), c);
        let r1 = spec_dispose(s, done, c);
        lemma_dispose_children_closed(s, r1.0, e, id, k + 1);
    }
}

/// The cleanups of the nodes below `n` that are in `post` but not in `pre`:
/// what a step from disposed set `pre` to disposed set `post` must run.
pub open spec fn new_cleanups(
    s: Seq<OwnerView>,
    pre: Set<int>,
    post: Set<int>,
    n: int,
) -> Multiset<u64>
    decreases n,
{
    if n <= 0 {
        Multiset::empty()
    } else if post.contains(n - 1) && !pre.contains(n - 1) {
        new_cleanups(s, pre, post, n - 1).add(s[n - 1].cleanups.to_multiset())
    } else {
        new_cleanups(s, pre, post, n - 1)
    }
}

/// A step that disposes nothing new below `n` runs nothing.
pub proof fn lemma_new_cleanups_empty(s: Seq<OwnerView>, pre: Set<int>, post: Set<int>, n: int)
    requires
        forall|i: int| 0 <= i < n && #[trigger] post.contains(i) ==> pre.contains(i),
    ensures
        new_cleanups(s, pre, post, n) == Multiset::<u64>::empty(),
    decreases n,
{
    if n > 0 {
        lemma_new_cleanups_empty(s, pre, post, n - 1);
    }
}

/// Two consecutive steps run exactly what the combined step runs.
pub proof fn lemma_new_cleanups_compose(
    s: Seq<OwnerView>,
    a: Set<int>,
    b: Set<int>,
    c: Set<int>,
    n: int,
)
    requires
        a.subset_of(b),
        b.subset_of(c),
    ensures
        new_cleanups(s, a, c, n) == new_cleanups(s, a, b, n).add(new_cleanups(s, b, c, n)),
    decreases n,
{
    broadcast use vstd::multiset::group_multiset_axioms;

    if n <= 0 {
        assert(new_cleanups(s, a, c, n) =~= new_cleanups(s, a, b, n).add(
            new_cleanups(s, b, c, n),
        ));
    } else {
        lemma_new_cleanups_compose(s, a, b, c, n - 1);
        assert(new_cleanups(s, a, c, n) =~= new_cleanups(s, a, b, n).add(
            new_cleanups(s, b, c, n),
        ));
    }
}

/// A step that disposes exactly one new node runs exactly that node's
/// cleanups.
pub proof fn lemma_new_cleanups_insert(s: Seq<OwnerView>, d: Set<int>, id: int, n: int)
    requires
        !d.contains(id),
        0 <= id < n,
    ensures
        new_cleanups(s, d, d.insert(id), n) == s[id].cleanups.to_multiset(),
    decreases n,
{
    broadcast use vstd::multiset::group_multiset_axioms;

    if n - 1 == id {
        lemma_new_cleanups_empty(s, d, d.insert(id), n - 1);
        assert(new_cleanups(s, d, d.insert(id), n) =~= s[id].cleanups.to_multiset());
    } else {
        lemma_new_cleanups_insert(s, d, id, n - 1);
    }
}

/// Exactly-once law, per call: the tokens a disposal emits are exactly the
/// cleanups of the nodes it newly disposes — an already-disposed node never
/// contributes again.
pub proof fn lemma_dispose_tokens(s: Seq<OwnerView>, done: Set<int>, id: int)
    requires
        nodes_wf(s),
        in_range(s, done),
    ensures
        ({
            let r = spec_dispose(s, done, id);
            r.1.to_multiset() == new_cleanups(s, done, r.0, s.len() as int)
        }),
    decreases s.len() - id, 1int, 0int,
{
    broadcast use vstd::multiset::group_multiset_axioms;
    broadcast use vstd::seq_lib::group_to_multiset_ensures;

    let r = spec_dispose(s, done, id);
    if !(0 <= id < s.len()) || done.contains(id) {
        assert(r.1.to_multiset().len() == 0);
        vstd::multiset::lemma_multiset_empty_len::<u64>(r.1.to_multiset());
        lemma_new_cleanups_empty(s, done, done, s.len() as int);
    } else {
        let done1 = done.insert(id);
        assert(in_range(s, done1));
        let inner = spec_dispose_children(s, done1, id, 0);
        lemma_dispose_children_mono(s, done1, id, 0);
        lemma_dispose_children_tokens(s, done1, id, 0);
        vstd::seq_lib::lemma_multiset_commutative(s[id].cleanups.reverse(), inner.1);
        s[id].cleanups.lemma_reverse_to_multiset();
        lemma_new_cleanups_insert(s, done, id, s.len() as int);
        lemma_new_cleanups_compose(s, done, done1, inner.0, s.len() as int);
    }
}

/// Exactly-once law for the children pass.
pub proof fn lemma_dispose_children_tokens(s: Seq<OwnerView>, done: Set<int>, id: int, k: int)
    requires
        nodes_wf(s),
        in_range(s, done),
        0 <= id < s.len(),
    ensures
        ({
            let r = spec_dispose_children(s, done, id, k);
            r.1.to_multiset() == new_cleanups(s, done, r.0, s.len() as int)
        }),
    decreases s.len() - id, 0int, s[id].children.len() - k,
{
    broadcast use vstd::multiset::group_multiset_axioms;
    broadcast use vstd::seq_lib::group_to_multiset_ensures;

    let r = spec_dispose_children(s, done, id, k);
    if !(0 <= k < s[id].children.len()) {
        assert(r.1.to_multiset().len() == 0);
        vstd::multiset::lemma_multiset_empty_len::<u64>(r.1.to_multiset());
        lemma_new_cleanups_empty(s, done, done, s.len() as int);
    } else {
        let c = s[id].children[k];
        let r1 = spec_dispose(s, done, c);
        let r2 = spec_dispose_children(s, r1.0, id, k + 1);
        lemma_dispose_mono(s, done, c);
        lemma_dispose_tokens(s, done, c);
        lemma_dispose_children_mono(s, r1.0, id, k + 1);
        lemma_dispose_children_tokens(s, r1.0, id, k + 1);
        vstd::seq_lib::lemma_multiset_commutative(r1.1, r2.1);
        lemma_new_cleanups_compose(s, done, r1.0, r2.0, s.len() as int);
    }
}

/// A sequence with the same structure as a well-formed one is well-formed.
proof fn lemma_same_structure_wf(s1: Seq<OwnerView>, s2: Seq<OwnerView>)
    requires
        nodes_wf(s1),
        same_structure(s1, s2),
    ensures
        nodes_wf(s2),
{
    assert forall|i: int, j: int|
        0 <= i < s2.len() && 0 <= j < s2[i].children.len() implies i < #[trigger] s2[i].children[j]
        < s2.len() by {
        assert(s2[i].children == s1[i].children);
    }
}

/// Disposal reads only the tree structure, never the recorded flags, so two
/// sequences of the same structure dispose identically.
pub proof fn lemma_dispose_structure(s1: Seq<OwnerView>, s2: Seq<OwnerView>, done: Set<int>, id: int)
    requires
        nodes_wf(s1),
        same_structure(s1, s2),
    ensures
        spec_dispose(s2, done, id) == spec_dispose(s1, done, id),
    decreases s1.len() - id, 1int, 0int,
{
    lemma_same_structure_wf(s1, s2);
    if 0 <= id < s1.len() && !done.contains(id) {
        lemma_dispose_children_structure(s1, s2, done.insert(id), id, 0);
        assert(s2[id].cleanups == s1[id].cleanups);
    }
}

/// Child disposal reads only the tree structure.
pub proof fn lemma_dispose_children_structure(
    s1: Seq<OwnerView>,
    s2: Seq<OwnerView>,
    done: Set<int>,
    id: int,
    k: int,
)
    requires
        nodes_wf(s1),
        same_structure(s1, s2),
        0 <= id < s1.len(),
    ensures
        spec_dispose_children(s2, done, id, k) == spec_dispose_children(s1, done, id, k),
    decreases s1.len() - id, 0int, s1[id].children.len() - k,
{
    lemma_same_structure_wf(s1, s2);
    assert(s2[id].children == s1[id].children);
    if 0 <= k < s1[id].children.len() {
        let c = s1[id].children[k];
        lemma_dispose_structure(s1, s2, done, c);
        lemma_dispose_children_structure(s1, s2, spec_dispose(s1, done, c).0, id, k + 1);
    }
}

/// Replacing the disposed flags keeps the structure.
proof fn lemma_with_disposed_structure(s: Seq<OwnerView>, d: Set<int>)
    ensures
        same_structure(s, with_disposed(s, d)),
{
    assert forall|i: int| 0 <= i < s.len() implies (#[trigger] with_disposed(s, d)[i]).parent
        == s[i].parent && with_disposed(s, d)[i].children == s[i].children && with_disposed(
        s,
        d,
    )[i].cleanups == s[i].cleanups by {}
}

/// The flags written by `with_disposed` read back as the set written.
proof fn lemma_with_disposed_set(s: Seq<OwnerView>, d: Set<int>)
    requires
        in_range(s, d),
    ensures
        disposed_set(with_disposed(s, d)) == d,
{
    assert(disposed_set(with_disposed(s, d)) =~= d);
}

/// A sequence is itself, with its own flags read back and rewritten over a
/// structural twin.
proof fn lemma_structure_with_disposed(s1: Seq<OwnerView>, s2: Seq<OwnerView>)
    requires
        same_structure(s1, s2),
    ensures
        s2 == with_disposed(s1, disposed_set(s2)),
{
    assert(s2 =~~= with_disposed(s1, disposed_set(s2)));
}

/// The disposed flags of a sequence name nodes of the sequence.
proof fn lemma_disposed_set_in_range(s: Seq<OwnerView>)
    ensures
        in_range(s, disposed_set(s)),
{
}

/// Membership of `j` in the subtree rooted at `root`.
pub open spec fn in_subtree(s: Seq<OwnerView>, root: int, j: int) -> bool
    decreases s.len() - root,
    when nodes_wf(s)
{
    0 <= root < s.len() && (j == root || exists|k: int|
        0 <= k < s[root].children.len() && in_subtree(s, #[trigger] s[root].children[k], j))
}

/// A children-closed set containing a root contains its whole subtree.
pub proof fn lemma_closed_contains_subtree(s: Seq<OwnerView>, d: Set<int>, root: int, j: int)
    requires
        nodes_wf(s),
        closed_except(s, d, Set::empty()),
        d.contains(root),
        in_subtree(s, root, j),
    ensures
        d.contains(j),
    decreases s.len() - root,
{
    if j != root {
        let k = choose|k: int|
            0 <= k < s[root].children.len() && in_subtree(s, #[trigger] s[root].children[k], j);
        assert(d.contains(s[root].children[k]));
        lemma_closed_contains_subtree(s, d, s[root].children[k], j);
    }
}

/// Completeness law: disposing an owner disposes every scope of its
/// subtree, whatever was disposed before.
pub proof fn lemma_dispose_complete(s: Seq<OwnerView>, done: Set<int>, id: int, j: int)
    requires
        nodes_wf(s),
        in_range(s, done),
        closed_except(s, done, Set::empty()),
        in_subtree(s, id, j),
    ensures
        spec_dispose(s, done, id).0.contains(j),
{
    lemma_dispose_mono(s, done, id);
    lemma_dispose_closed(s, done, Set::empty(), id);
    lemma_closed_contains_subtree(s, spec_dispose(s, done, id).0, id, j);
}

/// Idempotence law: disposing an owner a second time runs no cleanup at
/// all.
pub proof fn lemma_dispose_idempotent(s: Seq<OwnerView>, done: Set<int>, id: int)
    requires
        nodes_wf(s),
        in_range(s, done),
    ensures
        spec_dispose(s, spec_dispose(s, done, id).0, id).1 == Seq::<u64>::empty(),
{
    lemma_dispose_mono(s, done, id);
}

/// Exactly-once law: whatever order two consecutive disposals are requested
/// in, the tokens they emit together are exactly the cleanups of the scopes
/// that went from live to disposed — each such scope contributing once, and
/// no scope twice.
pub proof fn lemma_dispose_exactly_once(s: Seq<OwnerView>, done: Set<int>, a: int, b: int)
    requires
        nodes_wf(s),
        in_range(s, done),
    ensures
        ({
            let r1 = spec_dispose(s, done, a);
            let r2 = spec_dispose(s, r1.0, b);
            r1.1.to_multiset().add(r2.1.to_multiset()) == new_cleanups(
                s,
                done,
                r2.0,
                s.len() as int,
            )
        }),
{
    let r1 = spec_dispose(s, done, a);
    let r2 = spec_dispose(s, r1.0, b);
    lemma_dispose_mono(s, done, a);
    lemma_dispose_tokens(s, done, a);
    lemma_dispose_mono(s, r1.0, b);
    lemma_dispose_tokens(s, r1.0, b);
    lemma_new_cleanups_compose(s, done, r1.0, r2.0, s.len() as int);
}

/// A handle naming one scope of an [`OwnerArena`].
#[derive(Clone, Copy, PartialEq, Eq, Structural, Hash, Debug)]
pub struct Owner {
    id: usize,
}

impl Owner {
    /// The index of the scope this handle names.
    pub closed spec fn id_spec(self) -> int {
        self.id as int
    }

    /// The owner active in the calling context: the innermost entered,
    /// unexited scope, or none outside any scope.
    pub fn current(arena: &OwnerArena) -> (r: Option<Owner>)
        ensures
            r == arena.current_owner(),
    {
        if arena.current.len() == 0 {
            None
        } else {
            Some(Owner { id: arena.current[arena.current.len() - 1] })
        }
    }
}

struct OwnerNode {
    parent: Option<usize>,
    children: Vec<usize>,
    cleanups: Vec<u64>,
    disposed: bool,
}

/// The ownership tree, the scope stack, and the cleanup-token counter.
pub struct OwnerArena {
    nodes: Vec<OwnerNode>,
    current: Vec<usize>,
    next_token: u64,
}

spec fn node_view(n: OwnerNode) -> OwnerView {
    OwnerView {
        parent: match n.parent {
            Some(p) => Some(p as int),
            None => None,
        },
        children: n.children@.map_values(|c: usize| c as int),
        cleanups: n.cleanups@,
        disposed: n.disposed,
    }
}

impl OwnerArena {
    /// The scopes, as a sequence indexed by node id.
    pub closed spec fn nodes(self) -> Seq<OwnerView> {
        self.nodes@.map_values(|n: OwnerNode| node_view(n))
    }

    /// The stack of entered scopes, outermost first.
    pub closed spec fn current_stack(self) -> Seq<int> {
        self.current@.map_values(|c: usize| c as int)
    }

    /// The next cleanup token to be handed out.
    pub closed spec fn token_counter(self) -> int {
        self.next_token as int
    }

    /// The index of the current owner, if any.
    pub open spec fn current_id(self) -> Option<int> {
        if self.current_stack().len() == 0 {
            None
        } else {
            Some(self.current_stack().last())
        }
    }

    /// The current owner as a handle, if any.
    pub closed spec fn current_owner(self) -> Option<Owner> {
        match self.current_id() {
            Some(i) => Some(Owner { id: i as usize }),
            None => None,
        }
    }

    /// Arena invariant: the tree is index-ordered, the scope stack names
    /// real scopes, and disposal covers whole subtrees (a disposed scope has
    /// no live children).
    pub open spec fn wf(self) -> bool {
        &&& nodes_wf(self.nodes())
        &&& closed_except(self.nodes(), disposed_set(self.nodes()), Set::empty())
        &&& forall|i: int|
            0 <= i < self.current_stack().len() ==> 0 <= #[trigger] self.current_stack()[i]
                < self.nodes().len()
    }

    /// An arena with no scopes and no current owner.
    pub fn new() -> (a: OwnerArena)
        ensures
            a.wf(),
            a.nodes() == Seq::<OwnerView>::empty(),
            a.current_stack() == Seq::<int>::empty(),
            a.token_counter() == 0,
    {
        let a = OwnerArena { nodes: Vec::new(), current: Vec::new(), next_token: 0 };
        proof {
            assert(a.nodes() =~= Seq::<OwnerView>::empty());
            assert(a.current_stack() =~= Seq::<int>::empty());
        }
        a
    }

    /// Enter a new scope: a fresh owner is created as a child of the current
    /// owner (or as a root) and becomes current until the matching [`exit`].
    ///
    /// [`exit`]: OwnerArena::exit
    pub fn enter(&mut self) -> (o: Owner)
        requires
            old(self).wf(),
            match old(self).current_id() {
                Some(p) => !old(self).nodes()[p].disposed,
                None => true,
            },
        ensures
            final(self).wf(),
            o.id_spec() == old(self).nodes().len(),
            final(self).nodes().len() == old(self).nodes().len() + 1,
            final(self).nodes()[o.id_spec()] == (OwnerView {
                parent: old(self).current_id(),
                children: Seq::<int>::empty(),
                cleanups: Seq::<u64>::empty(),
                disposed: false,
            }),
            forall|i: int|
                0 <= i < old(self).nodes().len() && old(self).current_id() != Some(i)
                    ==> final(self).nodes()[i] == old(self).nodes()[i],
            match old(self).current_id() {
                Some(p) => final(self).nodes()[p] == (OwnerView {
                    children: old(self).nodes()[p].children.push(o.id_spec()),
                    ..old(self).nodes()[p]
                }),
                None => true,
            },
            final(self).current_stack() == old(self).current_stack().push(o.id_spec()),
            final(self).current_owner() == Some(o),
            final(self).token_counter() == old(self).token_counter(),
    {
        let id = self.nodes.len();
        let parent = if self.current.len() == 0 {
            None
        } else {
            Some(self.current[self.current.len() - 1])
        };
        self.nodes.push(
            OwnerNode { parent, children: Vec::new(), cleanups: Vec::new(), disposed: false },
        );
        if let Some(p) = parent {
            let node = &mut self.nodes[p];
            node.children.push(id);
        }
        self.current.push(id);
        proof {
            assert(final(self).nodes()[id as int].children =~= Seq::<int>::empty());
            assert(final(self).nodes()[id as int] =~~= (OwnerView {
                parent: old(self).current_id(),
                children: Seq::<int>::empty(),
                cleanups: Seq::<u64>::empty(),
                disposed: false,
            }));
            match old(self).current_id() {
                Some(p) => {
                    assert(final(self).nodes()[p].children =~= old(self).nodes()[p].children.push(
                        id as int,
                    ));
                    assert(final(self).nodes()[p] =~~= (OwnerView {
                        children: old(self).nodes()[p].children.push(id as int),
                        ..old(self).nodes()[p]
                    }));
                },
                None => {},
            }
            assert(final(self).current_stack() =~= old(self).current_stack().push(id as int));
            let s0 = old(self).nodes();
            let s1 = final(self).nodes();
            assert forall|i: int|
                0 <= i < s0.len() && old(self).current_id() != Some(i) implies s1[i] == s0[i] by {
                assert(self.nodes@[i] == old(self).nodes@[i]);
            }
            assert(nodes_wf(s1)) by {
                assert forall|i: int, j: int|
                    0 <= i < s1.len() && 0 <= j < s1[i].children.len() implies i < #[trigger] s1[i].children[j]
                    < s1.len() by {
                    if i < s0.len() {
                        if old(self).current_id() == Some(i) {
                            if j < s0[i].children.len() {
                                assert(i < s0[i].children[j] < s0.len());
                            } else {
                                assert(s1[i].children[j] == id as int);
                            }
                        } else {
                            assert(s1[i] == s0[i]);
                            assert(i < s0[i].children[j] < s0.len());
                        }
                    }
                }
            }
            assert(closed_except(s1, disposed_set(s1), Set::empty())) by {
                assert forall|i: int, j: int|
                    disposed_set(s1).contains(i) && 0 <= i < s1.len() && !Set::<int>::empty()
                        .contains(i) && 0 <= j < s1[i].children.len() implies disposed_set(
                    s1,
                ).contains(#[trigger] s1[i].children[j]) by {
                    assert(i < s0.len());
                    assert(old(self).current_id() != Some(i));
                    assert(s1[i] == s0[i]);
                    assert(disposed_set(s0).contains(i));
                    let c = s0[i].children[j];
                    assert(disposed_set(s0).contains(c));
                    assert(old(self).current_id() != Some(c));
                    assert(s1[c] == s0[c]);
                }
            }
        }
        Owner { id }
    }

    /// Reinstall `o` as the current owner, restoring a captured context;
    /// the matching [`exit`] removes it again. No scope is created.
    ///
    /// [`exit`]: OwnerArena::exit
    pub fn push_current(&mut self, o: Owner)
        requires
            old(self).wf(),
            0 <= o.id_spec() < old(self).nodes().len(),
        ensures
            final(self).wf(),
            final(self).nodes() == old(self).nodes(),
            final(self).current_stack() == old(self).current_stack().push(o.id_spec()),
            final(self).current_owner() == Some(o),
            final(self).token_counter() == old(self).token_counter(),
    {
        self.current.push(o.id);
        proof {
            assert(final(self).current_stack() =~= old(self).current_stack().push(o.id_spec()));
        }
    }

    /// Leave the innermost entered scope, restoring the previous current
    /// owner. The scope itself stays alive until disposed.
    pub fn exit(&mut self)
        requires
            old(self).current_stack().len() > 0,
        ensures
            final(self).nodes() == old(self).nodes(),
            final(self).current_stack() == old(self).current_stack().drop_last(),
            final(self).token_counter() == old(self).token_counter(),
            old(self).wf() ==> final(self).wf(),
    {
        self.current.pop();
        proof {
            assert(final(self).current_stack() =~= old(self).current_stack().drop_last());
        }
    }

    /// Register a cleanup on scope `o`; the returned token is handed back by
    /// [`dispose`] when the callback it stands for must run. Tokens are
    /// handed out in increasing order, so they are unique across the arena.
    ///
    /// [`dispose`]: OwnerArena::dispose
    pub fn register_cleanup(&mut self, o: Owner) -> (t: u64)
        requires
            old(self).wf(),
            0 <= o.id_spec() < old(self).nodes().len(),
            !old(self).nodes()[o.id_spec()].disposed,
            old(self).token_counter() < u64::MAX,
        ensures
            final(self).wf(),
            t == old(self).token_counter(),
            final(self).token_counter() == old(self).token_counter() + 1,
            final(self).nodes().len() == old(self).nodes().len(),
            final(self).nodes()[o.id_spec()] == (OwnerView {
                cleanups: old(self).nodes()[o.id_spec()].cleanups.push(t),
                ..old(self).nodes()[o.id_spec()]
            }),
            forall|i: int|
                0 <= i < old(self).nodes().len() && i != o.id_spec()
                    ==> final(self).nodes()[i] == old(self).nodes()[i],
            final(self).current_stack() == old(self).current_stack(),
    {
        let t = self.next_token;
        self.next_token = self.next_token + 1;
        let node = &mut self.nodes[o.id];
        node.cleanups.push(t);
        proof {
            assert(final(self).nodes()[o.id_spec()] =~~= (OwnerView {
                cleanups: old(self).nodes()[o.id_spec()].cleanups.push(t),
                ..old(self).nodes()[o.id_spec()]
            }));
            let s0 = old(self).nodes();
            let s1 = final(self).nodes();
            assert forall|i: int| 0 <= i < s0.len() && i != o.id_spec() implies s1[i] == s0[i] by {
                assert(self.nodes@[i] == old(self).nodes@[i]);
            }
            assert forall|i: int|
                0 <= i < s0.len() implies s1[i].children == s0[i].children && s1[i].disposed
                == s0[i].disposed by {}
            assert(disposed_set(s1) =~= disposed_set(s0));
            assert(nodes_wf(s1)) by {
                assert forall|i: int, j: int|
                    0 <= i < s1.len() && 0 <= j < s1[i].children.len() implies i < #[trigger] s1[i].children[j]
                    < s1.len() by {
                    assert(s1[i].children == s0[i].children);
                    assert(i < s0[i].children[j] < s0.len());
                }
            }
            assert(closed_except(s1, disposed_set(s1), Set::empty())) by {
                assert forall|i: int, j: int|
                    disposed_set(s1).contains(i) && 0 <= i < s1.len() && !Set::<int>::empty()
                        .contains(i) && 0 <= j < s1[i].children.len() implies disposed_set(
                    s1,
                ).contains(#[trigger] s1[i].children[j]) by {
                    assert(s1[i].children == s0[i].children);
                    assert(disposed_set(s0).contains(s0[i].children[j]));
                }
            }
            let stk = final(self).current_stack();
            let nlen = final(self).nodes().len();
            assert forall|i: int| 0 <= i < stk.len() implies 0 <= #[trigger] stk[i] < nlen by {
                assert(stk[i] == old(self).current_stack()[i]);
            }
        }
        t
    }

    /// The recursive disposal walk: marks, emits, and recurses, mirroring
    /// [`spec_dispose`] with the tree structure fixed and only the disposed
    /// flags moving.
    #[verifier::loop_isolation(false)]
    fn dispose_rec(&mut self, id: usize, out: &mut Vec<u64>)
        requires
            nodes_wf(old(self).nodes()),
            id < old(self).nodes().len(),
        ensures
            ({
                let r = spec_dispose(
                    old(self).nodes(),
                    disposed_set(old(self).nodes()),
                    id as int,
                );
                &&& final(self).nodes() == with_disposed(old(self).nodes(), r.0)
                &&& final(out)@ == old(out)@ + r.1
            }),
            final(self).current_stack() == old(self).current_stack(),
            final(self).token_counter() == old(self).token_counter(),
        decreases old(self).nodes().len() - id,
    {
        let ghost s0 = old(self).nodes();
        let ghost d0 = disposed_set(s0);
        let ghost full = spec_dispose(s0, d0, id as int);
        if self.nodes[id].disposed {
            proof {
                assert(d0.contains(id as int));
                lemma_structure_with_disposed(s0, s0);
                assert(final(out)@ =~= old(out)@ + Seq::<u64>::empty());
            }
            return ;
        }
        let node = &mut self.nodes[id];
        node.disposed = true;
        proof {
            assert(self.nodes()[id as int] =~~= (OwnerView { disposed: true, ..s0[id as int] }));
            assert forall|i: int| 0 <= i < s0.len() && i != id as int implies self.nodes()[i]
                == s0[i] by {
                assert(self.nodes@[i] == old(self).nodes@[i]);
            }
            assert(disposed_set(self.nodes()) =~= d0.insert(id as int));
            assert(same_structure(s0, self.nodes()));
        }
        let ghost s_marked = *self;
        let m = self.nodes[id].cleanups.len();
        let mut t: usize = m;
        while t > 0
            invariant
                *self == s_marked,
                0 <= t <= m,
                out@ == old(out)@ + self.nodes()[id as int].cleanups.subrange(
                    t as int,
                    m as int,
                ).reverse(),
            decreases t,
        {
            t = t - 1;
            let tok = self.nodes[id].cleanups[t];
            out.push(tok);
            proof {
                let cl = self.nodes()[id as int].cleanups;
                assert(cl.subrange(t as int, m as int).reverse() =~= cl.subrange(
                    t + 1,
                    m as int,
                ).reverse().push(cl[t as int]));
            }
        }
        proof {
            let cl = s0[id as int].cleanups;
            assert(cl.subrange(0, m as int) =~= cl);
            assert(out@ == old(out)@ + cl.reverse());
        }
        let mut k: usize = 0;
        while k < self.nodes[id].children.len()
            invariant
                0 <= k <= s0[id as int].children.len(),
                self.nodes().len() == s0.len(),
                nodes_wf(self.nodes()),
                same_structure(s0, self.nodes()),
                in_range(s0, disposed_set(self.nodes())),
                full.0 == spec_dispose_children(
                    s0,
                    disposed_set(self.nodes()),
                    id as int,
                    k as int,
                ).0,
                old(out)@ + full.1 == out@ + spec_dispose_children(
                    s0,
                    disposed_set(self.nodes()),
                    id as int,
                    k as int,
                ).1,
                self.current_stack() == old(self).current_stack(),
                self.token_counter() == old(self).token_counter(),
            decreases s0[id as int].children.len() - k,
        {
            let c = self.nodes[id].children[k];
            let ghost s_cur = self.nodes();
            let ghost d_cur = disposed_set(s_cur);
            let ghost out_cur = out@;
            proof {
                assert(s_cur[id as int].children == s0[id as int].children);
                assert(s0[id as int].children[k as int] == c as int);
                assert((id as int) < (c as int) < s0.len());
            }
            self.dispose_rec(c, out);
            proof {
                let rc = spec_dispose(s_cur, d_cur, c as int);
                lemma_dispose_structure(s0, s_cur, d_cur, c as int);
                let rc0 = spec_dispose(s0, d_cur, c as int);
                assert(rc == rc0);
                lemma_dispose_mono(s0, d_cur, c as int);
                assert(in_range(s_cur, rc.0)) by {
                    assert forall|i: int| #[trigger] rc.0.contains(i) implies 0 <= i
                        < s_cur.len() by {
                        assert(rc0.0.contains(i));
                    }
                }
                lemma_with_disposed_set(s_cur, rc.0);
                lemma_with_disposed_structure(s_cur, rc.0);
                assert(same_structure(s0, self.nodes())) by {
                    assert forall|i: int| 0 <= i < s0.len() implies (
                    #[trigger] self.nodes()[i]).parent == s0[i].parent && self.nodes()[i].children
                        == s0[i].children && self.nodes()[i].cleanups == s0[i].cleanups by {
                        assert(self.nodes()[i].parent == s_cur[i].parent);
                        assert(self.nodes()[i].children == s_cur[i].children);
                        assert(self.nodes()[i].cleanups == s_cur[i].cleanups);
                    }
                }
                lemma_same_structure_wf(s0, self.nodes());
                let rest = spec_dispose_children(s0, rc0.0, id as int, k + 1);
                assert(spec_dispose_children(s0, d_cur, id as int, k as int).1 == rc0.1 + rest.1);
                assert(out_cur + (rc0.1 + rest.1) =~= (out_cur + rc0.1) + rest.1);
                assert(disposed_set(self.nodes()) == rc0.0);
            }
            k = k + 1;
        }
        proof {
            assert(self.nodes()[id as int].children == s0[id as int].children);
            assert(k == s0[id as int].children.len());
            let d_end = disposed_set(self.nodes());
            assert(spec_dispose_children(s0, d_end, id as int, k as int) == (
                d_end,
                Seq::<u64>::empty(),
            ));
            assert(out@ + Seq::<u64>::empty() =~= out@);
            lemma_structure_with_disposed(s0, self.nodes());
        }
    }

    /// Dispose scope `o`: marks `o`'s whole subtree disposed and returns the
    /// cleanup tokens the caller must now run, in execution order — `o`'s
    /// own callbacks, last registered first, then each child subtree in
    /// creation order ([`spec_dispose`] is the exact statement). Disposing
    /// an already-disposed scope returns no tokens, so no callback ever runs
    /// twice; disposing a child first simply removes its subtree's share
    /// from the parent's later disposal. Safe to call mid-walk from a
    /// cleanup of an ancestor, since the arena state is threaded explicitly.
    pub fn dispose(&mut self, o: Owner) -> (cleanups: Vec<u64>)
        requires
            old(self).wf(),
            0 <= o.id_spec() < old(self).nodes().len(),
        ensures
            final(self).wf(),
            ({
                let r = spec_dispose(
                    old(self).nodes(),
                    disposed_set(old(self).nodes()),
                    o.id_spec(),
                );
                &&& cleanups@ == r.1
                &&& final(self).nodes() == with_disposed(old(self).nodes(), r.0)
                &&& disposed_set(final(self).nodes()) == r.0
            }),
            same_structure(old(self).nodes(), final(self).nodes()),
            final(self).nodes().len() == old(self).nodes().len(),
            final(self).nodes()[o.id_spec()].disposed,
            old(self).nodes()[o.id_spec()].disposed ==> cleanups@ == Seq::<u64>::empty(),
            final(self).current_stack() == old(self).current_stack(),
            final(self).token_counter() == old(self).token_counter(),
    {
        let mut out: Vec<u64> = Vec::new();
        self.dispose_rec(o.id, &mut out);
        proof {
            let s0 = old(self).nodes();
            let d0 = disposed_set(s0);
            let r = spec_dispose(s0, d0, o.id_spec());
            lemma_disposed_set_in_range(s0);
            lemma_dispose_mono(s0, d0, o.id_spec());
            lemma_dispose_closed(s0, d0, Set::empty(), o.id_spec());
            lemma_with_disposed_set(s0, r.0);
            lemma_with_disposed_structure(s0, r.0);
            lemma_same_structure_wf(s0, final(self).nodes());
            assert(final(self).nodes()[o.id_spec()].disposed);
            assert(closed_except(final(self).nodes(), r.0, Set::empty())) by {
                assert forall|i: int, j: int|
                    r.0.contains(i) && 0 <= i < final(self).nodes().len() && !Set::<int>::empty()
                        .contains(i) && 0 <= j < final(self).nodes()[i].children.len() implies r
                    .0.contains(#[trigger] final(self).nodes()[i].children[j]) by {
                    assert(final(self).nodes()[i].children == s0[i].children);
                }
            }
            let stk = final(self).current_stack();
            let nlen = final(self).nodes().len();
            assert forall|i: int| 0 <= i < stk.len() implies 0 <= #[trigger] stk[i] < nlen by {
                assert(stk[i] == old(self).current_stack()[i]);
            }
            assert(out@ =~= Seq::<u64>::empty() + r.1);
        }
        out
    }

    /// Whether `o` names a scope of this arena.
    pub fn contains(&self, o: Owner) -> (r: bool)
        ensures
            r == (0 <= o.id_spec() < self.nodes().len()),
    {
        o.id < self.nodes.len()
    }

    /// How many cleanup tokens have been handed out so far.
    pub fn tokens_used(&self) -> (t: u64)
        ensures
            t as int == self.token_counter(),
    {
        self.next_token
    }

    /// Whether scope `o` has been disposed.
    pub fn is_disposed(&self, o: Owner) -> (r: bool)
        requires
            0 <= o.id_spec() < self.nodes().len(),
        ensures
            r == self.nodes()[o.id_spec()].disposed,
    {
        self.nodes[o.id].disposed
    }
}

} // verus!
