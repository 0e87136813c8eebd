//! Subscriber/observer protocol: dynamic dependency tracking between
//! sources (signals) and subscribers (effects, memos, resources).
//!
//! The graph holds, per source, the set of subscribers registered on it,
//! and, per subscriber, the mirror set of sources it depends on. The
//! "currently tracking" context is an explicit observer stack rather than a
//! process-global cell: a computation pushes its subscriber handle while it
//! runs and pops it afterwards, so nested computations override and restore
//! the outer tracking context in stack discipline.
//!
//! Dependencies are fully dynamic: beginning a tracked run discards the
//! subscriber's previous dependency set, and every tracked read adds exactly
//! the edge for the source read — so after a run the dependency set equals
//! exactly the set of sources read during that run. A write to a source
//! marks every registered subscriber dirty and reports, for the host to
//! notify, exactly those registered subscribers that are not currently
//! running (a running subscriber is never re-entered synchronously by its
//! own write).

use vstd::prelude::*;

verus! {

/// One subscriber, as contracts see it.
#[verifier::ext_equal]
pub struct SubView {
    /// The sources this subscriber currently depends on.
    pub deps: Set<int>,
    /// Whether the subscriber is in a tracked run right now.
    pub running: bool,
    /// Whether a dependency changed since the subscriber last ran.
    pub dirty: bool,
}

/// The dependency graph, as contracts see it: per-source subscriber sets,
/// the subscribers, and the observer stack.
#[verifier::ext_equal]
pub struct GraphView {
    /// For each source, the set of subscribers registered on it.
    pub sources: Seq<Set<int>>,
    /// The subscribers.
    pub subs: Seq<SubView>,
    /// The stack of installed observers, innermost last.
    pub observers: Seq<int>,
}

/// The currently tracking subscriber of `g`, if any.
pub open spec fn observer_of(g: GraphView) -> Option<int> {
    if g.observers.len() == 0 {
        None
    } else {
        Some(g.observers.last())
    }
}

/// Graph invariant: edges go both ways between existing nodes, and the
/// observer stack names existing subscribers.
pub open spec fn graph_wf(g: GraphView) -> bool {
    &&& forall|i: int, j: int|
        0 <= i < g.sources.len() && #[trigger] g.sources[i].contains(j) ==> 0 <= j < g.subs.len()
    &&& forall|j: int, i: int|
        0 <= j < g.subs.len() && #[trigger] g.subs[j].deps.contains(i) ==> 0 <= i
            < g.sources.len()
    &&& forall|i: int, j: int|
        0 <= i < g.sources.len() && 0 <= j < g.subs.len() ==> (#[trigger] g.sources[i].contains(j)
            <==> #[trigger] g.subs[j].deps.contains(i))
    &&& forall|k: int|
        0 <= k < g.observers.len() ==> 0 <= #[trigger] g.observers[k] < g.subs.len()
}

/// One tracked read of `src` under observer `o`: the dependency edge
/// between `src` and `o` is recorded on both sides.
pub open spec fn with_edge(g: GraphView, src: int, o: int) -> GraphView {
    GraphView {
        sources: g.sources.update(src, g.sources[src].insert(o)),
        subs: g.subs.update(
            o,
            SubView { deps: g.subs[o].deps.insert(src), ..g.subs[o] },
        ),
        observers: g.observers,
    }
}

/// The graph after subscriber `s`, installed as the observer, performs
/// the tracked reads of `reads` in order: each read adds its edge, exactly
/// as a tracked read does.
pub open spec fn spec_run_reads(g: GraphView, s: int, reads: Seq<int>) -> GraphView
    decreases reads.len(),
{
    if reads.len() == 0 {
        g
    } else {
        with_edge(spec_run_reads(g, s, reads.drop_last()), reads.last(), s)
    }
}

/// The set of a sequence loses nothing but its last occurrence when the
/// last element is split off.
proof fn lemma_to_set_split_last(reads: Seq<int>)
    requires
        reads.len() > 0,
    ensures
        reads.drop_last().to_set().insert(reads.last()) == reads.to_set(),
{
    assert(reads.drop_last().to_set().insert(reads.last()) =~= reads.to_set()) by {
        assert forall|x: int| reads.to_set().contains(x) implies reads.drop_last()
            .to_set().insert(reads.last()).contains(x) by {
            let k = choose|k: int| 0 <= k < reads.len() && reads[k] == x;
            if k < reads.len() - 1 {
                assert(reads.drop_last()[k] == x);
            }
        }
        assert forall|x: int| reads.drop_last().to_set().insert(reads.last()).contains(x)
            implies reads.to_set().contains(x) by {
            if reads.drop_last().to_set().contains(x) {
                let k = choose|k: int| 0 <= k < reads.len() - 1 && reads.drop_last()[k] == x;
                assert(reads[k] == x);
            }
        }
    }
}

/// Attribution law: tracked reads performed under observer `s` add their
/// edges to `s` and to no one else — afterwards `s` depends on what it
/// depended on before plus exactly the sources read, every other
/// subscriber's dependency set is untouched, and the observer stack is
/// unchanged.
pub proof fn lemma_reads_attribute_to_observer(g: GraphView, s: int, reads: Seq<int>)
    requires
        0 <= s < g.subs.len(),
        forall|k: int| 0 <= k < reads.len() ==> 0 <= #[trigger] reads[k] < g.sources.len(),
    ensures
        ({
            let g1 = spec_run_reads(g, s, reads);
            &&& g1.subs.len() == g.subs.len()
            &&& g1.sources.len() == g.sources.len()
            &&& g1.subs[s].deps == g.subs[s].deps.union(reads.to_set())
            &&& forall|j: int|
                0 <= j < g.subs.len() && j != s ==> (#[trigger] g1.subs[j]).deps == g.subs[j].deps
            &&& g1.observers == g.observers
        }),
    decreases reads.len(),
{
    if reads.len() == 0 {
        assert(spec_run_reads(g, s, reads).subs[s].deps =~= g.subs[s].deps.union(
            reads.to_set(),
        ));
    } else {
        assert forall|k: int|
            0 <= k < reads.drop_last().len() implies 0 <= #[trigger] reads.drop_last()[k]
            < g.sources.len() by {
            assert(reads.drop_last()[k] == reads[k]);
        }
        lemma_reads_attribute_to_observer(g, s, reads.drop_last());
        lemma_to_set_split_last(reads);
        let gp = spec_run_reads(g, s, reads.drop_last());
        let g1 = with_edge(gp, reads.last(), s);
        assert(0 <= reads.last() < g.sources.len()) by {
            assert(reads[reads.len() - 1] == reads.last());
        }
        assert forall|j: int|
            0 <= j < g.subs.len() && j != s implies (#[trigger] g1.subs[j]).deps == g.subs[j].deps by {
            assert(g1.subs[j] == gp.subs[j]);
        }
        assert(spec_run_reads(g, s, reads).subs[s].deps =~= g.subs[s].deps.union(
            reads.to_set(),
        ));
    }
}

/// Dynamic-dependency law: a tracked run that starts from the cleared
/// dependency set — which is what beginning a tracked run establishes —
/// ends with exactly the set of sources it read, whatever the order and
/// repetition of the reads. No edge of an earlier run survives that the
/// run did not itself re-create.
pub proof fn lemma_run_rebuilds_deps_exactly(g: GraphView, s: int, reads: Seq<int>)
    requires
        0 <= s < g.subs.len(),
        g.subs[s].deps == Set::<int>::empty(),
        forall|k: int| 0 <= k < reads.len() ==> 0 <= #[trigger] reads[k] < g.sources.len(),
    ensures
        spec_run_reads(g, s, reads).subs[s].deps == reads.to_set(),
{
    lemma_reads_attribute_to_observer(g, s, reads);
    assert(Set::<int>::empty().union(reads.to_set()) =~= reads.to_set());
}

/// Attribution law: a tracked read under an installed observer records the
/// edge on that very observer, on both sides of the graph.
pub proof fn lemma_read_attributes_to_observer(g: GraphView, src: int)
    requires
        graph_wf(g),
        0 <= src < g.sources.len(),
        observer_of(g) is Some,
    ensures
        ({
            let o = observer_of(g)->0;
            let g1 = with_edge(g, src, o);
            &&& g1.subs[o].deps.contains(src)
            &&& g1.sources[src].contains(o)
            &&& observer_of(g1) == observer_of(g)
        }),
{
}

/// A handle naming one source (signal) of a [`ReactiveGraph`].
#[derive(Clone, Copy, PartialEq, Eq, Structural, Hash, Debug)]
pub struct AnySource {
    id: usize,
}

impl AnySource {
    /// The index of the source this handle names.
    pub closed spec fn id_spec(self) -> int {
        self.id as int
    }
}

/// A cloneable, comparable handle naming one subscriber. Two handles are
/// equal exactly when they name the same subscriber; the handle does not
/// own the node it names.
#[derive(Clone, Copy, PartialEq, Eq, Structural, Hash, Debug)]
pub struct AnySubscriber {
    id: usize,
}

impl AnySubscriber {
    /// The index of the subscriber this handle names.
    pub closed spec fn id_spec(self) -> int {
        self.id as int
    }
}

/// Entry point to the ambient tracking context.
pub struct Observer;

impl Observer {
    /// The subscriber currently tracking reads in `g`, or none.
    pub fn get(g: &ReactiveGraph) -> (r: Option<AnySubscriber>)
        ensures
            match observer_of(g@) {
                Some(o) => r matches Some(s) && s.id_spec() == o,
                None => r is None,
            },
    {
        if g.observers.len() == 0 {
            None
        } else {
            Some(AnySubscriber { id: g.observers[g.observers.len() - 1] })
        }
    }
}

/// The dependency graph: sources, subscribers, their mutual edges, and the
/// observer stack.
pub struct ReactiveGraph {
    sources: Vec<Vec<usize>>,
    dep_lists: Vec<Vec<usize>>,
    running: Vec<bool>,
    dirty: Vec<bool>,
    observers: Vec<usize>,
}

/// The set of ids held in a list of indices.
spec fn id_set(v: Seq<usize>) -> Set<int> {
    v.map_values(|u: usize| u as int).to_set()
}

/// The subscriber indices named by a list of handles.
pub open spec fn notified_ids(v: Seq<AnySubscriber>) -> Set<int> {
    Set::new(|j: int| exists|m: int| 0 <= m < v.len() && (#[trigger] v[m]).id_spec() == j)
}

/// Whether `x` occurs in `v`.
fn contains_id(v: &Vec<usize>, x: usize) -> (r: bool)
    ensures
        r == v@.contains(x),
{
    let mut k: usize = 0;
    while k < v.len()
        invariant
            0 <= k <= v@.len(),
            forall|m: int| 0 <= m < k ==> v@[m] != x,
        decreases v@.len() - k,
    {
        if v[k] == x {
            return true;
        }
        k = k + 1;
    }
    false
}

/// Remove the occurrence of `x` from the duplicate-free list `v`, if any.
fn remove_id(v: &mut Vec<usize>, x: usize)
    requires
        old(v)@.no_duplicates(),
    ensures
        final(v)@.no_duplicates(),
        id_set(final(v)@) == id_set(old(v)@).remove(x as int),
        forall|y: usize| final(v)@.contains(y) ==> old(v)@.contains(y),
{
    let mut k: usize = 0;
    while k < v.len()
        invariant
            0 <= k <= v@.len(),
            *v == *old(v),
            old(v)@.no_duplicates(),
            forall|m: int| 0 <= m < k ==> v@[m] != x,
        decreases v@.len() - k,
    {
        if v[k] == x {
            v.remove(k);
            proof {
                let v0 = old(v)@;
                let v1 = v@;
                assert(v1 =~= v0.remove(k as int));
                v0.remove_ensures(k as int);
                assert(v1.no_duplicates()) by {
                    assert forall|m1: int, m2: int|
                        0 <= m1 < v1.len() && 0 <= m2 < v1.len() && m1 != m2 implies v1[m1]
                        != v1[m2] by {
                        let p1: int = if m1 < k { m1 } else { m1 + 1 };
                        let p2: int = if m2 < k { m2 } else { m2 + 1 };
                        assert(v1[m1] == v0[p1]);
                        assert(v1[m2] == v0[p2]);
                    }
                }
                assert forall|y: usize| v1.contains(y) implies v0.contains(y) by {
                    let m = choose|m: int| 0 <= m < v1.len() && v1[m] == y;
                    let p: int = if m < k { m } else { m + 1 };
                    assert(v0[p] == y);
                }
                assert(id_set(v1) =~= id_set(v0).remove(x as int)) by {
                    assert forall|y: int| id_set(v1).contains(y) implies id_set(v0).remove(
                        x as int,
                    ).contains(y) by {
                        lemma_id_set_contains(v1, y);
                        let m = choose|m: int| 0 <= m < v1.len() && v1[m] == y;
                        let p: int = if m < k { m } else { m + 1 };
                        assert(v0[p] == y as usize);
                        lemma_id_set_contains(v0, y);
                        assert(y != x as int) by {
                            if v1[m] == x {
                                assert(v0[p] == v0[k as int]);
                            }
                        }
                    }
                    assert forall|y: int| id_set(v0).remove(x as int).contains(y) implies id_set(
                        v1,
                    ).contains(y) by {
                        lemma_id_set_contains(v0, y);
                        let p = choose|p: int| 0 <= p < v0.len() && v0[p] == y;
                        assert(p != k);
                        let m: int = if p < k { p } else { p - 1 };
                        assert(v1[m] == y as usize);
                        lemma_id_set_contains(v1, y);
                    }
                }
            }
            return ;
        }
        k = k + 1;
    }
    proof {
        assert(!v@.contains(x)) by {
            if v@.contains(x) {
                let m = choose|m: int| 0 <= m < v@.len() && v@[m] == x;
            }
        }
        assert(id_set(final(v)@) =~= id_set(old(v)@).remove(x as int)) by {
            assert forall|y: int| id_set(v@).contains(y) implies y != x as int by {
                lemma_id_set_contains(v@, y);
                let m = choose|m: int| 0 <= m < v@.len() && v@[m] == y;
            }
        }
    }
}

proof fn lemma_id_set_contains(v: Seq<usize>, x: int)
    ensures
        id_set(v).contains(x) <==> exists|k: int| 0 <= k < v.len() && v[k] == x,
{
    if id_set(v).contains(x) {
        let m = v.map_values(|u: usize| u as int);
        let k = choose|k: int| 0 <= k < m.len() && m[k] == x;
        assert(v[k] == x);
    }
    if exists|k: int| 0 <= k < v.len() && v[k] == x {
        let k = choose|k: int| 0 <= k < v.len() && v[k] == x;
        assert(v.map_values(|u: usize| u as int)[k] == x);
        assert(v.map_values(|u: usize| u as int).contains(x));
    }
}

proof fn lemma_id_set_push(v: Seq<usize>, x: usize)
    ensures
        id_set(v.push(x)) == id_set(v).insert(x as int),
{
    assert forall|y: int| id_set(v.push(x)).contains(y) implies id_set(v).insert(
        x as int,
    ).contains(y) by {
        lemma_id_set_contains(v.push(x), y);
        let k = choose|k: int| 0 <= k < v.push(x).len() && v.push(x)[k] == y;
        if k < v.len() {
            lemma_id_set_contains(v, y);
        }
    }
    assert forall|y: int| id_set(v).insert(x as int).contains(y) implies id_set(
        v.push(x),
    ).contains(y) by {
        lemma_id_set_contains(v.push(x), y);
        if y == x as int {
            assert(v.push(x)[v.len() as int] == x);
        } else {
            lemma_id_set_contains(v, y);
            let k = choose|k: int| 0 <= k < v.len() && v[k] == y;
            assert(v.push(x)[k] == y);
        }
    }
    assert(id_set(v.push(x)) =~= id_set(v).insert(x as int));
}

proof fn lemma_id_set_drop_last(v: Seq<usize>)
    requires
        v.no_duplicates(),
        v.len() > 0,
    ensures
        id_set(v.drop_last()) == id_set(v).remove(v.last() as int),
{
    let d = v.drop_last();
    assert forall|y: int| id_set(d).contains(y) implies id_set(v).remove(
        v.last() as int,
    ).contains(y) by {
        lemma_id_set_contains(d, y);
        let m = choose|m: int| 0 <= m < d.len() && d[m] == y;
        assert(v[m] == y as usize);
        lemma_id_set_contains(v, y);
        assert(y != v.last() as int) by {
            if d[m] == v.last() {
                assert(v[m] == v[v.len() - 1]);
            }
        }
    }
    assert forall|y: int| id_set(v).remove(v.last() as int).contains(y) implies id_set(
        d,
    ).contains(y) by {
        lemma_id_set_contains(v, y);
        let m = choose|m: int| 0 <= m < v.len() && v[m] == y;
        assert(m < v.len() - 1);
        assert(d[m] == y as usize);
        lemma_id_set_contains(d, y);
    }
    assert(id_set(d) =~= id_set(v).remove(v.last() as int));
}

impl View for ReactiveGraph {
    type V = GraphView;

    /// The graph as contracts see it.
    closed spec fn view(&self) -> GraphView {
        GraphView {
            sources: self.sources@.map_values(|v: Vec<usize>| id_set(v@)),
            subs: Seq::new(
                self.dep_lists@.len(),
                |j: int| SubView {
                    deps: id_set(self.dep_lists@[j]@),
                    running: self.running@[j],
                    dirty: self.dirty@[j],
                },
            ),
            observers: self.observers@.map_values(|u: usize| u as int),
        }
    }
}

impl ReactiveGraph {
    /// The parts of the exec state that the abstract view cannot see: the
    /// parallel subscriber columns line up, the edge lists hold no
    /// duplicates, and the stored indices are in bounds.
    pub closed spec fn state_ok(self) -> bool {
        &&& self.running@.len() == self.dep_lists@.len()
        &&& self.dirty@.len() == self.dep_lists@.len()
        &&& forall|i: int|
            0 <= i < self.sources@.len() ==> (#[trigger] self.sources@[i])@.no_duplicates()
        &&& forall|j: int|
            0 <= j < self.dep_lists@.len() ==> (#[trigger] self.dep_lists@[j])@.no_duplicates()
        &&& forall|i: int, k: int|
            0 <= i < self.sources@.len() && 0 <= k < self.sources@[i]@.len()
                ==> (#[trigger] self.sources@[i]@[k]) < self.dep_lists@.len()
        &&& forall|j: int, k: int|
            0 <= j < self.dep_lists@.len() && 0 <= k < self.dep_lists@[j]@.len()
                ==> (#[trigger] self.dep_lists@[j]@[k]) < self.sources@.len()
        &&& forall|k: int|
            0 <= k < self.observers@.len() ==> (#[trigger] self.observers@[k])
                < self.dep_lists@.len()
    }

    /// Graph invariant; all operations preserve it.
    pub open spec fn inv(self) -> bool {
        &&& self.state_ok()
        &&& graph_wf(self@)
    }

    /// An empty graph: no sources, no subscribers, no observer.
    pub fn new() -> (g: ReactiveGraph)
        ensures
            g.inv(),
            g@.sources == Seq::<Set<int>>::empty(),
            g@.subs == Seq::<SubView>::empty(),
            g@.observers == Seq::<int>::empty(),
    {
        let g = ReactiveGraph {
            sources: Vec::new(),
            dep_lists: Vec::new(),
            running: Vec::new(),
            dirty: Vec::new(),
            observers: Vec::new(),
        };
        proof {
            assert(g@.sources =~= Seq::<Set<int>>::empty());
            assert(g@.subs =~= Seq::<SubView>::empty());
            assert(g@.observers =~= Seq::<int>::empty());
        }
        g
    }

    /// Create a source with no registered subscribers.
    pub fn create_source(&mut self) -> (s: AnySource)
        requires
            old(self).inv(),
        ensures
            final(self).inv(),
            s.id_spec() == old(self)@.sources.len(),
            final(self)@.sources == old(self)@.sources.push(Set::<int>::empty()),
            final(self)@.subs == old(self)@.subs,
            final(self)@.observers == old(self)@.observers,
    {
        let id = self.sources.len();
        self.sources.push(Vec::new());
        proof {
            assert(id_set(Seq::<usize>::empty()) =~= Set::<int>::empty()) by {
                assert forall|y: int| !id_set(Seq::<usize>::empty()).contains(y) by {
                    lemma_id_set_contains(Seq::<usize>::empty(), y);
                }
            }
            assert(final(self)@.sources =~= old(self)@.sources.push(Set::<int>::empty()));
            assert(final(self)@.subs =~= old(self)@.subs);
        }
        AnySource { id }
    }

    /// Create a subscriber with no dependencies, not running, not dirty.
    pub fn create_subscriber(&mut self) -> (s: AnySubscriber)
        requires
            old(self).inv(),
        ensures
            final(self).inv(),
            s.id_spec() == old(self)@.subs.len(),
            final(self)@.subs == old(self)@.subs.push(
                SubView { deps: Set::<int>::empty(), running: false, dirty: false },
            ),
            final(self)@.sources == old(self)@.sources,
            final(self)@.observers == old(self)@.observers,
    {
        let id = self.dep_lists.len();
        self.dep_lists.push(Vec::new());
        self.running.push(false);
        self.dirty.push(false);
        proof {
            assert(id_set(Seq::<usize>::empty()) =~= Set::<int>::empty()) by {
                assert forall|y: int| !id_set(Seq::<usize>::empty()).contains(y) by {
                    lemma_id_set_contains(Seq::<usize>::empty(), y);
                }
            }
            assert(final(self)@.subs =~= old(self)@.subs.push(
                SubView { deps: Set::<int>::empty(), running: false, dirty: false },
            ));
            assert(final(self)@.sources =~= old(self)@.sources);
        }
        AnySubscriber { id }
    }

    /// Install `s` as the innermost observer; reads are attributed to it
    /// until the matching [`pop_observer`]. Does not touch `s`'s existing
    /// dependencies.
    ///
    /// [`pop_observer`]: ReactiveGraph::pop_observer
    pub fn push_observer(&mut self, s: AnySubscriber)
        requires
            old(self).inv(),
            0 <= s.id_spec() < old(self)@.subs.len(),
        ensures
            final(self).inv(),
            final(self)@.observers == old(self)@.observers.push(s.id_spec()),
            observer_of(final(self)@) == Some(s.id_spec()),
            final(self)@.sources == old(self)@.sources,
            final(self)@.subs == old(self)@.subs,
    {
        self.observers.push(s.id);
        proof {
            assert(final(self)@.observers =~= old(self)@.observers.push(s.id_spec()));
            assert(final(self)@.sources =~= old(self)@.sources);
            assert(final(self)@.subs =~= old(self)@.subs);
        }
    }

    /// Drop every dependency edge of `s`, on both sides of the graph.
    #[verifier::loop_isolation(false)]
    fn clear_dependencies(&mut self, s: AnySubscriber)
        requires
            old(self).inv(),
            0 <= s.id_spec() < old(self)@.subs.len(),
        ensures
            final(self).inv(),
            final(self)@.subs.len() == old(self)@.subs.len(),
            final(self)@.subs[s.id_spec()] == (SubView {
                deps: Set::<int>::empty(),
                ..old(self)@.subs[s.id_spec()]
            }),
            forall|j: int|
                0 <= j < old(self)@.subs.len() && j != s.id_spec() ==> final(self)@.subs[j]
                    == old(self)@.subs[j],
            final(self)@.sources.len() == old(self)@.sources.len(),
            forall|i: int|
                0 <= i < old(self)@.sources.len() ==> final(self)@.sources[i] == old(self)@.sources[i].remove(s.id_spec()),
            final(self)@.observers == old(self)@.observers,
    {
        let sid = s.id;
        while self.dep_lists[sid].len() > 0
            invariant
                self.inv(),
                self@.subs.len() == old(self)@.subs.len(),
                self@.sources.len() == old(self)@.sources.len(),
                self@.observers == old(self)@.observers,
                self.dep_lists@[sid as int]@.len() <= old(self).dep_lists@[sid as int]@.len(),
                self.dep_lists@[sid as int]@ == old(self).dep_lists@[sid as int]@.subrange(
                    0,
                    self.dep_lists@[sid as int]@.len() as int,
                ),
                forall|j: int|
                    0 <= j < old(self)@.subs.len() && j != sid as int ==> self@.subs[j] == old(self)@.subs[j],
                self@.subs[sid as int].running == old(self)@.subs[sid as int].running,
                self@.subs[sid as int].dirty == old(self)@.subs[sid as int].dirty,
                forall|i: int|
                    0 <= i < self@.sources.len() ==> #[trigger] self@.sources[i] == (
                    if old(self)@.subs[sid as int].deps.contains(i) && !self@.subs[sid as int].deps.contains(i) {
                        old(self)@.sources[i].remove(sid as int)
                    } else {
                        old(self)@.sources[i]
                    }),
            decreases self.dep_lists@[sid as int]@.len(),
        {
            let ghost g_pre = *self;
            let dl_len = self.dep_lists[sid].len();
            let src = self.dep_lists[sid][dl_len - 1];
            proof {
                let pre_list = g_pre.dep_lists@[sid as int]@;
                assert(pre_list.no_duplicates());
                assert(id_set(pre_list).contains(src as int)) by {
                    lemma_id_set_contains(pre_list, src as int);
                }
                assert((src as int) < g_pre@.sources.len());
                assert(old(self)@.subs[sid as int].deps.contains(src as int)) by {
                    let full = old(self).dep_lists@[sid as int]@;
                    assert(full[dl_len - 1] == src);
                    lemma_id_set_contains(full, src as int);
                }
            }
            let dl = &mut self.dep_lists[sid];
            dl.pop();
            proof {
                let pre_list = g_pre.dep_lists@[sid as int]@;
                assert(self.dep_lists@[sid as int]@ =~= pre_list.drop_last());
                lemma_id_set_drop_last(pre_list);
                let full = old(self).dep_lists@[sid as int]@;
                assert(self.dep_lists@[sid as int]@ =~= full.subrange(
                    0,
                    self.dep_lists@[sid as int]@.len() as int,
                ));
            }
            remove_id(&mut self.sources[src], sid);
            proof {
                let si = src as int;
                let pre = g_pre@;
                let o = old(self)@;
                // the source column changed only at src, the sub column only at sid
                assert(self@.sources =~= pre.sources.update(
                    si,
                    id_set(self.sources@[si]@),
                ));
                assert(self@.subs =~= pre.subs.update(
                    sid as int,
                    SubView {
                        deps: id_set(self.dep_lists@[sid as int]@),
                        ..pre.subs[sid as int]
                    },
                ));
                assert(id_set(self.sources@[si]@) == id_set(g_pre.sources@[si]@).remove(
                    sid as int,
                ));
                // s's dependency set lost exactly src
                assert(self@.subs[sid as int].deps =~= pre.subs[sid as int].deps.remove(si)) by {
                    lemma_id_set_drop_last(g_pre.dep_lists@[sid as int]@);
                }
                assert(!self@.subs[sid as int].deps.contains(si)) by {
                    let cur = self.dep_lists@[sid as int]@;
                    lemma_id_set_contains(cur, si);
                    if exists|m: int| 0 <= m < cur.len() && cur[m] == src {
                        let m = choose|m: int| 0 <= m < cur.len() && cur[m] == src;
                        let pre_list = g_pre.dep_lists@[sid as int]@;
                        assert(pre_list[m] == src && pre_list[pre_list.len() - 1] == src);
                    }
                }
                // per-source formula is re-established
                assert forall|i: int| 0 <= i < self@.sources.len() implies #[trigger] self@.sources[i]
                    == (if o.subs[sid as int].deps.contains(i) && !self@.subs[sid as int].deps.contains(i) {
                    o.sources[i].remove(sid as int)
                } else {
                    o.sources[i]
                }) by {
                    if i == si {
                        assert(pre.sources[si] == o.sources[si]) by {
                            assert(pre.subs[sid as int].deps.contains(si));
                        }
                    } else {
                        assert(self@.sources[i] == pre.sources[i]);
                        assert(self@.subs[sid as int].deps.contains(i) == pre.subs[sid as int].deps.contains(i));
                    }
                }
                assert(self.state_ok()) by {
                    assert forall|i: int|
                        0 <= i < self.sources@.len() implies (
                    #[trigger] self.sources@[i])@.no_duplicates() by {
                        if i != si {
                            assert(self.sources@[i] == g_pre.sources@[i]);
                        }
                    }
                    assert forall|j: int|
                        0 <= j < self.dep_lists@.len() implies (
                    #[trigger] self.dep_lists@[j])@.no_duplicates() by {
                        if j == sid as int {
                            let pre_list = g_pre.dep_lists@[sid as int]@;
                            let cur = self.dep_lists@[j]@;
                            assert(cur =~= pre_list.drop_last());
                            assert forall|m1: int, m2: int|
                                0 <= m1 < cur.len() && 0 <= m2 < cur.len() && m1 != m2 implies cur[m1]
                                != cur[m2] by {
                                assert(cur[m1] == pre_list[m1] && cur[m2] == pre_list[m2]);
                            }
                        } else {
                            assert(self.dep_lists@[j] == g_pre.dep_lists@[j]);
                        }
                    }
                    assert forall|i: int, k: int|
                        0 <= i < self.sources@.len() && 0 <= k < self.sources@[i]@.len() implies (
                    #[trigger] self.sources@[i]@[k]) < self.dep_lists@.len() by {
                        if i == si {
                            let y = self.sources@[i]@[k];
                            assert(self.sources@[i]@.contains(y));
                            assert(g_pre.sources@[i]@.contains(y));
                            let m = choose|m: int|
                                0 <= m < g_pre.sources@[i]@.len() && g_pre.sources@[i]@[m] == y;
                        } else {
                            assert(self.sources@[i] == g_pre.sources@[i]);
                        }
                    }
                    assert forall|j: int, k: int|
                        0 <= j < self.dep_lists@.len() && 0 <= k < self.dep_lists@[j]@.len()
                        implies (#[trigger] self.dep_lists@[j]@[k]) < self.sources@.len() by {
                        if j == sid as int {
                            let pre_list = g_pre.dep_lists@[sid as int]@;
                            assert(self.dep_lists@[j]@[k] == pre_list[k]);
                        } else {
                            assert(self.dep_lists@[j] == g_pre.dep_lists@[j]);
                        }
                    }
                }
                // the graph invariant survives the boundary
                assert(graph_wf(self@)) by {
                    assert forall|i: int, j: int|
                        0 <= i < self@.sources.len() && #[trigger] self@.sources[i].contains(j)
                        implies 0 <= j < self@.subs.len() by {
                        assert(pre.sources[i].contains(j) || self@.sources[i] == pre.sources[i]);
                    }
                    assert forall|j: int, i: int|
                        0 <= j < self@.subs.len() && #[trigger] self@.subs[j].deps.contains(i)
                        implies 0 <= i < self@.sources.len() by {
                        assert(pre.subs[j].deps.contains(i) || self@.subs[j] == pre.subs[j]);
                    }
                    assert forall|i: int, j: int|
                        0 <= i < self@.sources.len() && 0 <= j < self@.subs.len() implies (
                    #[trigger] self@.sources[i].contains(j) <==> #[trigger] self@.subs[j].deps.contains(i)) by {
                        if j == sid as int {
                            if i == si {
                            } else {
                                assert(self@.sources[i].contains(j) == pre.sources[i].contains(j));
                            }
                        } else {
                            assert(self@.subs[j].deps == pre.subs[j].deps);
                            if i == si {
                                assert(self@.sources[si].contains(j) == pre.sources[si].contains(
                                    j,
                                ));
                            }
                        }
                    }
                }
            }
        }
        proof {
            let empty_list = self.dep_lists@[sid as int]@;
            assert(empty_list.len() == 0);
            assert(self@.subs[sid as int].deps =~= Set::<int>::empty()) by {
                assert forall|y: int| !id_set(empty_list).contains(y) by {
                    lemma_id_set_contains(empty_list, y);
                }
            }
            assert(final(self)@.subs[s.id_spec()] =~~= (SubView {
                deps: Set::<int>::empty(),
                ..old(self)@.subs[s.id_spec()]
            }));
            assert forall|i: int| 0 <= i < old(self)@.sources.len() implies final(self)@.sources[i]
                == old(self)@.sources[i].remove(s.id_spec()) by {
                if !old(self)@.subs[sid as int].deps.contains(i) {
                    assert(!old(self)@.sources[i].contains(sid as int));
                    assert(old(self)@.sources[i].remove(sid as int) =~= old(self)@.sources[i]);
                }
            }
        }
    }

    /// Begin a tracked run of `s`: its previous dependency set is
    /// discarded entirely — edges from branches not taken last time do not
    /// survive — the subscriber is marked running and clean, and it becomes
    /// the innermost observer, so the reads that follow rebuild the set
    /// from exactly what is read.
    pub fn begin_track(&mut self, s: AnySubscriber)
        requires
            old(self).inv(),
            0 <= s.id_spec() < old(self)@.subs.len(),
            !old(self)@.subs[s.id_spec()].running,
        ensures
            final(self).inv(),
            final(self)@.subs.len() == old(self)@.subs.len(),
            final(self)@.subs[s.id_spec()] == (SubView {
                deps: Set::<int>::empty(),
                running: true,
                dirty: false,
            }),
            forall|j: int|
                0 <= j < old(self)@.subs.len() && j != s.id_spec() ==> final(self)@.subs[j]
                    == old(self)@.subs[j],
            final(self)@.sources.len() == old(self)@.sources.len(),
            forall|i: int|
                0 <= i < old(self)@.sources.len() ==> final(self)@.sources[i] == old(self)@.sources[i].remove(s.id_spec()),
            final(self)@.observers == old(self)@.observers.push(s.id_spec()),
            observer_of(final(self)@) == Some(s.id_spec()),
    {
        self.clear_dependencies(s);
        let ghost g_mid = *self;
        self.running[s.id] = true;
        self.dirty[s.id] = false;
        self.observers.push(s.id);
        proof {
            assert(final(self)@.sources =~= g_mid@.sources);
            assert(final(self)@.observers =~= old(self)@.observers.push(s.id_spec()));
            assert forall|j: int|
                0 <= j < old(self)@.subs.len() && j != s.id_spec() implies final(self)@.subs[j]
                == old(self)@.subs[j] by {
                assert(final(self)@.subs[j] =~~= g_mid@.subs[j]);
            }
            assert(final(self)@.subs[s.id_spec()] =~~= (SubView {
                deps: Set::<int>::empty(),
                running: true,
                dirty: false,
            }));
            assert(graph_wf(final(self)@)) by {
                assert forall|i: int, j: int|
                    0 <= i < final(self)@.sources.len() && 0 <= j < final(self)@.subs.len()
                    implies (#[trigger] final(self)@.sources[i].contains(j) <==> #[trigger] final(self)@.subs[j].deps.contains(i)) by {
                    assert(final(self)@.sources[i] == g_mid@.sources[i]);
                    assert(final(self)@.subs[j].deps == g_mid@.subs[j].deps);
                }
                assert forall|i: int, j: int|
                    0 <= i < final(self)@.sources.len() && #[trigger] final(self)@.sources[i].contains(j) implies 0 <= j < final(self)@.subs.len() by {
                    assert(g_mid@.sources[i].contains(j));
                }
                assert forall|j: int, i: int|
                    0 <= j < final(self)@.subs.len() && #[trigger] final(self)@.subs[j].deps.contains(i) implies 0 <= i < final(self)@.sources.len() by {
                    assert(g_mid@.subs[j].deps.contains(i));
                }
            }
        }
    }

    /// End the tracked run of `s`, restoring the outer observer. The
    /// dependency set built by the run stays as it is.
    pub fn end_track(&mut self, s: AnySubscriber)
        requires
            old(self).inv(),
            0 <= s.id_spec() < old(self)@.subs.len(),
            observer_of(old(self)@) == Some(s.id_spec()),
        ensures
            final(self).inv(),
            final(self)@.subs.len() == old(self)@.subs.len(),
            final(self)@.subs[s.id_spec()] == (SubView {
                running: false,
                ..old(self)@.subs[s.id_spec()]
            }),
            forall|j: int|
                0 <= j < old(self)@.subs.len() && j != s.id_spec() ==> final(self)@.subs[j]
                    == old(self)@.subs[j],
            final(self)@.sources == old(self)@.sources,
            final(self)@.observers == old(self)@.observers.drop_last(),
    {
        self.observers.pop();
        self.running[s.id] = false;
        proof {
            assert(final(self)@.sources =~= old(self)@.sources);
            assert(final(self)@.observers =~= old(self)@.observers.drop_last());
            assert forall|j: int|
                0 <= j < old(self)@.subs.len() && j != s.id_spec() implies final(self)@.subs[j]
                == old(self)@.subs[j] by {
                assert(final(self)@.subs[j] =~~= old(self)@.subs[j]);
            }
            assert(final(self)@.subs[s.id_spec()] =~~= (SubView {
                running: false,
                ..old(self)@.subs[s.id_spec()]
            }));
            assert(graph_wf(final(self)@)) by {
                assert forall|i: int, j: int|
                    0 <= i < final(self)@.sources.len() && 0 <= j < final(self)@.subs.len()
                    implies (#[trigger] final(self)@.sources[i].contains(j) <==> #[trigger] final(self)@.subs[j].deps.contains(i)) by {
                    assert(final(self)@.subs[j].deps == old(self)@.subs[j].deps);
                }
                assert forall|j: int, i: int|
                    0 <= j < final(self)@.subs.len() && #[trigger] final(self)@.subs[j].deps.contains(i) implies 0 <= i < final(self)@.sources.len() by {
                    assert(old(self)@.subs[j].deps.contains(i));
                }
            }
        }
    }

    /// A tracked read of `src`: when an observer is installed, the
    /// dependency edge from `src` to that observer is registered on both
    /// sides (reads with no observer leave the graph untouched). This is
    /// the only way edges appear, so a subscriber depends on exactly what
    /// it read.
    pub fn read_source(&mut self, src: AnySource)
        requires
            old(self).inv(),
            0 <= src.id_spec() < old(self)@.sources.len(),
        ensures
            final(self).inv(),
            match observer_of(old(self)@) {
                None => final(self)@ == old(self)@,
                Some(o) => final(self)@ == with_edge(old(self)@, src.id_spec(), o),
            },
    {
        if self.observers.len() == 0 {
            return ;
        }
        let o = self.observers[self.observers.len() - 1];
        let ghost oi = o as int;
        let ghost si = src.id_spec();
        let ghost g0 = old(self)@;
        let already = contains_id(&self.dep_lists[o], src.id);
        proof {
            lemma_id_set_contains(self.dep_lists@[oi]@, si);
            assert(already == g0.subs[oi].deps.contains(si));
        }
        if !already {
            let dl = &mut self.dep_lists[o];
            dl.push(src.id);
            let sl = &mut self.sources[src.id];
            sl.push(o);
            proof {
                lemma_id_set_push(old(self).dep_lists@[oi]@, src.id);
                lemma_id_set_push(old(self).sources@[si]@, o);
                assert(final(self)@.sources =~= with_edge(g0, si, oi).sources);
                assert(final(self)@.subs =~~= with_edge(g0, si, oi).subs);
                assert(final(self)@ =~~= with_edge(g0, si, oi));
                assert(final(self).state_ok()) by {
                    assert forall|i: int|
                        0 <= i < self.sources@.len() implies (
                    #[trigger] self.sources@[i])@.no_duplicates() by {
                        if i == si {
                            let pre = old(self).sources@[si]@;
                            assert(!pre.contains(o)) by {
                                if pre.contains(o) {
                                    lemma_id_set_contains(pre, oi);
                                    assert(g0.sources[si].contains(oi));
                                }
                            }
                            assert(self.sources@[i]@ =~= pre.push(o));
                        } else {
                            assert(self.sources@[i] == old(self).sources@[i]);
                        }
                    }
                    assert forall|j: int|
                        0 <= j < self.dep_lists@.len() implies (
                    #[trigger] self.dep_lists@[j])@.no_duplicates() by {
                        if j == oi {
                            let pre = old(self).dep_lists@[oi]@;
                            assert(!pre.contains(src.id)) by {
                                if pre.contains(src.id) {
                                    lemma_id_set_contains(pre, si);
                                }
                            }
                            assert(self.dep_lists@[j]@ =~= pre.push(src.id));
                        } else {
                            assert(self.dep_lists@[j] == old(self).dep_lists@[j]);
                        }
                    }
                    assert forall|i: int, k: int|
                        0 <= i < self.sources@.len() && 0 <= k < self.sources@[i]@.len() implies (
                    #[trigger] self.sources@[i]@[k]) < self.dep_lists@.len() by {
                        if i == si && k == self.sources@[i]@.len() - 1 {
                            assert(self.sources@[i]@[k] == o);
                        } else if i == si {
                            assert(self.sources@[i]@[k] == old(self).sources@[i]@[k]);
                        } else {
                            assert(self.sources@[i] == old(self).sources@[i]);
                        }
                    }
                    assert forall|j: int, k: int|
                        0 <= j < self.dep_lists@.len() && 0 <= k < self.dep_lists@[j]@.len()
                        implies (#[trigger] self.dep_lists@[j]@[k]) < self.sources@.len() by {
                        if j == oi && k == self.dep_lists@[j]@.len() - 1 {
                            assert(self.dep_lists@[j]@[k] == src.id);
                        } else if j == oi {
                            assert(self.dep_lists@[j]@[k] == old(self).dep_lists@[j]@[k]);
                        } else {
                            assert(self.dep_lists@[j] == old(self).dep_lists@[j]);
                        }
                    }
                }
                assert(graph_wf(final(self)@)) by {
                    let g1 = final(self)@;
                    assert forall|i: int, j: int|
                        0 <= i < g1.sources.len() && #[trigger] g1.sources[i].contains(j) implies 0
                        <= j < g1.subs.len() by {
                        if i == si {
                            assert(g0.sources[i].contains(j) || j == oi);
                        } else {
                            assert(g0.sources[i].contains(j));
                        }
                    }
                    assert forall|j: int, i: int|
                        0 <= j < g1.subs.len() && #[trigger] g1.subs[j].deps.contains(i) implies 0
                        <= i < g1.sources.len() by {
                        if j == oi {
                            assert(g0.subs[j].deps.contains(i) || i == si);
                        } else {
                            assert(g0.subs[j].deps.contains(i));
                        }
                    }
                    assert forall|i: int, j: int|
                        0 <= i < g1.sources.len() && 0 <= j < g1.subs.len() implies (
                    #[trigger] g1.sources[i].contains(j) <==> #[trigger] g1.subs[j].deps.contains(i)) by {
                        if i == si && j == oi {
                        } else if i == si {
                            assert(g1.sources[i].contains(j) == g0.sources[i].contains(j));
                            assert(g1.subs[j].deps == g0.subs[j].deps);
                        } else if j == oi {
                            assert(g1.sources[i] == g0.sources[i]);
                            assert(g1.subs[j].deps.contains(i) == g0.subs[j].deps.contains(i));
                        } else {
                            assert(g1.sources[i] == g0.sources[i]);
                            assert(g1.subs[j].deps == g0.subs[j].deps);
                        }
                    }
                }
            }
        } else {
            proof {
                assert(g0.subs[oi].deps.contains(si));
                assert(g0.sources[si].contains(oi));
                assert(g0.sources[si].insert(oi) =~= g0.sources[si]);
                assert(g0.subs[oi].deps.insert(si) =~= g0.subs[oi].deps);
                assert(with_edge(g0, si, oi).sources =~= g0.sources);
                assert(with_edge(g0, si, oi).subs =~~= g0.subs);
                assert(final(self)@ =~~= with_edge(g0, si, oi));
            }
        }
    }

    /// Write notification for `src`: every subscriber registered on `src`
    /// at this moment is marked dirty, and exactly those of them that are
    /// not currently running are returned, each once, for the host to
    /// notify — a running subscriber is never re-entered by its own write.
    #[verifier::loop_isolation(false)]
    pub fn write_source(&mut self, src: AnySource) -> (to_notify: Vec<AnySubscriber>)
        requires
            old(self).inv(),
            0 <= src.id_spec() < old(self)@.sources.len(),
        ensures
            final(self).inv(),
            final(self)@.sources == old(self)@.sources,
            final(self)@.observers == old(self)@.observers,
            final(self)@.subs.len() == old(self)@.subs.len(),
            forall|j: int|
                0 <= j < old(self)@.subs.len() ==> final(self)@.subs[j] == (SubView {
                    dirty: old(self)@.subs[j].dirty || old(self)@.sources[src.id_spec()].contains(
                        j,
                    ),
                    ..old(self)@.subs[j]
                }),
            forall|m: int, n: int|
                0 <= m < n < to_notify@.len() ==> to_notify@[m] != to_notify@[n],
            forall|j: int|
                #![trigger notified_ids(to_notify@).contains(j)]
                notified_ids(to_notify@).contains(j) <==> (0 <= j < old(self)@.subs.len() && old(self)@.sources[src.id_spec()].contains(j) && !old(self)@.subs[j].running),
    {
        let ghost g0 = old(self)@;
        let ghost si = src.id_spec();
        let ghost list0 = old(self).sources@[si]@;
        let mut out: Vec<AnySubscriber> = Vec::new();
        let mut k: usize = 0;
        while k < self.sources[src.id].len()
            invariant
                0 <= k <= list0.len(),
                self.sources@ == old(self).sources@,
                self.dep_lists@ == old(self).dep_lists@,
                self.running@ == old(self).running@,
                self.observers@ == old(self).observers@,
                self.dirty@.len() == old(self).dirty@.len(),
                forall|j: int|
                    0 <= j < self.dirty@.len() ==> #[trigger] self.dirty@[j] == (old(self).dirty@[j] || exists|m: int| 0 <= m < k && list0[m] == j),
                forall|m: int|
                    0 <= m < out@.len() ==> exists|t: int|
                        0 <= t < k && list0[t] == #[trigger] out@[m].id,
                forall|m: int, n: int| 0 <= m < n < out@.len() ==> out@[m] != out@[n],
                forall|m: int|
                    0 <= m < out@.len() ==> !self.running@[(#[trigger] out@[m]).id as int],
                forall|t: int|
                    0 <= t < k && !self.running@[list0[t] as int] ==> exists|m: int|
                        0 <= m < out@.len() && (#[trigger] out@[m]).id == list0[t],
            decreases list0.len() - k,
        {
            let ghost out_pre = out@;
            let j = self.sources[src.id][k];
            proof {
                assert(list0[k as int] == j);
                assert((j as int) < self.dirty@.len());
            }
            self.dirty[j] = true;
            if !self.running[j] {
                out.push(AnySubscriber { id: j });
            }
            k = k + 1;
            proof {
                assert forall|jj: int|
                    0 <= jj < self.dirty@.len() implies #[trigger] self.dirty@[jj] == (old(self).dirty@[jj] || exists|m: int| 0 <= m < k && list0[m] == jj) by {
                    if jj == j as int {
                        assert(list0[k - 1] == jj);
                    } else {
                        if exists|m: int| 0 <= m < k && list0[m] == jj {
                            let m = choose|m: int| 0 <= m < k && list0[m] == jj;
                            assert(m < k - 1);
                        }
                    }
                }
                assert forall|m: int, n: int|
                    0 <= m < n < out@.len() implies out@[m] != out@[n] by {
                    if n == out@.len() - 1 && out@[n].id == j {
                        if out@[m] == out@[n] {
                            let t = choose|t: int|
                                0 <= t < k - 1 && list0[t] == #[trigger] out@[m].id;
                            assert(list0[t] == list0[k - 1]);
                            assert(list0.no_duplicates());
                        }
                    }
                }
                assert forall|t: int|
                    0 <= t < k && !self.running@[list0[t] as int] implies exists|m: int|
                        0 <= m < out@.len() && (#[trigger] out@[m]).id == list0[t] by {
                    if t == k - 1 {
                        assert(out@[out@.len() - 1].id == list0[t]);
                    } else {
                        let m = choose|m: int|
                            0 <= m < out_pre.len() && (#[trigger] out_pre[m]).id == list0[t];
                        assert(out@[m].id == list0[t]);
                    }
                }
            }
        }
        proof {
            assert(k == list0.len());
            assert forall|j: int|
                0 <= j < old(self)@.subs.len() implies final(self)@.subs[j] == (SubView {
                dirty: g0.subs[j].dirty || g0.sources[si].contains(j),
                ..g0.subs[j]
            }) by {
                assert(g0.sources[si].contains(j) <==> exists|m: int|
                    0 <= m < list0.len() && list0[m] == j) by {
                    lemma_id_set_contains(list0, j);
                }
                assert(final(self)@.subs[j] =~~= (SubView {
                    dirty: g0.subs[j].dirty || g0.sources[si].contains(j),
                    ..g0.subs[j]
                }));
            }
            assert(final(self)@.sources =~= g0.sources);
            assert(final(self)@.observers =~= g0.observers);
            assert forall|j: int|
                #![trigger notified_ids(out@).contains(j)]
                notified_ids(out@).contains(j) <==> (0 <= j < g0.subs.len() && g0.sources[si].contains(j) && !g0.subs[j].running) by {
                if notified_ids(out@).contains(j) {
                    let m = choose|m: int| 0 <= m < out@.len() && out@[m].id == j;
                    let t = choose|t: int| 0 <= t < k && list0[t] == out@[m].id;
                    lemma_id_set_contains(list0, j);
                    assert(g0.sources[si].contains(j));
                    assert(!self.running@[out@[m].id as int]);
                    assert(!g0.subs[j].running);
                }
                if 0 <= j < g0.subs.len() && g0.sources[si].contains(j) && !g0.subs[j].running {
                    lemma_id_set_contains(list0, j);
                    let t = choose|t: int| 0 <= t < list0.len() && list0[t] == j;
                    assert(!self.running@[list0[t] as int]);
                    let m = choose|m: int|
                        0 <= m < out@.len() && (#[trigger] out@[m]).id == list0[t];
                    assert(out@[m].id == j);
                }
            }
            assert(graph_wf(final(self)@)) by {
                assert forall|i: int, j: int|
                    0 <= i < final(self)@.sources.len() && 0 <= j < final(self)@.subs.len()
                    implies (#[trigger] final(self)@.sources[i].contains(j) <==> #[trigger] final(self)@.subs[j].deps.contains(i)) by {
                    assert(final(self)@.sources[i] == g0.sources[i]);
                    assert(final(self)@.subs[j].deps == g0.subs[j].deps);
                }
                assert forall|i: int, j: int|
                    0 <= i < final(self)@.sources.len() && #[trigger] final(self)@.sources[i].contains(j) implies 0 <= j < final(self)@.subs.len() by {
                    assert(g0.sources[i].contains(j));
                }
                assert forall|j: int, i: int|
                    0 <= j < final(self)@.subs.len() && #[trigger] final(self)@.subs[j].deps.contains(i) implies 0 <= i < final(self)@.sources.len() by {
                    assert(g0.subs[j].deps.contains(i));
                }
            }
        }
        out
    }

    /// Whether `s` names a subscriber of this graph.
    pub fn contains_subscriber(&self, s: AnySubscriber) -> (r: bool)
        requires
            self.inv(),
        ensures
            r == (0 <= s.id_spec() < self@.subs.len()),
    {
        s.id < self.dep_lists.len()
    }

    /// Whether `src` names a source of this graph.
    pub fn contains_source(&self, src: AnySource) -> (r: bool)
        ensures
            r == (0 <= src.id_spec() < self@.sources.len()),
    {
        src.id < self.sources.len()
    }

    /// Whether subscriber `s` currently depends on source `src`.
    pub fn has_dependency(&self, s: AnySubscriber, src: AnySource) -> (r: bool)
        requires
            self.inv(),
            0 <= s.id_spec() < self@.subs.len(),
        ensures
            r == self@.subs[s.id_spec()].deps.contains(src.id_spec()),
    {
        let r = contains_id(&self.dep_lists[s.id], src.id);
        proof {
            lemma_id_set_contains(self.dep_lists@[s.id_spec()]@, src.id_spec());
        }
        r
    }

    /// Whether subscriber `s` has been marked dirty by a write.
    pub fn is_dirty(&self, s: AnySubscriber) -> (r: bool)
        requires
            self.inv(),
            0 <= s.id_spec() < self@.subs.len(),
        ensures
            r == self@.subs[s.id_spec()].dirty,
    {
        self.dirty[s.id]
    }

    /// Remove and return the innermost observer, restoring the outer
    /// tracking context.
    pub fn pop_observer(&mut self) -> (r: Option<AnySubscriber>)
        requires
            old(self).inv(),
        ensures
            final(self).inv(),
            match observer_of(old(self)@) {
                Some(o) => r matches Some(s) && s.id_spec() == o && final(self)@.observers
                    == old(self)@.observers.drop_last(),
                None => r is None && final(self)@.observers == old(self)@.observers,
            },
            final(self)@.sources == old(self)@.sources,
            final(self)@.subs == old(self)@.subs,
    {
        let r = match self.observers.pop() {
            Some(id) => Some(AnySubscriber { id }),
            None => None,
        };
        proof {
            assert(final(self)@.sources =~= old(self)@.sources);
            assert(final(self)@.subs =~= old(self)@.subs);
            if observer_of(old(self)@) is Some {
                assert(final(self)@.observers =~= old(self)@.observers.drop_last());
            } else {
                assert(final(self)@.observers =~= old(self)@.observers);
            }
        }
        r
    }
}

} // verus!
