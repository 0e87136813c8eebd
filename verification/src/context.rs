//! Context provision and lookup across the node tree.
//!
//! A context value set on a node is visible to every descendant:
//! [`ViewCtx`] accessors walk the parent chain from the build position
//! upward and answer with the nearest provided value, exactly as
//! [`NodeTree::lookup_context`] specifies.

use crate::node_tree::{Context, NodeTree};
use vstd::pervasive::unreached;
use vstd::prelude::*;

verus! {

/// A build position in the tree: the parent node under which building
/// happens, and from which context lookups start.
#[derive(Clone, Copy, Debug)]
pub struct ViewCtx {
    /// The node the lookup starts from.
    pub parent: usize,
}

impl ViewCtx {
    /// The nearest provided context on the chain from the build position
    /// to the root, by reference; none if no ancestor provides one.
    pub fn get_context_ref<'a, C>(&self, world: &'a NodeTree<C>) -> (r: Option<&'a C>)
        requires
            world.wf(),
            self.parent < world.num_nodes(),
        ensures
            match r {
                Some(c) => world.lookup_context(self.parent as int) == Some(*c),
                None => world.lookup_context(self.parent as int) is None,
            },
    {
        match self.find_provider(world) {
            Some(p) => world.context_at(p),
            None => None,
        }
    }

    /// The nearest provided context, cloned; none if no ancestor provides
    /// one. Whether a value is returned follows the lookup exactly; the
    /// value itself is whatever the clone of the found value yields.
    pub fn get_context<C: Clone>(&self, world: &NodeTree<C>) -> (r: Option<C>)
        requires
            world.wf(),
            self.parent < world.num_nodes(),
        ensures
            (r is Some) == (world.lookup_context(self.parent as int) is Some),
    {
        match self.get_context_ref(world) {
            Some(c) => Some(c.clone()),
            None => None,
        }
    }

    /// The nearest provided context, cloned. Some ancestor must provide
    /// one: accessing a context that has not been provided is a caller
    /// error.
    pub fn context<C: Clone>(&self, world: &NodeTree<C>) -> (r: C)
        requires
            world.wf(),
            self.parent < world.num_nodes(),
            world.lookup_context(self.parent as int) is Some,
    {
        match self.get_context_ref(world) {
            Some(c) => c.clone(),
            None => unreached(),
        }
    }

    /// The nearest provided context, by reference. Some ancestor must
    /// provide one: accessing a context that has not been provided is a
    /// caller error.
    pub fn context_ref<'a, C>(&self, world: &'a NodeTree<C>) -> (r: &'a C)
        requires
            world.wf(),
            self.parent < world.num_nodes(),
            world.lookup_context(self.parent as int) is Some,
        ensures
            world.lookup_context(self.parent as int) == Some(*r),
    {
        match self.get_context_ref(world) {
            Some(c) => c,
            None => unreached(),
        }
    }

    /// Apply `f` to the nearest provided context, storing the result back
    /// on the node that provided it. Returns whether a context was found;
    /// when none is, the tree is left untouched.
    pub fn context_scoped<C, F: FnOnce(C) -> C>(
        &self,
        world: &mut NodeTree<C>,
        f: F,
    ) -> (found: bool)
        requires
            old(world).wf(),
            self.parent < old(world).num_nodes(),
            old(world).lookup_context(self.parent as int) matches Some(v) ==> call_requires(f, (v,)),
        ensures
            found == (old(world).lookup_context(self.parent as int) is Some),
            !found ==> *final(world) == *old(world),
            found ==> ({
                let p = old(world).provider_of(self.parent as int)->0;
                let v = old(world).lookup_context(self.parent as int)->0;
                &&& final(world).wf()
                &&& final(world).num_nodes() == old(world).num_nodes()
                &&& exists|w: C|
                    #[trigger] call_ensures(f, (v,), w) && final(world).context_of(p) == Some(w)
                        && final(world).lookup_context(self.parent as int) == Some(w)
                &&& forall|i: int|
                    0 <= i < old(world).num_nodes() && i != p ==> final(world).context_of(i)
                        == old(world).context_of(i)
                &&& forall|i: int|
                    0 <= i < old(world).num_nodes() ==> final(world).parent_of(i) == old(world).parent_of(i) && final(world).hidden(i) == old(world).hidden(i) && final(world).removed(i) == old(world).removed(i)
            }),
    {
        let p = match self.find_provider(world) {
            Some(p) => p,
            None => {
                return false;
            },
        };
        let taken = match world.take_context(p) {
            Some(c) => c,
            None => unreached(),
        };
        let updated = f(taken.0);
        world.set_context(p, Context(updated));
        proof {
            assert(final(world).provider_of(self.parent as int) == Some(p as int)) by {
                lemma_provider_stable(*old(world), *final(world), self.parent as int);
            }
        }
        true
    }

    /// Walk the parent chain to the node providing the visible context.
    fn find_provider<C>(&self, world: &NodeTree<C>) -> (r: Option<usize>)
        requires
            world.wf(),
            self.parent < world.num_nodes(),
        ensures
            match r {
                Some(p) => world.provider_of(self.parent as int) == Some(p as int) && p
                    < world.num_nodes() && world.context_of(p as int) is Some,
                None => world.provider_of(self.parent as int) is None,
            },
    {
        let mut cur = self.parent;
        loop
            invariant
                world.wf(),
                cur < world.num_nodes(),
                world.provider_of(self.parent as int) == world.provider_of(cur as int),
            decreases cur,
        {
            match world.context_at(cur) {
                Some(_) => {
                    return Some(cur);
                },
                None => {},
            }
            match world.parent_at(cur) {
                Some(p) => {
                    cur = p;
                },
                None => {
                    return None;
                },
            }
        }
    }
}

/// Two trees that agree on structure and stored contexts up the chain
/// agree on who provides the context.
proof fn lemma_provider_stable<C>(t1: NodeTree<C>, t2: NodeTree<C>, i: int)
    requires
        t1.wf(),
        t2.wf(),
        t1.num_nodes() == t2.num_nodes(),
        0 <= i < t1.num_nodes(),
        forall|j: int| 0 <= j < t1.num_nodes() ==> #[trigger] t2.parent_of(j) == t1.parent_of(j),
        forall|j: int|
            0 <= j < t1.num_nodes() ==> ((#[trigger] t2.context_of(j)) is Some <==> t1.context_of(j) is Some),
    ensures
        t2.provider_of(i) == t1.provider_of(i),
    decreases i,
{
    if t1.context_of(i) is None {
        match t1.parent_of(i) {
            Some(p) => {
                lemma_provider_stable(t1, t2, p);
            },
            None => {},
        }
    }
}

/// A value provided to a subtree, wrapped around the view it scopes over.
pub struct ProvideContext<T, V> {
    provide_context: T,
    view: V,
}

/// Provide `value` as the context for everything built under `view`.
pub fn provide_context<T, V>(value: T, view: V) -> (r: ProvideContext<T, V>)
    ensures
        r.value_spec() == value,
        r.view_spec() == view,
{
    ProvideContext { provide_context: value, view }
}

impl<T, V> ProvideContext<T, V> {
    /// The value to be provided.
    pub closed spec fn value_spec(self) -> T {
        self.provide_context
    }

    /// The view the provision scopes over.
    pub closed spec fn view_spec(self) -> V {
        self.view
    }

    /// Build: store the provided value as the context of the view's
    /// element node, and hand the inner view back to be built under it.
    pub fn build(self, world: &mut NodeTree<T>, node: usize) -> (v: V)
        requires
            node < old(world).num_nodes(),
        ensures
            v == self.view_spec(),
            final(world).num_nodes() == old(world).num_nodes(),
            final(world).context_of(node as int) == Some(self.value_spec()),
            forall|i: int|
                0 <= i < old(world).num_nodes() && i != node as int ==> final(world).context_of(i)
                    == old(world).context_of(i),
            forall|i: int|
                0 <= i < old(world).num_nodes() ==> final(world).parent_of(i) == old(world).parent_of(i) && final(world).hidden(i) == old(world).hidden(i) && final(world).removed(i) == old(world).removed(i),
            old(world).wf() ==> final(world).wf(),
    {
        world.set_context(node, Context(self.provide_context));
        self.view
    }

    /// Rebuild: overwrite the provided value at the view's element node,
    /// and hand the inner view back to be rebuilt.
    pub fn rebuild(self, world: &mut NodeTree<T>, node: usize) -> (v: V)
        requires
            node < old(world).num_nodes(),
        ensures
            v == self.view_spec(),
            final(world).num_nodes() == old(world).num_nodes(),
            final(world).context_of(node as int) == Some(self.value_spec()),
            forall|i: int|
                0 <= i < old(world).num_nodes() && i != node as int ==> final(world).context_of(i)
                    == old(world).context_of(i),
            old(world).wf() ==> final(world).wf(),
    {
        world.set_context(node, Context(self.provide_context));
        self.view
    }
}

} // verus!
