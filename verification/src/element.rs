//! Elements: the view-layer building block that spawns one node and
//! attaches its members to it.
//!
//! `C` is the context value type of the [`NodeTree`] being built into, `E`
//! is the element kind (a phantom tag), and `VM` the member tuple. Members
//! implement [`ViewMember`]: they build onto, rebuild on, and unbuild from
//! an existing node, never adding or removing nodes themselves.

use crate::context::ViewCtx;
use crate::node_tree::NodeTree;
use core::marker::PhantomData;
use vstd::prelude::*;

verus! {

/// A member of an element: state attached to the element's node.
pub trait ViewMember<C>: Sized {
    /// How many members this value stands for.
    fn count() -> (n: u32);

    /// Detach from `node`; `view_removed` says the whole view is going
    /// away, in which case per-node state may simply be abandoned.
    fn unbuild(world: &mut NodeTree<C>, node: usize, view_removed: bool)
        requires
            old(world).wf(),
            node < old(world).num_nodes(),
        ensures
            final(world).wf(),
            final(world).num_nodes() == old(world).num_nodes(),
            forall|i: int|
                0 <= i < old(world).num_nodes() ==> final(world).parent_of(i) == old(world).parent_of(i),
    ;

    /// First attachment to `node`.
    fn build(self, world: &mut NodeTree<C>, node: usize, will_rebuild: bool)
        requires
            old(world).wf(),
            node < old(world).num_nodes(),
        ensures
            final(world).wf(),
            final(world).num_nodes() == old(world).num_nodes(),
            forall|i: int|
                0 <= i < old(world).num_nodes() ==> final(world).parent_of(i) == old(world).parent_of(i),
    ;

    /// Re-attachment to `node` with this value's current state.
    fn rebuild(self, world: &mut NodeTree<C>, node: usize)
        requires
            old(world).wf(),
            node < old(world).num_nodes(),
        ensures
            final(world).wf(),
            final(world).num_nodes() == old(world).num_nodes(),
            forall|i: int|
                0 <= i < old(world).num_nodes() ==> final(world).parent_of(i) == old(world).parent_of(i),
    ;
}

impl<C> ViewMember<C> for () {
    fn count() -> (n: u32) {
        0
    }

    fn unbuild(world: &mut NodeTree<C>, node: usize, view_removed: bool) {
    }

    fn build(self, world: &mut NodeTree<C>, node: usize, will_rebuild: bool) {
    }

    fn rebuild(self, world: &mut NodeTree<C>, node: usize) {
    }
}

impl<C, A: ViewMember<C>> ViewMember<C> for (A,) {
    fn count() -> (n: u32) {
        A::count()
    }

    fn unbuild(world: &mut NodeTree<C>, node: usize, view_removed: bool) {
        A::unbuild(world, node, view_removed);
    }

    fn build(self, world: &mut NodeTree<C>, node: usize, will_rebuild: bool) {
        self.0.build(world, node, will_rebuild);
    }

    fn rebuild(self, world: &mut NodeTree<C>, node: usize) {
        self.0.rebuild(world, node);
    }
}

impl<C, A: ViewMember<C>, B: ViewMember<C>> ViewMember<C> for (A, B) {
    fn count() -> (n: u32) {
        A::count().saturating_add(B::count())
    }

    fn unbuild(world: &mut NodeTree<C>, node: usize, view_removed: bool) {
        A::unbuild(world, node, view_removed);
        B::unbuild(world, node, view_removed);
    }

    fn build(self, world: &mut NodeTree<C>, node: usize, will_rebuild: bool) {
        self.0.build(world, node, will_rebuild);
        self.1.build(world, node, will_rebuild);
    }

    fn rebuild(self, world: &mut NodeTree<C>, node: usize) {
        self.0.rebuild(world, node);
        self.1.rebuild(world, node);
    }
}

/// An element: one spawned node of kind `E` carrying the members `VM`.
pub struct Element<C, E, VM> {
    pub members: VM,
    pub _marker: PhantomData<(C, E)>,
}

impl<C, E, VM: Clone> Clone for Element<C, E, VM> {
    fn clone(&self) -> (r: Self) {
        Element { members: self.members.clone(), _marker: PhantomData }
    }
}

impl<C, E> Default for Element<C, E, ()> {
    /// An element with no members.
    fn default() -> (r: Self)
        ensures
            r.members == (),
    {
        Element { members: (), _marker: PhantomData }
    }
}

/// The key a built element hands back: the index of its spawned node.
pub struct ElementViewKey<VM>(pub usize, pub PhantomData<VM>);

impl<VM> Clone for ElementViewKey<VM> {
    fn clone(&self) -> (r: Self)
        ensures
            r.0 == self.0,
    {
        ElementViewKey(self.0, PhantomData)
    }
}

/// An element paired with the children views built beneath it.
pub struct ElementViewChildren<V, CV> {
    pub element: V,
    pub children: CV,
}

impl<C, E, VM: ViewMember<C>> Element<C, E, VM> {
    /// An element carrying `members`.
    pub fn new(members: VM) -> (r: Self)
        ensures
            r.members == members,
    {
        Element { members, _marker: PhantomData }
    }

    /// Attach children views beneath this element.
    pub fn children<CV>(self, children: CV) -> (r: ElementViewChildren<Element<C, E, VM>, CV>)
        ensures
            r.element == self,
            r.children == children,
    {
        ElementViewChildren { element: self, children }
    }

    /// Add one more member, nesting it after the present ones.
    pub fn member<T: ViewMember<C>>(self, member: T) -> (r: Element<C, E, (VM, T)>)
        ensures
            r.members == (self.members, member),
    {
        Element { members: (self.members, member), _marker: PhantomData }
    }

    /// Replace all members with the given one.
    pub fn members<T: ViewMember<C>>(self, members: T) -> (r: Element<C, E, (T,)>)
        ensures
            r.members == (members,),
    {
        Element { members: (members,), _marker: PhantomData }
    }

    /// Build the element: spawn its node under the build position (or
    /// claim the reserved node), attach the members to it, and return the
    /// key naming the node.
    pub fn build(
        self,
        world: &mut NodeTree<C>,
        ctx: ViewCtx,
        reserve_key: Option<ElementViewKey<VM>>,
        will_rebuild: bool,
    ) -> (key: ElementViewKey<VM>)
        requires
            old(world).wf(),
            ctx.parent < old(world).num_nodes(),
            match reserve_key {
                Some(k) => ctx.parent < k.0 && k.0 < old(world).num_nodes(),
                None => true,
            },
        ensures
            final(world).wf(),
            key.0 == match reserve_key {
                Some(k) => k.0 as int,
                None => old(world).num_nodes() as int,
            },
            final(world).num_nodes() == old(world).num_nodes() + (if reserve_key is Some {
                0int
            } else {
                1int
            }),
            final(world).parent_of(key.0 as int) == Some(ctx.parent as int),
    {
        let node = match reserve_key {
            Some(k) => {
                world.set_parent(k.0, ctx.parent);
                k.0
            },
            None => world.spawn_node(Some(ctx.parent)),
        };
        proof {
            assert(world.parent_of(node as int) == Some(ctx.parent as int));
        }
        self.members.build(world, node, will_rebuild);
        ElementViewKey(node, PhantomData)
    }

    /// Rebuild the element in place: re-attach the members to the node the
    /// key names.
    pub fn rebuild(self, world: &mut NodeTree<C>, key: ElementViewKey<VM>)
        requires
            old(world).wf(),
            key.0 < old(world).num_nodes(),
        ensures
            final(world).wf(),
            final(world).num_nodes() == old(world).num_nodes(),
    {
        self.members.rebuild(world, key.0);
    }
}

impl<VM> ElementViewKey<VM> {
    /// The node this key names.
    pub fn node_id(&self) -> (r: usize)
        ensures
            r == self.0,
    {
        self.0
    }

    /// The node a state lookup for this key goes through.
    pub fn state_node_id(&self) -> (r: Option<usize>)
        ensures
            r == Some(self.0),
    {
        Some(self.0)
    }

    /// The first tree node of the keyed view.
    pub fn first_node_id(&self) -> (r: Option<usize>)
        ensures
            r == Some(self.0),
    {
        Some(self.0)
    }

    /// Reserve a node now so a later build can claim a stable key:
    /// a placeholder root node is spawned.
    pub fn reserve_key<C>(world: &mut NodeTree<C>, will_rebuild: bool) -> (key: Self)
        requires
            old(world).wf(),
        ensures
            final(world).wf(),
            key.0 == old(world).num_nodes(),
            final(world).num_nodes() == old(world).num_nodes() + 1,
    {
        let node = world.spawn_node(None);
        ElementViewKey(node, PhantomData)
    }

    /// Remove the keyed view: detach the members, then mark the node
    /// removed.
    pub fn remove<C>(self, world: &mut NodeTree<C>)
        where
            VM: ViewMember<C>,

        requires
            old(world).wf(),
            self.0 < old(world).num_nodes(),
        ensures
            final(world).wf(),
            final(world).num_nodes() == old(world).num_nodes(),
            final(world).removed(self.0 as int),
    {
        VM::unbuild(world, self.0, true);
        world.mark_removed(self.0);
    }

    /// Hide or show the keyed view's node.
    pub fn set_visibility<C>(&self, world: &mut NodeTree<C>, hidden: bool)
        requires
            old(world).wf(),
            self.0 < old(world).num_nodes(),
        ensures
            final(world).wf(),
            final(world).num_nodes() == old(world).num_nodes(),
            final(world).hidden(self.0 as int) == hidden,
    {
        world.set_hidden(self.0, hidden);
    }
}

} // verus!
