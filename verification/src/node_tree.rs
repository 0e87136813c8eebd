//! The node tree that the view layer builds into: nodes addressed by
//! stable indices, each with a parent reference, an optional context value,
//! and visibility/removal flags.
//!
//! Nodes are only ever spawned under already-existing parents, so a parent
//! index is always smaller than its child's — walks up the parent chain
//! terminate. A context value set on a node is visible to the whole
//! subtree below it; [`lookup_context`] is the ancestor-chain search that
//! the context accessors are specified against.
//!
//! [`lookup_context`]: NodeTree::lookup_context

use vstd::prelude::*;

verus! {

/// A context value, as provided to a subtree.
#[derive(Clone, Debug)]
pub struct Context<T>(pub T);

struct TreeNode<C> {
    parent: Option<usize>,
    context: Option<Context<C>>,
    hidden: bool,
    removed: bool,
}

/// The tree of spawned nodes.
pub struct NodeTree<C> {
    nodes: Vec<TreeNode<C>>,
}

impl<C> NodeTree<C> {
    /// How many nodes have been spawned.
    pub closed spec fn num_nodes(self) -> nat {
        self.nodes@.len()
    }

    /// The parent of node `i`, if it has one.
    pub closed spec fn parent_of(self, i: int) -> Option<int> {
        match self.nodes@[i].parent {
            Some(p) => Some(p as int),
            None => None,
        }
    }

    /// The context value stored directly on node `i`, if any.
    pub closed spec fn context_of(self, i: int) -> Option<C> {
        match self.nodes@[i].context {
            Some(Context(v)) => Some(v),
            None => None,
        }
    }

    /// Whether node `i` is hidden.
    pub closed spec fn hidden(self, i: int) -> bool {
        self.nodes@[i].hidden
    }

    /// Whether node `i` has been removed.
    pub closed spec fn removed(self, i: int) -> bool {
        self.nodes@[i].removed
    }

    /// Tree invariant: every parent was spawned before its child.
    pub open spec fn wf(self) -> bool {
        forall|i: int|
            0 <= i < self.num_nodes() ==> match #[trigger] self.parent_of(i) {
                Some(p) => 0 <= p < i,
                None => true,
            }
    }

    /// The node whose stored context answers a lookup starting at `i`: the
    /// nearest ancestor-or-self carrying a context value.
    pub open spec fn provider_of(self, i: int) -> Option<int>
        decreases i,
        when self.wf() && 0 <= i < self.num_nodes()
    {
        if self.context_of(i) is Some {
            Some(i)
        } else {
            match self.parent_of(i) {
                Some(p) => self.provider_of(p),
                None => None,
            }
        }
    }

    /// The context value visible at node `i`: the nearest one stored on the
    /// chain from `i` up to the root.
    pub open spec fn lookup_context(self, i: int) -> Option<C> {
        match self.provider_of(i) {
            Some(p) => self.context_of(p),
            None => None,
        }
    }

    /// An empty tree.
    pub fn new() -> (t: NodeTree<C>)
        ensures
            t.wf(),
            t.num_nodes() == 0,
    {
        NodeTree { nodes: Vec::new() }
    }

    /// How many nodes have been spawned.
    pub fn len(&self) -> (n: usize)
        ensures
            n == self.num_nodes(),
    {
        self.nodes.len()
    }

    /// Spawn a node under `parent` (or as a root): visible, carrying no
    /// context, never removed; its index is returned.
    pub fn spawn_node(&mut self, parent: Option<usize>) -> (id: usize)
        requires
            old(self).wf(),
            match parent {
                Some(p) => p < old(self).num_nodes(),
                None => true,
            },
        ensures
            final(self).wf(),
            id == old(self).num_nodes(),
            final(self).num_nodes() == old(self).num_nodes() + 1,
            final(self).parent_of(id as int) == match parent {
                Some(p) => Some(p as int),
                None => None::<int>,
            },
            final(self).context_of(id as int) is None,
            !final(self).hidden(id as int),
            !final(self).removed(id as int),
            forall|i: int|
                0 <= i < old(self).num_nodes() ==> final(self).parent_of(i) == old(self).parent_of(i) && final(self).context_of(i) == old(self).context_of(i) && final(self).hidden(i) == old(self).hidden(i) && final(self).removed(i) == old(self).removed(
                    i,
                ),
    {
        let id = self.nodes.len();
        self.nodes.push(TreeNode { parent, context: None, hidden: false, removed: false });
        proof {
            assert forall|i: int|
                0 <= i < final(self).num_nodes() implies match #[trigger] final(self).parent_of(i) {
                Some(p) => 0 <= p < i,
                None => true,
            } by {
                if i < old(self).num_nodes() {
                    assert(final(self).parent_of(i) == old(self).parent_of(i));
                }
            }
        }
        id
    }

    /// Attach `node` under `parent`. A node can only be attached under an
    /// earlier-spawned parent, which keeps ancestor walks finite.
    pub fn set_parent(&mut self, node: usize, parent: usize)
        requires
            old(self).wf(),
            node < old(self).num_nodes(),
            parent < node,
        ensures
            final(self).wf(),
            final(self).num_nodes() == old(self).num_nodes(),
            final(self).parent_of(node as int) == Some(parent as int),
            forall|i: int|
                0 <= i < old(self).num_nodes() && i != node as int ==> final(self).parent_of(i)
                    == old(self).parent_of(i),
            forall|i: int|
                0 <= i < old(self).num_nodes() ==> final(self).context_of(i) == old(self).context_of(i) && final(self).hidden(i) == old(self).hidden(i) && final(self).removed(i) == old(self).removed(i),
    {
        let n = &mut self.nodes[node];
        n.parent = Some(parent);
        proof {
            assert forall|i: int|
                0 <= i < final(self).num_nodes() implies match #[trigger] final(self).parent_of(
                i,
            ) {
                Some(p) => 0 <= p < i,
                None => true,
            } by {
                if i != node as int {
                    assert(final(self).parent_of(i) == old(self).parent_of(i));
                }
            }
        }
    }

    /// Store `value` as the context of `node`, replacing any previous one.
    pub fn set_context(&mut self, node: usize, value: Context<C>)
        requires
            node < old(self).num_nodes(),
        ensures
            final(self).num_nodes() == old(self).num_nodes(),
            final(self).context_of(node as int) == Some(value.0),
            forall|i: int|
                0 <= i < old(self).num_nodes() && i != node as int ==> final(self).context_of(i)
                    == old(self).context_of(i),
            forall|i: int|
                0 <= i < old(self).num_nodes() ==> final(self).parent_of(i) == old(self).parent_of(i) && final(self).hidden(i) == old(self).hidden(i) && final(self).removed(i) == old(self).removed(i),
            old(self).wf() ==> final(self).wf(),
    {
        let n = &mut self.nodes[node];
        n.context = Some(value);
            proof {
            if old(self).wf() {
                assert forall|i: int|
                    0 <= i < final(self).num_nodes() implies match #[trigger] final(self).parent_of(i) {
                    Some(p) => 0 <= p < i,
                    None => true,
                } by {
                    assert(final(self).parent_of(i) == old(self).parent_of(i));
                }
            }
        }
    }

    /// Take the context stored directly on `node`, leaving none there.
    pub fn take_context(&mut self, node: usize) -> (r: Option<Context<C>>)
        requires
            node < old(self).num_nodes(),
        ensures
            match r {
                Some(c) => old(self).context_of(node as int) == Some(c.0),
                None => old(self).context_of(node as int) is None,
            },
            final(self).num_nodes() == old(self).num_nodes(),
            final(self).context_of(node as int) is None,
            forall|i: int|
                0 <= i < old(self).num_nodes() && i != node as int ==> final(self).context_of(i)
                    == old(self).context_of(i),
            forall|i: int|
                0 <= i < old(self).num_nodes() ==> final(self).parent_of(i) == old(self).parent_of(i) && final(self).hidden(i) == old(self).hidden(i) && final(self).removed(i) == old(self).removed(i),
            old(self).wf() ==> final(self).wf(),
    {
        let n = &mut self.nodes[node];
        let mut taken: Option<Context<C>> = None;
        core::mem::swap(&mut n.context, &mut taken);
        proof {
            if old(self).wf() {
                assert forall|i: int|
                    0 <= i < final(self).num_nodes() implies match #[trigger] final(self).parent_of(i) {
                    Some(p) => 0 <= p < i,
                    None => true,
                } by {
                    assert(final(self).parent_of(i) == old(self).parent_of(i));
                }
            }
        }
        taken
    }

    /// The context stored directly on `node`, by reference.
    pub fn context_at<'a>(&'a self, node: usize) -> (r: Option<&'a C>)
        requires
            node < self.num_nodes(),
        ensures
            match r {
                Some(c) => self.context_of(node as int) == Some(*c),
                None => self.context_of(node as int) is None,
            },
    {
        match &self.nodes[node].context {
            Some(c) => Some(&c.0),
            None => None,
        }
    }

    /// The parent of `node`, if any.
    pub fn parent_at(&self, node: usize) -> (r: Option<usize>)
        requires
            node < self.num_nodes(),
        ensures
            match r {
                Some(p) => self.parent_of(node as int) == Some(p as int),
                None => self.parent_of(node as int) is None,
            },
    {
        self.nodes[node].parent
    }

    /// Whether `node` is hidden.
    pub fn is_hidden(&self, node: usize) -> (r: bool)
        requires
            node < self.num_nodes(),
        ensures
            r == self.hidden(node as int),
    {
        self.nodes[node].hidden
    }

    /// Whether `node` has been removed.
    pub fn is_removed(&self, node: usize) -> (r: bool)
        requires
            node < self.num_nodes(),
        ensures
            r == self.removed(node as int),
    {
        self.nodes[node].removed
    }

    /// Hide or show `node`.
    pub fn set_hidden(&mut self, node: usize, hidden: bool)
        requires
            node < old(self).num_nodes(),
        ensures
            final(self).num_nodes() == old(self).num_nodes(),
            final(self).hidden(node as int) == hidden,
            forall|i: int|
                0 <= i < old(self).num_nodes() && i != node as int ==> final(self).hidden(i)
                    == old(self).hidden(i),
            forall|i: int|
                0 <= i < old(self).num_nodes() ==> final(self).parent_of(i) == old(self).parent_of(i) && final(self).context_of(i) == old(self).context_of(i) && final(self).removed(i) == old(self).removed(i),
            old(self).wf() ==> final(self).wf(),
    {
        let n = &mut self.nodes[node];
        n.hidden = hidden;
            proof {
            if old(self).wf() {
                assert forall|i: int|
                    0 <= i < final(self).num_nodes() implies match #[trigger] final(self).parent_of(i) {
                    Some(p) => 0 <= p < i,
                    None => true,
                } by {
                    assert(final(self).parent_of(i) == old(self).parent_of(i));
                }
            }
        }
    }

    /// Mark `node` removed. The slot stays, so other indices are unmoved.
    pub fn mark_removed(&mut self, node: usize)
        requires
            node < old(self).num_nodes(),
        ensures
            final(self).num_nodes() == old(self).num_nodes(),
            final(self).removed(node as int),
            forall|i: int|
                0 <= i < old(self).num_nodes() && i != node as int ==> final(self).removed(i)
                    == old(self).removed(i),
            forall|i: int|
                0 <= i < old(self).num_nodes() ==> final(self).parent_of(i) == old(self).parent_of(i) && final(self).context_of(i) == old(self).context_of(i) && final(self).hidden(i) == old(self).hidden(i),
            old(self).wf() ==> final(self).wf(),
    {
        let n = &mut self.nodes[node];
        n.removed = true;
            proof {
            if old(self).wf() {
                assert forall|i: int|
                    0 <= i < final(self).num_nodes() implies match #[trigger] final(self).parent_of(i) {
                    Some(p) => 0 <= p < i,
                    None => true,
                } by {
                    assert(final(self).parent_of(i) == old(self).parent_of(i));
                }
            }
        }
    }
}

} // verus!
