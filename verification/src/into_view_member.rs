//! Conversions into view members.

use core::marker::PhantomData;
use vstd::prelude::*;

verus! {

/// Conversion of a value into the view member `VM` for a tree of context
/// type `C`.
pub trait IntoViewMember<C, VM> {
    /// Perform the conversion.
    fn into_member(self) -> VM;
}

/// Conversion into a view member whose type the implementor chooses.
pub trait IntoViewMember2<C> {
    /// The member type produced.
    type Member;

    /// Perform the conversion.
    fn into_member(self) -> Self::Member;
}

/// An inner conversion step, remembering the marker `M` it came through.
pub struct InnerIvmToVm<T, M>(pub T, pub PhantomData<M>);

impl<T, M> InnerIvmToVm<T, M> {
    /// Wrap `t` for the inner conversion.
    pub fn new(t: T) -> (r: Self)
        ensures
            r.0 == t,
    {
        InnerIvmToVm(t, PhantomData)
    }
}

/// A member wrapped so that its conversion is the identity.
#[derive(Clone, PartialEq, Eq, Debug)]
pub struct IntoViewMemberWrapper<T>(pub T);

impl<C, VM> IntoViewMember<C, VM> for IntoViewMemberWrapper<VM> {
    /// Unwrap: the member is handed through unchanged.
    fn into_member(self) -> VM {
        self.0
    }
}

impl<C> IntoViewMember<C, ()> for () {
    /// The empty member converts to itself.
    fn into_member(self) -> () {
    }
}

} // verus!
