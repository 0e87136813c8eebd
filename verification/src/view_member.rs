//! Attribute members: the value of one element attribute, carried as a
//! view member.

use crate::into_view_member::IntoViewMember;
use vstd::prelude::*;

verus! {

/// One attribute of an element kind: a name bound to a value type.
pub trait ElementAttr {
    /// The type of the attribute's values.
    type Value;
}

/// A view member setting one attribute to a fixed value.
pub struct ElementAttrViewMember<EA: ElementAttr>(pub EA::Value);

impl<EA: ElementAttr> ElementAttrViewMember<EA> {
    /// An attribute member carrying `value`.
    pub fn new(value: EA::Value) -> (r: Self)
        ensures
            r.0 == value,
    {
        ElementAttrViewMember(value)
    }

    /// Rebind the carried value to another attribute of the same value
    /// type.
    pub fn into_other_attr<OEA: ElementAttr<Value = EA::Value>>(self) -> (r: ElementAttrViewMember<
        OEA,
    >)
        ensures
            r.0 == self.0,
    {
        ElementAttrViewMember(self.0)
    }
}

impl<C, EA: ElementAttr> IntoViewMember<C, ElementAttrViewMember<EA>> for ElementAttrViewMember<EA> {
    /// An attribute member converts to itself.
    fn into_member(self) -> ElementAttrViewMember<EA> {
        self
    }
}

/// A plain value on its way to becoming an attribute member.
#[derive(Clone, PartialEq, Eq, Debug)]
pub struct AttrValueWrapper<T>(pub T);

} // verus!
