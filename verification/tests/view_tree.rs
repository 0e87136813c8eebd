use xy_reactive::context::{provide_context, ViewCtx};
use xy_reactive::element::{Element, ElementViewKey, ViewMember};
use xy_reactive::into_view_member::{InnerIvmToVm, IntoViewMember, IntoViewMemberWrapper};
use xy_reactive::node_tree::{Context, NodeTree};
use xy_reactive::view_member::{AttrValueWrapper, ElementAttr, ElementAttrViewMember};

struct Div;

struct WidthAttr;

impl ElementAttr for WidthAttr {
    type Value = u32;
}

struct HeightAttr;

impl ElementAttr for HeightAttr {
    type Value = u32;
}

#[test]
fn context_is_visible_to_descendants() {
    let mut world: NodeTree<i64> = NodeTree::new();
    let root = world.spawn_node(None);
    let mid = world.spawn_node(Some(root));
    let leaf = world.spawn_node(Some(mid));
    world.set_context(root, Context(41));

    let ctx = ViewCtx { parent: leaf };
    assert_eq!(ctx.get_context(&world), Some(41));
    assert_eq!(ctx.context_ref(&world), &41);
    assert_eq!(ctx.context::<i64>(&world), 41);
}

#[test]
fn nearest_provider_wins() {
    let mut world: NodeTree<i64> = NodeTree::new();
    let root = world.spawn_node(None);
    let mid = world.spawn_node(Some(root));
    let leaf = world.spawn_node(Some(mid));
    world.set_context(root, Context(1));
    world.set_context(mid, Context(2));

    assert_eq!(ViewCtx { parent: leaf }.get_context(&world), Some(2));
    assert_eq!(ViewCtx { parent: root }.get_context(&world), Some(1));
}

#[test]
fn missing_context_is_none() {
    let mut world: NodeTree<i64> = NodeTree::new();
    let root = world.spawn_node(None);
    let leaf = world.spawn_node(Some(root));
    assert_eq!(ViewCtx { parent: leaf }.get_context(&world), None);
    assert_eq!(ViewCtx { parent: leaf }.get_context_ref(&world), None);
}

#[test]
fn context_scoped_updates_the_provider() {
    let mut world: NodeTree<i64> = NodeTree::new();
    let root = world.spawn_node(None);
    let leaf = world.spawn_node(Some(root));
    world.set_context(root, Context(10));

    let ctx = ViewCtx { parent: leaf };
    let found = ctx.context_scoped(&mut world, |v: i64| v + 5);
    assert!(found);
    assert_eq!(ctx.get_context(&world), Some(15));
    // the value was updated where it was provided, not where it was seen
    assert_eq!(ViewCtx { parent: root }.get_context(&world), Some(15));
}

#[test]
fn context_scoped_without_provider_reports_false() {
    let mut world: NodeTree<i64> = NodeTree::new();
    let root = world.spawn_node(None);
    let ctx = ViewCtx { parent: root };
    let found = ctx.context_scoped(&mut world, |v: i64| v + 5);
    assert!(!found);
    assert_eq!(ctx.get_context(&world), None);
}

#[test]
fn provide_context_stores_at_the_node() {
    let mut world: NodeTree<i64> = NodeTree::new();
    let root = world.spawn_node(None);
    let node = world.spawn_node(Some(root));
    let pc = provide_context(99i64, "inner view");
    let inner = pc.build(&mut world, node);
    assert_eq!(inner, "inner view");
    assert_eq!(ViewCtx { parent: node }.get_context(&world), Some(99));
}

#[test]
fn element_build_spawns_a_child_node() {
    let mut world: NodeTree<i64> = NodeTree::new();
    let root = world.spawn_node(None);
    let before = world.len();
    let element: Element<i64, Div, ()> = Element::new(());
    let key = element.build(&mut world, ViewCtx { parent: root }, None, false);
    assert_eq!(world.len(), before + 1);
    assert_eq!(key.node_id(), before);
    assert_eq!(key.state_node_id(), Some(before));
    assert_eq!(key.first_node_id(), Some(before));
}

#[test]
fn element_build_claims_a_reserved_key() {
    let mut world: NodeTree<i64> = NodeTree::new();
    let root = world.spawn_node(None);
    let reserved: ElementViewKey<()> = ElementViewKey::reserve_key(&mut world, true);
    let reserved_id = reserved.node_id();
    let element: Element<i64, Div, ()> = Element::new(());
    let key = element.build(&mut world, ViewCtx { parent: root }, Some(reserved), true);
    assert_eq!(key.node_id(), reserved_id);
}

#[test]
fn element_members_nest_as_tuples() {
    let width = ElementAttrViewMember::<WidthAttr>::new(640);
    let height = ElementAttrViewMember::<HeightAttr>::new(480);
    assert_eq!(width.0, 640);
    assert_eq!(height.0, 480);

    let element: Element<i64, Div, ()> = Element::new(());
    let with_one = element.member(());
    let with_two = with_one.member(());
    let _collapsed: Element<i64, Div, ((),)> = with_two.members(());
}

#[test]
fn key_visibility_and_removal_mark_the_node() {
    let mut world: NodeTree<i64> = NodeTree::new();
    let root = world.spawn_node(None);
    let element: Element<i64, Div, ()> = Element::new(());
    let key = element.build(&mut world, ViewCtx { parent: root }, None, false);
    let id = key.node_id();
    key.set_visibility(&mut world, true);
    assert!(world.is_hidden(id));
    key.set_visibility(&mut world, false);
    assert!(!world.is_hidden(id));
    key.remove(&mut world);
    assert!(world.is_removed(id));
    assert!(!world.is_removed(root));
}

#[test]
fn element_rebuild_keeps_the_tree_size() {
    let mut world: NodeTree<i64> = NodeTree::new();
    let root = world.spawn_node(None);
    let element: Element<i64, Div, ()> = Element::new(());
    let key = element.build(&mut world, ViewCtx { parent: root }, None, true);
    let before = world.len();
    let element2: Element<i64, Div, ()> = Element::new(());
    element2.rebuild(&mut world, key);
    assert_eq!(world.len(), before);
}

#[test]
fn attribute_member_rebinds_across_attrs() {
    let width = ElementAttrViewMember::<WidthAttr>::new(640);
    let as_height: ElementAttrViewMember<HeightAttr> = width.into_other_attr();
    assert_eq!(as_height.0, 640);
}

#[test]
fn member_count_adds_up() {
    assert_eq!(<() as ViewMember<i64>>::count(), 0);
    assert_eq!(<((), ()) as ViewMember<i64>>::count(), 0);
}

#[test]
fn into_view_member_wrapper_is_identity() {
    let wrapper = IntoViewMemberWrapper(12u8);
    let out: u8 = IntoViewMember::<i64, u8>::into_member(wrapper);
    assert_eq!(out, 12);
}

#[test]
fn inner_ivm_keeps_its_value() {
    let inner: InnerIvmToVm<u8, Div> = InnerIvmToVm::new(3);
    assert_eq!(inner.0, 3);
    let wrapped = AttrValueWrapper(7u32);
    assert_eq!(wrapped.0, 7);
}

#[test]
fn children_carry_element_and_views() {
    let element: Element<i64, Div, ()> = Element::new(());
    let combined = element.children("the children");
    assert_eq!(combined.children, "the children");
}
