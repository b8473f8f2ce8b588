//! A node that continues nothing is new, and so is everything under it.

use vstd::prelude::*;
use crate::reactive::ahead::ids_below;
use crate::reactive::laws::state::holds_id;
use crate::components::component::{
    initial_state_of,
    rendered_by,
    tag_of,
    Component,
    ContentModel,
    SpecificationModel,
    ViewModel,
};
use crate::elements::element::kind_name;
use crate::reactive::reconcile::{
    component_identity,
    element_identity,
    key_recorded,
    paired,
    reconcile_children,
    reconcile_node,
    reconcile_rendered,
    record,
    same_type,
    Identity,
    MountedChildren,
    PassState,
};
use crate::reactive::tree::ShadowModel;

verus! {

/// Whether every identifier in the tree under `node` is at least `floor`.
pub open spec fn all_ids_from<U>(node: ShadowModel<U>, floor: u64) -> bool
    decreases node,
{
    &&& node.id >= floor
    &&& forall|i: int|
        0 <= i < node.children.len() ==> all_ids_from(#[trigger] node.children[i], floor)
}

/// Whether a specification at position `index` continues no node of the
/// previous render: the node it is held against, if there is one, is not of
/// its type, and, for a component, its key is not recorded.
pub open spec fn starts_afresh<C: Component>(
    specification: SpecificationModel<C>,
    index: int,
    old_parent: Option<ShadowModel<C::Update>>,
) -> bool {
    let held = paired(old_parent, specification.key, index);
    match specification.content {
        ContentModel::Element(prototype) => !(held is Some && same_type(
            held->0,
            true,
            kind_name(prototype.kind),
        )),
        ContentModel::Component(component) => !key_recorded(old_parent, specification.key) && !(held
            is Some && same_type(held->0, false, tag_of(component))),
    }
}

/// Under a node that continues nothing, every node is mounted afresh.
proof fn lemma_fresh_children<C: Component>(
    children: Seq<SpecificationModel<C>>,
    from: int,
    parent_id: u64,
    mounted: MountedChildren<C::Update>,
    depth: nat,
    floor: u64,
)
    requires
        floor <= mounted.state.next_id,
        forall|i: int| 0 <= i < mounted.nodes.len() ==> all_ids_from(#[trigger] mounted.nodes[i], floor),
        reconcile_children(children, from, None, parent_id, mounted, depth) is Ok,
    ensures
        ({
            let after = reconcile_children(children, from, None, parent_id, mounted, depth)->Ok_0;
            &&& after.state.next_id >= mounted.state.next_id
            &&& forall|i: int| 0 <= i < after.nodes.len() ==> all_ids_from(#[trigger] after.nodes[i], floor)
        }),
    decreases depth, children, children.len() - from,
{
    if 0 <= from < children.len() {
        let child = children[from];
        let m = reconcile_node(child, from, None, parent_id, mounted.state, depth)->Ok_0;
        lemma_fresh_node(child, from, None, parent_id, mounted.state, depth, floor);
        let next = MountedChildren {
            nodes: mounted.nodes.push(m.node),
            keys: record(mounted.keys, child, m.node.id),
            elements: mounted.elements.push(m.element),
            state: m.state,
        };
        lemma_fresh_children(children, from + 1, parent_id, next, depth, floor);
    }
}

proof fn lemma_fresh_rendered<C: Component>(
    rendered: ViewModel<C, C::Update>,
    key: Option<Seq<char>>,
    tag: Seq<char>,
    identity: Identity<C::Update>,
    parent_id: u64,
    depth: nat,
    floor: u64,
)
    requires
        identity.previous is None,
        floor <= identity.id < identity.state.next_id,
        reconcile_rendered(rendered, key, tag, identity, parent_id, depth) is Ok,
    ensures
        ({
            let m = reconcile_rendered(rendered, key, tag, identity, parent_id, depth)->Ok_0;
            &&& m.state.next_id >= identity.state.next_id
            &&& all_ids_from(m.node, floor)
        }),
    decreases depth, rendered.specification, 1nat,
{
    let stored = PassState {
        store: identity.state.store.insert(identity.id, rendered.state),
        ..identity.state
    };
    lemma_fresh_node(rendered.specification, 0, None, identity.id, stored, depth, floor);
}

/// A node that continues nothing gets the next identifier, and every node
/// under it an identifier that was never handed out before.
pub proof fn lemma_fresh_node<C: Component>(
    specification: SpecificationModel<C>,
    index: int,
    old_parent: Option<ShadowModel<C::Update>>,
    parent_id: u64,
    state: PassState,
    depth: nat,
    floor: u64,
)
    requires
        floor <= state.next_id,
        starts_afresh(specification, index, old_parent),
        reconcile_node(specification, index, old_parent, parent_id, state, depth) is Ok,
    ensures
        ({
            let m = reconcile_node(specification, index, old_parent, parent_id, state, depth)->Ok_0;
            &&& m.node.id == state.next_id
            &&& m.state.next_id > state.next_id
            &&& all_ids_from(m.node, floor)
        }),
    decreases depth, specification, 0nat,
{
    match specification.content {
        ContentModel::Element(prototype) => {
            let identity = element_identity::<C::Update>(
                kind_name(prototype.kind),
                specification.key,
                index,
                old_parent,
                state,
            )->Ok_0;
            let start = MountedChildren::<C::Update> {
                nodes: Seq::empty(),
                keys: Seq::empty(),
                elements: prototype.children,
                state: identity.state,
            };
            lemma_fresh_children(specification.children, 0, identity.id, start, depth, floor);
        },
        ContentModel::Component(component) => {
            let identity = component_identity::<C::Update>(
                tag_of(component),
                initial_state_of(component),
                specification.key,
                index,
                old_parent,
                state,
            )->Ok_0;
            lemma_fresh_rendered(
                rendered_by(
                    component,
                    identity.state.store[identity.id],
                    specification.props,
                    specification.children,
                    identity.id,
                ),
                specification.key,
                tag_of(component),
                identity,
                parent_id,
                (depth - 1) as nat,
                floor,
            );
        },
    }
}

/// An identifier of a tree whose identifiers are all at least `floor` is at
/// least `floor`.
proof fn lemma_held_from<U>(node: ShadowModel<U>, floor: u64, id: u64)
    requires
        all_ids_from(node, floor),
        holds_id(node, id),
    ensures
        id >= floor,
    decreases node,
{
    if node.id != id {
        let i = choose|i: int| 0 <= i < node.children.len() && holds_id(#[trigger] node.children[i], id);
        lemma_held_from(node.children[i], floor, id);
    }
}

/// An identifier of a tree that the allocator is ahead of is below the
/// allocator's next one.
proof fn lemma_held_below<U>(node: ShadowModel<U>, bound: u64, id: u64)
    requires
        ids_below(node, bound),
        holds_id(node, id),
    ensures
        id < bound,
    decreases node,
{
    if node.id != id {
        let i = choose|i: int| 0 <= i < node.children.len() && holds_id(#[trigger] node.children[i], id);
        lemma_held_below(node.children[i], bound, id);
    }
}

/// A type change forces a remount: where the allocator is ahead of the
/// previous tree, a node that continues nothing, and every node under it,
/// gets an identifier that no node of the previous tree has.
pub proof fn lemma_fresh_identifiers_are_new<C: Component>(
    specification: SpecificationModel<C>,
    index: int,
    old_parent: ShadowModel<C::Update>,
    parent_id: u64,
    state: PassState,
    depth: nat,
    id: u64,
)
    requires
        ids_below(old_parent, state.next_id),
        starts_afresh(specification, index, Some(old_parent)),
        reconcile_node(specification, index, Some(old_parent), parent_id, state, depth) is Ok,
        holds_id(
            reconcile_node(specification, index, Some(old_parent), parent_id, state, depth)->Ok_0.node,
            id,
        ),
    ensures
        !holds_id(old_parent, id),
{
    let m = reconcile_node(specification, index, Some(old_parent), parent_id, state, depth)->Ok_0;
    lemma_fresh_node(specification, index, Some(old_parent), parent_id, state, depth, state.next_id);
    lemma_held_from(m.node, state.next_id, id);
    if holds_id(old_parent, id) {
        lemma_held_below(old_parent, state.next_id, id);
    }
}

} // verus!
