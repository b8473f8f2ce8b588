//! A tree that continues nothing is numbered in document order, each node
//! with an identifier of its own.

use vstd::prelude::*;
use crate::components::component::{
    initial_state_of,
    rendered_by,
    tag_of,
    Component,
    ContentModel,
    SpecificationModel,
    ViewModel,
};
use crate::elements::element::{kind_name, ElementModel};
use crate::reactive::laws::freshness::starts_afresh;
use crate::reactive::reconcile::{
    component_identity,
    element_identity,
    reconcile,
    reconcile_children,
    reconcile_node,
    reconcile_rendered,
    record,
    Identity,
    MountedChildren,
    PassState,
};
use crate::reactive::tree::ShadowModel;

verus! {

/// The identifiers of the tree under `node` in document order: the node's
/// own, then those of the trees under its children.
pub open spec fn ids_in_order<U>(node: ShadowModel<U>) -> Seq<u64>
    decreases node, 0nat,
{
    seq![node.id] + ids_of_children(node.children, 0)
}

/// The identifiers of the trees under the children from position `from` on,
/// in document order.
pub open spec fn ids_of_children<U>(children: Seq<ShadowModel<U>>, from: int) -> Seq<u64>
    decreases children, children.len() - from,
{
    if from < 0 || from >= children.len() {
        Seq::empty()
    } else {
        ids_in_order(children[from]) + ids_of_children(children, from + 1)
    }
}

/// The identifiers from `from` up to, not including, `upto`.
pub open spec fn consecutive(from: u64, upto: u64) -> Seq<u64> {
    Seq::new((upto - from) as nat, |i: int| (from + i) as u64)
}

proof fn lemma_ids_of_children_push<U>(children: Seq<ShadowModel<U>>, last: ShadowModel<U>, from: int)
    requires
        0 <= from <= children.len(),
    ensures
        ids_of_children(children.push(last), from) == ids_of_children(children, from) + ids_in_order(
            last,
        ),
    decreases children.len() - from,
{
    let longer = children.push(last);
    if from < children.len() {
        lemma_ids_of_children_push(children, last, from + 1);
    } else {
        assert(ids_of_children(longer, from + 1) =~= Seq::<u64>::empty());
    }
}

proof fn lemma_numbered_children<C: Component>(
    children: Seq<SpecificationModel<C>>,
    from: int,
    parent_id: u64,
    mounted: MountedChildren<C::Update>,
    depth: nat,
    first: u64,
)
    requires
        0 <= from,
        first <= mounted.state.next_id,
        ids_of_children(mounted.nodes, 0) == consecutive(first, mounted.state.next_id),
        reconcile_children(children, from, None, parent_id, mounted, depth) is Ok,
    ensures
        ({
            let after = reconcile_children(children, from, None, parent_id, mounted, depth)->Ok_0;
            &&& mounted.state.next_id <= after.state.next_id
            &&& ids_of_children(after.nodes, 0) == consecutive(first, after.state.next_id)
        }),
    decreases depth, children, children.len() - from,
{
    if from < children.len() {
        let child = children[from];
        let m = reconcile_node(child, from, None, parent_id, mounted.state, depth)->Ok_0;
        lemma_numbered_node(child, from, None, parent_id, mounted.state, depth);
        let next = MountedChildren {
            nodes: mounted.nodes.push(m.node),
            keys: record(mounted.keys, child, m.node.id),
            elements: mounted.elements.push(m.element),
            state: m.state,
        };
        lemma_ids_of_children_push(mounted.nodes, m.node, 0);
        assert(consecutive(first, mounted.state.next_id) + consecutive(
            mounted.state.next_id,
            m.state.next_id,
        ) =~= consecutive(first, m.state.next_id));
        lemma_numbered_children(children, from + 1, parent_id, next, depth, first);
    }
}

proof fn lemma_numbered_rendered<C: Component>(
    rendered: ViewModel<C, C::Update>,
    key: Option<Seq<char>>,
    tag: Seq<char>,
    identity: Identity<C::Update>,
    parent_id: u64,
    depth: nat,
)
    requires
        identity.previous is None,
        identity.id + 1 == identity.state.next_id,
        reconcile_rendered(rendered, key, tag, identity, parent_id, depth) is Ok,
    ensures
        ({
            let m = reconcile_rendered(rendered, key, tag, identity, parent_id, depth)->Ok_0;
            &&& identity.state.next_id <= m.state.next_id
            &&& ids_in_order(m.node) == consecutive(identity.id, m.state.next_id)
        }),
    decreases depth, rendered.specification, 1nat,
{
    let stored = PassState {
        store: identity.state.store.insert(identity.id, rendered.state),
        ..identity.state
    };
    let m = reconcile_rendered(rendered, key, tag, identity, parent_id, depth)->Ok_0;
    lemma_numbered_node(rendered.specification, 0, None, identity.id, stored, depth);
    assert(ids_of_children(m.node.children, 1) =~= Seq::<u64>::empty());
}

/// A tree that continues nothing is numbered: its nodes get, in document
/// order, the identifiers from the next one on, each node its own.
pub proof fn lemma_numbered_node<C: Component>(
    specification: SpecificationModel<C>,
    index: int,
    old_parent: Option<ShadowModel<C::Update>>,
    parent_id: u64,
    state: PassState,
    depth: nat,
)
    requires
        starts_afresh(specification, index, old_parent),
        reconcile_node(specification, index, old_parent, parent_id, state, depth) is Ok,
    ensures
        ({
            let m = reconcile_node(specification, index, old_parent, parent_id, state, depth)->Ok_0;
            &&& state.next_id < m.state.next_id
            &&& ids_in_order(m.node) == consecutive(state.next_id, m.state.next_id)
        }),
    decreases depth, specification, 0nat,
{
    match specification.content {
        ContentModel::Element(prototype) => {
            let identity = element_identity::<C::Update>(
                kind_name(prototype.kind),
                specification.key,
                index,
                old_parent,
                state,
            )->Ok_0;
            let start = MountedChildren::<C::Update> {
                nodes: Seq::empty(),
                keys: Seq::empty(),
                elements: prototype.children,
                state: identity.state,
            };
            assert(ids_of_children(start.nodes, 0) =~= consecutive(
                identity.state.next_id,
                identity.state.next_id,
            ));
            lemma_numbered_children(
                specification.children,
                0,
                identity.id,
                start,
                depth,
                identity.state.next_id,
            );
        },
        ContentModel::Component(component) => {
            let identity = component_identity::<C::Update>(
                tag_of(component),
                initial_state_of(component),
                specification.key,
                index,
                old_parent,
                state,
            )->Ok_0;
            lemma_numbered_rendered(
                rendered_by(
                    component,
                    identity.state.store[identity.id],
                    specification.props,
                    specification.children,
                    identity.id,
                ),
                specification.key,
                tag_of(component),
                identity,
                parent_id,
                (depth - 1) as nat,
            );
        },
    }
}

/// Every node of a first render has an identifier of its own: without a
/// previous tree the nodes under the root get, in document order, the
/// identifiers from the next one on.
pub proof fn lemma_first_render_numbers_nodes<C: Component>(
    specification: SpecificationModel<C>,
    root: ElementModel,
    state: PassState,
    depth: nat,
)
    requires
        reconcile(specification, root, None, state, depth) is Ok,
    ensures
        ({
            let m = reconcile(specification, root, None, state, depth)->Ok_0;
            let ids = ids_in_order(m.node.children[0]);
            &&& state.next_id < m.state.next_id
            &&& ids == consecutive(state.next_id, m.state.next_id)
            &&& forall|i: int, j: int| 0 <= i < j < ids.len() ==> ids[i] != ids[j]
        }),
{
    let root_specification = SpecificationModel {
        content: ContentModel::Element(root),
        key: None,
        props: None,
        children: seq![specification],
    };
    lemma_numbered_node(root_specification, 0, None, 0, state, depth);
}

} // verus!
