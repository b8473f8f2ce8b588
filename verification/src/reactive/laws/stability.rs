//! Identity is stable under no change: a pass that yields the shape of
//! the previous tree yields its identifiers.

use vstd::prelude::*;
use crate::components::component::{
    initial_state_of,
    rendered_by,
    tag_of,
    Component,
    ContentModel,
    SpecificationModel,
    ViewModel,
};
use crate::elements::element::{kind_name, ElementModel};
use crate::reactive::laws::well_formed::{lemma_pass_well_formed, well_formed};
use crate::reactive::reconcile::{
    component_identity,
    element_identity,
    reconcile,
    reconcile_children,
    reconcile_node,
    reconcile_rendered,
    record,
    Identity,
    MountedChildren,
    PassState,
};
use crate::reactive::tree::ShadowModel;

verus! {

/// Whether two shadow trees have the same shape: node for node the same
/// kind, type tag and key, and as many children.
pub open spec fn same_shape<U>(new: ShadowModel<U>, old_node: ShadowModel<U>) -> bool
    decreases new,
{
    &&& new.is_element == old_node.is_element
    &&& new.tag == old_node.tag
    &&& new.key == old_node.key
    &&& new.children.len() == old_node.children.len()
    &&& forall|i: int|
        0 <= i < new.children.len() ==> same_shape(#[trigger] new.children[i], old_node.children[i])
}

/// Whether two shadow trees give the same identifier to every node, in the
/// same structural positions.
pub open spec fn same_identifiers<U>(new: ShadowModel<U>, old_node: ShadowModel<U>) -> bool
    decreases new,
{
    &&& new.id == old_node.id
    &&& new.children.len() == old_node.children.len()
    &&& forall|i: int|
        0 <= i < new.children.len() ==> same_identifiers(
            #[trigger] new.children[i],
            old_node.children[i],
        )
}

/// Mounting children keeps those mounted before and adds one node for each
/// child left.
pub proof fn lemma_children_extend<C: Component>(
    children: Seq<SpecificationModel<C>>,
    from: int,
    old_parent: Option<ShadowModel<C::Update>>,
    parent_id: u64,
    mounted: MountedChildren<C::Update>,
    depth: nat,
)
    requires
        0 <= from <= children.len(),
        reconcile_children(children, from, old_parent, parent_id, mounted, depth) is Ok,
    ensures
        ({
            let after = reconcile_children(children, from, old_parent, parent_id, mounted, depth)->Ok_0;
            &&& after.nodes.len() == mounted.nodes.len() + children.len() - from
            &&& forall|i: int| 0 <= i < mounted.nodes.len() ==> after.nodes[i] == mounted.nodes[i]
        }),
    decreases children.len() - from,
{
    if from < children.len() {
        let child = children[from];
        let m = reconcile_node(child, from, old_parent, parent_id, mounted.state, depth)->Ok_0;
        let next = MountedChildren {
            nodes: mounted.nodes.push(m.node),
            keys: record(mounted.keys, child, m.node.id),
            elements: mounted.elements.push(m.element),
            state: m.state,
        };
        lemma_children_extend(children, from + 1, old_parent, parent_id, next, depth);
    }
}

proof fn lemma_stable_children<C: Component>(
    children: Seq<SpecificationModel<C>>,
    from: int,
    previous: ShadowModel<C::Update>,
    parent_id: u64,
    mounted: MountedChildren<C::Update>,
    depth: nat,
)
    requires
        0 <= from <= children.len(),
        mounted.nodes.len() == from,
        well_formed(previous),
        reconcile_children(children, from, Some(previous), parent_id, mounted, depth) is Ok,
        ({
            let after = reconcile_children(children, from, Some(previous), parent_id, mounted, depth)->Ok_0;
            &&& after.nodes.len() == previous.children.len()
            &&& forall|i: int|
                from <= i < after.nodes.len() ==> same_shape(#[trigger] after.nodes[i], previous.children[i])
        }),
    ensures
        ({
            let after = reconcile_children(children, from, Some(previous), parent_id, mounted, depth)->Ok_0;
            &&& after.state.next_id == mounted.state.next_id
            &&& forall|i: int|
                from <= i < after.nodes.len() ==> same_identifiers(
                    #[trigger] after.nodes[i],
                    previous.children[i],
                )
        }),
    decreases depth, children, children.len() - from,
{
    let after = reconcile_children(children, from, Some(previous), parent_id, mounted, depth)->Ok_0;
    lemma_children_extend(children, from, Some(previous), parent_id, mounted, depth);
    if from < children.len() {
        let child = children[from];
        let m = reconcile_node(child, from, Some(previous), parent_id, mounted.state, depth)->Ok_0;
        let next = MountedChildren {
            nodes: mounted.nodes.push(m.node),
            keys: record(mounted.keys, child, m.node.id),
            elements: mounted.elements.push(m.element),
            state: m.state,
        };
        lemma_children_extend(children, from + 1, Some(previous), parent_id, next, depth);
        assert(after.nodes[from] == next.nodes[from]);
        lemma_stable_node(child, from, previous, parent_id, mounted.state, depth);
        lemma_stable_children(children, from + 1, previous, parent_id, next, depth);
    }
}

proof fn lemma_stable_rendered<C: Component>(
    rendered: ViewModel<C, C::Update>,
    key: Option<Seq<char>>,
    tag: Seq<char>,
    identity: Identity<C::Update>,
    parent_id: u64,
    depth: nat,
)
    requires
        identity.previous is Some,
        identity.id == identity.previous->0.id,
        well_formed(identity.previous->0),
        reconcile_rendered(rendered, key, tag, identity, parent_id, depth) is Ok,
        same_shape(
            reconcile_rendered(rendered, key, tag, identity, parent_id, depth)->Ok_0.node,
            identity.previous->0,
        ),
    ensures
        ({
            let m = reconcile_rendered(rendered, key, tag, identity, parent_id, depth)->Ok_0;
            &&& m.state.next_id == identity.state.next_id
            &&& same_identifiers(m.node, identity.previous->0)
        }),
    decreases depth, rendered.specification, 1nat,
{
    let stored = PassState {
        store: identity.state.store.insert(identity.id, rendered.state),
        ..identity.state
    };
    let m = reconcile_rendered(rendered, key, tag, identity, parent_id, depth)->Ok_0;
    let inner = reconcile_node(
        rendered.specification,
        0,
        identity.previous,
        identity.id,
        stored,
        depth,
    )->Ok_0;
    assert(m.node.children[0] == inner.node);
    lemma_stable_node(rendered.specification, 0, identity.previous->0, identity.id, stored, depth);
}

/// Identity is stable where nothing changed: a node mounted at the position
/// of a previous node, over a well-formed previous tree, whose tree has the
/// shape of that node's tree, gives every node the identifier it had, and
/// hands out no new one.
pub proof fn lemma_stable_node<C: Component>(
    specification: SpecificationModel<C>,
    index: int,
    old_parent: ShadowModel<C::Update>,
    parent_id: u64,
    state: PassState,
    depth: nat,
)
    requires
        0 <= index < old_parent.children.len(),
        well_formed(old_parent),
        reconcile_node(specification, index, Some(old_parent), parent_id, state, depth) is Ok,
        same_shape(
            reconcile_node(specification, index, Some(old_parent), parent_id, state, depth)->Ok_0.node,
            old_parent.children[index],
        ),
    ensures
        ({
            let m = reconcile_node(specification, index, Some(old_parent), parent_id, state, depth)->Ok_0;
            &&& m.state.next_id == state.next_id
            &&& same_identifiers(m.node, old_parent.children[index])
        }),
    decreases depth, specification, 0nat,
{
    let before = old_parent.children[index];
    match specification.content {
        ContentModel::Element(prototype) => {
            let identity = element_identity::<C::Update>(
                kind_name(prototype.kind),
                specification.key,
                index,
                Some(old_parent),
                state,
            )->Ok_0;
            let start = MountedChildren::<C::Update> {
                nodes: Seq::empty(),
                keys: Seq::empty(),
                elements: prototype.children,
                state: identity.state,
            };
            lemma_stable_children(specification.children, 0, before, identity.id, start, depth);
        },
        ContentModel::Component(component) => {
            let identity = component_identity::<C::Update>(
                tag_of(component),
                initial_state_of(component),
                specification.key,
                index,
                Some(old_parent),
                state,
            )->Ok_0;
            lemma_stable_rendered(
                rendered_by(
                    component,
                    identity.state.store[identity.id],
                    specification.props,
                    specification.children,
                    identity.id,
                ),
                specification.key,
                tag_of(component),
                identity,
                parent_id,
                (depth - 1) as nat,
            );
        },
    }
}

/// Identity is stable under no change: a pass over the shadow tree of the
/// previous render that yields a tree of the same shape gives every node the
/// identifier it had before, and hands out no new one.
pub proof fn lemma_identity_stable_under_no_change<C: Component>(
    specification: SpecificationModel<C>,
    root: ElementModel,
    old_tree: ShadowModel<C::Update>,
    state: PassState,
    depth: nat,
)
    requires
        well_formed(old_tree),
        reconcile(specification, root, Some(old_tree), state, depth) is Ok,
        same_shape(
            reconcile(specification, root, Some(old_tree), state, depth)->Ok_0.node.children[0],
            old_tree.children[0],
        ),
    ensures
        ({
            let m = reconcile(specification, root, Some(old_tree), state, depth)->Ok_0;
            &&& m.state.next_id == state.next_id
            &&& same_identifiers(m.node.children[0], old_tree.children[0])
        }),
{
    let root_specification = SpecificationModel {
        content: ContentModel::Element(root),
        key: None,
        props: None,
        children: seq![specification],
    };
    lemma_stable_node(root_specification, 0, old_tree, 0, state, depth);
}

/// Reconciling twice in a row: where the second pass, run over what the
/// first left, yields a tree of the shape the first yielded, every node has
/// in the second tree the identifier it has in the first.
pub proof fn lemma_second_pass_keeps_identifiers<C: Component>(
    first_specification: SpecificationModel<C>,
    second_specification: SpecificationModel<C>,
    root: ElementModel,
    old_tree: Option<ShadowModel<C::Update>>,
    state: PassState,
    depth: nat,
)
    requires
        reconcile(first_specification, root, old_tree, state, depth) is Ok,
        ({
            let first = reconcile(first_specification, root, old_tree, state, depth)->Ok_0;
            let second = reconcile(second_specification, root, Some(first.node), first.state, depth);
            second is Ok && same_shape(second->Ok_0.node.children[0], first.node.children[0])
        }),
    ensures
        ({
            let first = reconcile(first_specification, root, old_tree, state, depth)->Ok_0;
            let second = reconcile(second_specification, root, Some(first.node), first.state, depth)->Ok_0;
            &&& second.state.next_id == first.state.next_id
            &&& same_identifiers(second.node.children[0], first.node.children[0])
        }),
{
    let first = reconcile(first_specification, root, old_tree, state, depth)->Ok_0;
    lemma_pass_well_formed(first_specification, root, old_tree, state, depth);
    lemma_identity_stable_under_no_change(second_specification, root, first.node, first.state, depth);
}

} // verus!
