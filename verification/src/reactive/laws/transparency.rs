//! Components are transparent: the element tree holds an element for every
//! element node of the shadow tree, and nothing for a component node.

use vstd::prelude::*;
use crate::components::component::{
    initial_state_of,
    rendered_by,
    tag_of,
    Component,
    ContentModel,
    SpecificationModel,
    ViewModel,
};
use crate::elements::element::{kind_name, ElementModel};
use crate::reactive::reconcile::{
    component_identity,
    element_identity,
    reconcile,
    reconcile_children,
    reconcile_node,
    reconcile_rendered,
    record,
    Identity,
    MountedChildren,
    PassState,
};
use crate::reactive::tree::ShadowModel;

verus! {

/// Whether `element` is what the shadow tree under `node` resolved to. An
/// element node resolves to an element with its identifier and type name
/// whose last children are what the node's children resolved to, one each
/// and in order. A component node is transparent: it resolves to what its
/// only child resolves to.
pub open spec fn resolves_to<U>(node: ShadowModel<U>, element: ElementModel) -> bool
    decreases node,
{
    if node.is_element {
        &&& element.component_id == node.id
        &&& kind_name(element.kind) == node.tag
        &&& element.children.len() >= node.children.len()
        &&& forall|i: int|
            0 <= i < node.children.len() ==> resolves_to(
                #[trigger] node.children[i],
                element.children[element.children.len() - node.children.len() + i],
            )
    } else {
        &&& node.children.len() == 1
        &&& resolves_to(node.children[0], element)
    }
}

proof fn lemma_children_resolve<C: Component>(
    children: Seq<SpecificationModel<C>>,
    from: int,
    old_parent: Option<ShadowModel<C::Update>>,
    parent_id: u64,
    mounted: MountedChildren<C::Update>,
    depth: nat,
)
    requires
        0 <= from,
        mounted.elements.len() >= mounted.nodes.len(),
        forall|i: int|
            0 <= i < mounted.nodes.len() ==> resolves_to(
                #[trigger] mounted.nodes[i],
                mounted.elements[mounted.elements.len() - mounted.nodes.len() + i],
            ),
        reconcile_children(children, from, old_parent, parent_id, mounted, depth) is Ok,
    ensures
        ({
            let after = reconcile_children(children, from, old_parent, parent_id, mounted, depth)->Ok_0;
            &&& after.elements.len() >= after.nodes.len()
            &&& forall|i: int|
                0 <= i < after.nodes.len() ==> resolves_to(
                    #[trigger] after.nodes[i],
                    after.elements[after.elements.len() - after.nodes.len() + i],
                )
        }),
    decreases depth, children, children.len() - from,
{
    if from < children.len() {
        let child = children[from];
        let m = reconcile_node(child, from, old_parent, parent_id, mounted.state, depth)->Ok_0;
        lemma_node_resolves(child, from, old_parent, parent_id, mounted.state, depth);
        let next = MountedChildren {
            nodes: mounted.nodes.push(m.node),
            keys: record(mounted.keys, child, m.node.id),
            elements: mounted.elements.push(m.element),
            state: m.state,
        };
        lemma_children_resolve(children, from + 1, old_parent, parent_id, next, depth);
    }
}

proof fn lemma_rendered_resolves<C: Component>(
    rendered: ViewModel<C, C::Update>,
    key: Option<Seq<char>>,
    tag: Seq<char>,
    identity: Identity<C::Update>,
    parent_id: u64,
    depth: nat,
)
    requires
        reconcile_rendered(rendered, key, tag, identity, parent_id, depth) is Ok,
    ensures
        ({
            let m = reconcile_rendered(rendered, key, tag, identity, parent_id, depth)->Ok_0;
            resolves_to(m.node, m.element)
        }),
    decreases depth, rendered.specification, 1nat,
{
    let stored = PassState {
        store: identity.state.store.insert(identity.id, rendered.state),
        ..identity.state
    };
    lemma_node_resolves(rendered.specification, 0, identity.previous, identity.id, stored, depth);
}

/// Components are transparent: whatever a specification is, it resolves to
/// one element, and the element tree under it holds one element for each
/// element node of the shadow tree and none for a component node.
pub proof fn lemma_node_resolves<C: Component>(
    specification: SpecificationModel<C>,
    index: int,
    old_parent: Option<ShadowModel<C::Update>>,
    parent_id: u64,
    state: PassState,
    depth: nat,
)
    requires
        reconcile_node(specification, index, old_parent, parent_id, state, depth) is Ok,
    ensures
        ({
            let m = reconcile_node(specification, index, old_parent, parent_id, state, depth)->Ok_0;
            resolves_to(m.node, m.element)
        }),
    decreases depth, specification, 0nat,
{
    match specification.content {
        ContentModel::Element(prototype) => {
            let identity = element_identity::<C::Update>(
                kind_name(prototype.kind),
                specification.key,
                index,
                old_parent,
                state,
            )->Ok_0;
            let start = MountedChildren::<C::Update> {
                nodes: Seq::empty(),
                keys: Seq::empty(),
                elements: prototype.children,
                state: identity.state,
            };
            lemma_children_resolve(
                specification.children,
                0,
                identity.previous,
                identity.id,
                start,
                depth,
            );
        },
        ContentModel::Component(component) => {
            let identity = component_identity::<C::Update>(
                tag_of(component),
                initial_state_of(component),
                specification.key,
                index,
                old_parent,
                state,
            )->Ok_0;
            lemma_rendered_resolves(
                rendered_by(
                    component,
                    identity.state.store[identity.id],
                    specification.props,
                    specification.children,
                    identity.id,
                ),
                specification.key,
                tag_of(component),
                identity,
                parent_id,
                (depth - 1) as nat,
            );
        },
    }
}

/// The element tree of a pass holds no component: the root element's new
/// last child is what the root's only child in the shadow tree resolved to.
pub proof fn lemma_component_transparency<C: Component>(
    specification: SpecificationModel<C>,
    root: ElementModel,
    old_tree: Option<ShadowModel<C::Update>>,
    state: PassState,
    depth: nat,
)
    requires
        reconcile(specification, root, old_tree, state, depth) is Ok,
    ensures
        ({
            let m = reconcile(specification, root, old_tree, state, depth)->Ok_0;
            &&& m.node.children.len() == 1
            &&& m.element.children.len() == root.children.len() + 1
            &&& resolves_to(m.node.children[0], m.element.children.last())
        }),
{
    let root_specification = SpecificationModel {
        content: ContentModel::Element(root),
        key: None,
        props: None,
        children: seq![specification],
    };
    lemma_node_resolves(root_specification, 0, old_tree, 0, state, depth);
}

} // verus!
