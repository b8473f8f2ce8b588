//! Reconciling the same specification twice in a row yields the same
//! trees, identifier for identifier, where what a component renders does
//! not depend on its state.

use vstd::prelude::*;
use crate::components::component::{
    initial_state_of,
    rendered_by,
    tag_of,
    Component,
    ContentModel,
    SpecificationModel,
    ViewModel,
};
use crate::components::props::{PropsModel, StateModel};
use crate::elements::element::{kind_name, ElementModel};
use crate::reactive::laws::stability::lemma_children_extend;
use crate::reactive::laws::well_formed::{
    children_recorded,
    lemma_node_reflects_specification,
    lemma_node_well_formed,
    lemma_pass_well_formed,
    well_formed,
};
use crate::reactive::reconcile::{
    component_identity,
    element_identity,
    reconcile,
    reconcile_children,
    reconcile_node,
    reconcile_rendered,
    record,
    Abandoned,
    Identity,
    MountedChildren,
    PassState,
};
use crate::reactive::tree::{keyed_child, ShadowModel};

verus! {

/// Whether the specification that a component of type `C` renders does not
/// depend on the component's state.
pub open spec fn renders_whatever_the_state<C: Component>() -> bool {
    forall|
        component: C,
        first: StateModel,
        second: StateModel,
        props: Option<PropsModel>,
        children: Seq<SpecificationModel<C>>,
        id: u64,
    |
        #![trigger
            rendered_by(component, first, props, children, id),
            rendered_by(component, second, props, children, id)
        ]
        rendered_by(component, first, props, children, id).specification == rendered_by(
            component,
            second,
            props,
            children,
            id,
        ).specification
}

/// Whether two shadow trees are alike: node for node the same in all but the
/// handlers that the components returned.
pub open spec fn alike<U>(new: ShadowModel<U>, old_node: ShadowModel<U>) -> bool
    decreases new,
{
    &&& new.is_element == old_node.is_element
    &&& new.key == old_node.key
    &&& new.tag == old_node.tag
    &&& new.id == old_node.id
    &&& new.parent_id == old_node.parent_id
    &&& new.children_keys == old_node.children_keys
    &&& new.children.len() == old_node.children.len()
    &&& forall|i: int| 0 <= i < new.children.len() ==> alike(#[trigger] new.children[i], old_node.children[i])
}

/// Whether two sequences of shadow trees are alike, tree for tree.
pub open spec fn all_alike<U>(new: Seq<ShadowModel<U>>, old_nodes: Seq<ShadowModel<U>>) -> bool {
    &&& new.len() == old_nodes.len()
    &&& forall|i: int| 0 <= i < new.len() ==> alike(#[trigger] new[i], old_nodes[i])
}

/// Among trees that are alike a key is carried at the same position.
proof fn lemma_keyed_child_alike<U>(
    new: Seq<ShadowModel<U>>,
    old_nodes: Seq<ShadowModel<U>>,
    key: Seq<char>,
    from: int,
)
    requires
        0 <= from,
        all_alike(new, old_nodes),
    ensures
        keyed_child(new, key, from) == keyed_child(old_nodes, key, from),
    decreases new.len() - from,
{
    if from < new.len() {
        assert(alike(new[from], old_nodes[from]));
        if new[from].key != Some(key) {
            lemma_keyed_child_alike(new, old_nodes, key, from + 1);
        }
    }
}

proof fn lemma_replay_children<C: Component>(
    children: Seq<SpecificationModel<C>>,
    from: int,
    first_previous: Option<ShadowModel<C::Update>>,
    parent_id: u64,
    first_mounted: MountedChildren<C::Update>,
    depth: nat,
    first_node: ShadowModel<C::Update>,
    second_mounted: MountedChildren<C::Update>,
)
    requires
        renders_whatever_the_state::<C>(),
        0 <= from <= children.len(),
        reconcile_children(children, from, first_previous, parent_id, first_mounted, depth) is Ok,
        first_node.children == reconcile_children(
            children,
            from,
            first_previous,
            parent_id,
            first_mounted,
            depth,
        )->Ok_0.nodes,
        children_recorded(first_node.children, first_node.children_keys),
        forall|i: int| 0 <= i < first_node.children.len() ==> well_formed(#[trigger] first_node.children[i]),
        first_mounted.nodes.len() == from,
        all_alike(second_mounted.nodes, first_mounted.nodes),
        second_mounted.keys == first_mounted.keys,
        second_mounted.elements == first_mounted.elements,
    ensures
        ({
            let first = reconcile_children(
                children,
                from,
                first_previous,
                parent_id,
                first_mounted,
                depth,
            )->Ok_0;
            let second = reconcile_children(
                children,
                from,
                Some(first_node),
                parent_id,
                second_mounted,
                depth,
            );
            &&& second is Ok
            &&& all_alike(second->Ok_0.nodes, first.nodes)
            &&& second->Ok_0.keys == first.keys
            &&& second->Ok_0.elements == first.elements
            &&& second->Ok_0.state.next_id == second_mounted.state.next_id
        }),
    decreases depth, children, children.len() - from,
{
    if from < children.len() {
        let child = children[from];
        let first_child = reconcile_node(
            child,
            from,
            first_previous,
            parent_id,
            first_mounted.state,
            depth,
        )->Ok_0;
        let first_next = MountedChildren {
            nodes: first_mounted.nodes.push(first_child.node),
            keys: record(first_mounted.keys, child, first_child.node.id),
            elements: first_mounted.elements.push(first_child.element),
            state: first_child.state,
        };
        lemma_children_extend(children, from + 1, first_previous, parent_id, first_next, depth);
        assert(first_node.children[from] == first_next.nodes[from]);
        assert(first_node.children[from] == first_child.node);
        if child.key is Some {
            lemma_keyed_child_alike(second_mounted.nodes, first_mounted.nodes, child.key->0, 0);
        }
        lemma_replay_node(
            child,
            from,
            first_previous,
            parent_id,
            first_mounted.state,
            depth,
            first_node,
            second_mounted.state,
        );
        let second_child = reconcile_node(
            child,
            from,
            Some(first_node),
            parent_id,
            second_mounted.state,
            depth,
        )->Ok_0;
        let second_next = MountedChildren {
            nodes: second_mounted.nodes.push(second_child.node),
            keys: record(second_mounted.keys, child, second_child.node.id),
            elements: second_mounted.elements.push(second_child.element),
            state: second_child.state,
        };
        assert forall|i: int| 0 <= i < second_next.nodes.len() implies alike(
            #[trigger] second_next.nodes[i],
            first_next.nodes[i],
        ) by {
            if i < from {
                assert(second_next.nodes[i] == second_mounted.nodes[i]);
                assert(first_next.nodes[i] == first_mounted.nodes[i]);
            }
        }
        lemma_replay_children(
            children,
            from + 1,
            first_previous,
            parent_id,
            first_next,
            depth,
            first_node,
            second_next,
        );
    }
}

proof fn lemma_replay_rendered<C: Component>(
    first_rendered: ViewModel<C, C::Update>,
    second_rendered: ViewModel<C, C::Update>,
    key: Option<Seq<char>>,
    tag: Seq<char>,
    first_identity: Identity<C::Update>,
    parent_id: u64,
    depth: nat,
    second_state: PassState,
)
    requires
        renders_whatever_the_state::<C>(),
        first_rendered.specification == second_rendered.specification,
        reconcile_rendered(first_rendered, key, tag, first_identity, parent_id, depth) is Ok,
        well_formed(
            reconcile_rendered(first_rendered, key, tag, first_identity, parent_id, depth)->Ok_0.node,
        ),
    ensures
        ({
            let first = reconcile_rendered(first_rendered, key, tag, first_identity, parent_id, depth)->Ok_0;
            let second = reconcile_rendered(
                second_rendered,
                key,
                tag,
                Identity { id: first_identity.id, previous: Some(first.node), state: second_state },
                parent_id,
                depth,
            );
            &&& second is Ok
            &&& alike(second->Ok_0.node, first.node)
            &&& second->Ok_0.element == first.element
            &&& second->Ok_0.state.next_id == second_state.next_id
        }),
    decreases depth, first_rendered.specification, 1nat,
{
    let first = reconcile_rendered(first_rendered, key, tag, first_identity, parent_id, depth)->Ok_0;
    let first_stored = PassState {
        store: first_identity.state.store.insert(first_identity.id, first_rendered.state),
        ..first_identity.state
    };
    let second_stored = PassState {
        store: second_state.store.insert(first_identity.id, second_rendered.state),
        ..second_state
    };
    let inner = reconcile_node(
        first_rendered.specification,
        0,
        first_identity.previous,
        first_identity.id,
        first_stored,
        depth,
    )->Ok_0;
    assert(first.node.children[0] == inner.node);
    lemma_replay_node(
        first_rendered.specification,
        0,
        first_identity.previous,
        first_identity.id,
        first_stored,
        depth,
        first.node,
        second_stored,
    );
}

/// Mounting a specification again, over the node that mounting it yielded,
/// yields a node that is alike and the same element, and hands out no
/// identifier.
pub proof fn lemma_replay_node<C: Component>(
    specification: SpecificationModel<C>,
    index: int,
    first_parent: Option<ShadowModel<C::Update>>,
    parent_id: u64,
    first_state: PassState,
    depth: nat,
    second_parent: ShadowModel<C::Update>,
    second_state: PassState,
)
    requires
        renders_whatever_the_state::<C>(),
        reconcile_node(specification, index, first_parent, parent_id, first_state, depth) is Ok,
        0 <= index < second_parent.children.len(),
        second_parent.children[index] == reconcile_node(
            specification,
            index,
            first_parent,
            parent_id,
            first_state,
            depth,
        )->Ok_0.node,
        children_recorded(second_parent.children, second_parent.children_keys),
    ensures
        ({
            let first = reconcile_node(specification, index, first_parent, parent_id, first_state, depth)->Ok_0;
            let second = reconcile_node(
                specification,
                index,
                Some(second_parent),
                parent_id,
                second_state,
                depth,
            );
            &&& second is Ok
            &&& alike(second->Ok_0.node, first.node)
            &&& second->Ok_0.element == first.element
            &&& second->Ok_0.state.next_id == second_state.next_id
        }),
    decreases depth, specification, 0nat,
{
    let first = reconcile_node(specification, index, first_parent, parent_id, first_state, depth)->Ok_0;
    lemma_node_reflects_specification(specification, index, first_parent, parent_id, first_state, depth);
    lemma_node_well_formed(specification, index, first_parent, parent_id, first_state, depth);
    assert(second_parent.children[index].key == specification.key);
    match specification.content {
        ContentModel::Element(prototype) => {
            let first_identity = element_identity::<C::Update>(
                kind_name(prototype.kind),
                specification.key,
                index,
                first_parent,
                first_state,
            )->Ok_0;
            let second_identity = element_identity::<C::Update>(
                kind_name(prototype.kind),
                specification.key,
                index,
                Some(second_parent),
                second_state,
            );
            assert(second_identity == Ok::<Identity<C::Update>, Abandoned>(
                Identity { id: first.node.id, previous: Some(first.node), state: second_state },
            ));
            let first_start = MountedChildren::<C::Update> {
                nodes: Seq::empty(),
                keys: Seq::empty(),
                elements: prototype.children,
                state: first_identity.state,
            };
            let second_start = MountedChildren::<C::Update> {
                nodes: Seq::empty(),
                keys: Seq::empty(),
                elements: prototype.children,
                state: second_state,
            };
            lemma_replay_children(
                specification.children,
                0,
                first_identity.previous,
                first_identity.id,
                first_start,
                depth,
                first.node,
                second_start,
            );
        },
        ContentModel::Component(component) => {
            let first_identity = component_identity::<C::Update>(
                tag_of(component),
                initial_state_of(component),
                specification.key,
                index,
                first_parent,
                first_state,
            )->Ok_0;
            let second_identity = component_identity::<C::Update>(
                tag_of(component),
                initial_state_of(component),
                specification.key,
                index,
                Some(second_parent),
                second_state,
            );
            assert(second_identity == Ok::<Identity<C::Update>, Abandoned>(
                Identity { id: first.node.id, previous: Some(first.node), state: second_state },
            ));
            lemma_replay_rendered(
                rendered_by(
                    component,
                    first_identity.state.store[first_identity.id],
                    specification.props,
                    specification.children,
                    first_identity.id,
                ),
                rendered_by(
                    component,
                    second_state.store[first_identity.id],
                    specification.props,
                    specification.children,
                    first_identity.id,
                ),
                specification.key,
                tag_of(component),
                first_identity,
                parent_id,
                (depth - 1) as nat,
                second_state,
            );
        },
    }
}

/// Identity is stable under no change: where what the components render
/// does not depend on their state, a second pass over the same
/// specification and root element, run over the shadow tree that the first
/// pass left, goes through, hands out no identifier, and yields a shadow
/// tree that is alike, with every identifier, tag and key where it was, and
/// the very same element tree.
pub proof fn lemma_same_specification_twice<C: Component>(
    specification: SpecificationModel<C>,
    root: ElementModel,
    old_tree: Option<ShadowModel<C::Update>>,
    state: PassState,
    depth: nat,
    second_state: PassState,
)
    requires
        renders_whatever_the_state::<C>(),
        reconcile(specification, root, old_tree, state, depth) is Ok,
    ensures
        ({
            let first = reconcile(specification, root, old_tree, state, depth)->Ok_0;
            let second = reconcile(specification, root, Some(first.node), second_state, depth);
            &&& second is Ok
            &&& alike(second->Ok_0.node, first.node)
            &&& second->Ok_0.element == first.element
            &&& second->Ok_0.state.next_id == second_state.next_id
        }),
{
    let first = reconcile(specification, root, old_tree, state, depth)->Ok_0;
    let root_specification = SpecificationModel {
        content: ContentModel::Element(root),
        key: None,
        props: None,
        children: seq![specification],
    };
    lemma_pass_well_formed(specification, root, old_tree, state, depth);
    lemma_replay_node(root_specification, 0, old_tree, 0, state, depth, first.node, second_state);
}

} // verus!
