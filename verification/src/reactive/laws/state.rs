//! State persists: a pass writes the store under the identifiers of the
//! components it mounts, and nowhere else.

use vstd::prelude::*;
use crate::components::component::{
    initial_state_of,
    rendered_by,
    tag_of,
    Component,
    ContentModel,
    SpecificationModel,
    ViewModel,
};
use crate::elements::element::kind_name;
use crate::reactive::laws::freshness::{all_ids_from, lemma_fresh_node, starts_afresh};
use crate::reactive::laws::stability::lemma_children_extend;
use crate::reactive::laws::well_formed::well_formed;
use crate::reactive::reconcile::{
    component_identity,
    element_identity,
    reconcile_children,
    reconcile_node,
    reconcile_rendered,
    record,
    Identity,
    MountedChildren,
    PassState,
};
use crate::reactive::tree::{keyed_child, ShadowModel};

verus! {

/// Whether some node of the tree under `node` has the identifier `id`.
pub open spec fn holds_id<U>(node: ShadowModel<U>, id: u64) -> bool
    decreases node,
{
    ||| node.id == id
    ||| exists|i: int| 0 <= i < node.children.len() && holds_id(#[trigger] node.children[i], id)
}

/// Whether two stores hold the same under `id`: both nothing, or both the
/// same state.
pub open spec fn agree_at<V>(first: Map<u64, V>, second: Map<u64, V>, id: u64) -> bool {
    &&& first.contains_key(id) == second.contains_key(id)
    &&& first.contains_key(id) ==> first[id] == second[id]
}

proof fn lemma_children_leave_store<C: Component>(
    children: Seq<SpecificationModel<C>>,
    from: int,
    old_parent: Option<ShadowModel<C::Update>>,
    parent_id: u64,
    mounted: MountedChildren<C::Update>,
    depth: nat,
    id: u64,
)
    requires
        0 <= from <= children.len(),
        reconcile_children(children, from, old_parent, parent_id, mounted, depth) is Ok,
        ({
            let after = reconcile_children(children, from, old_parent, parent_id, mounted, depth)->Ok_0;
            forall|i: int|
                mounted.nodes.len() <= i < after.nodes.len() ==> !holds_id(#[trigger] after.nodes[i], id)
        }),
    ensures
        agree_at(
            reconcile_children(children, from, old_parent, parent_id, mounted, depth)->Ok_0.state.store,
            mounted.state.store,
            id,
        ),
    decreases depth, children, children.len() - from,
{
    let after = reconcile_children(children, from, old_parent, parent_id, mounted, depth)->Ok_0;
    if from < children.len() {
        let child = children[from];
        let m = reconcile_node(child, from, old_parent, parent_id, mounted.state, depth)->Ok_0;
        let next = MountedChildren {
            nodes: mounted.nodes.push(m.node),
            keys: record(mounted.keys, child, m.node.id),
            elements: mounted.elements.push(m.element),
            state: m.state,
        };
        lemma_children_extend(children, from + 1, old_parent, parent_id, next, depth);
        assert(after.nodes[mounted.nodes.len() as int] == next.nodes[mounted.nodes.len() as int]);
        lemma_node_leaves_store(child, from, old_parent, parent_id, mounted.state, depth, id);
        lemma_children_leave_store(children, from + 1, old_parent, parent_id, next, depth, id);
    }
}

proof fn lemma_rendered_leaves_store<C: Component>(
    rendered: ViewModel<C, C::Update>,
    key: Option<Seq<char>>,
    tag: Seq<char>,
    identity: Identity<C::Update>,
    parent_id: u64,
    depth: nat,
    id: u64,
)
    requires
        reconcile_rendered(rendered, key, tag, identity, parent_id, depth) is Ok,
        !holds_id(reconcile_rendered(rendered, key, tag, identity, parent_id, depth)->Ok_0.node, id),
    ensures
        agree_at(
            reconcile_rendered(rendered, key, tag, identity, parent_id, depth)->Ok_0.state.store,
            identity.state.store,
            id,
        ),
    decreases depth, rendered.specification, 1nat,
{
    let stored = PassState {
        store: identity.state.store.insert(identity.id, rendered.state),
        ..identity.state
    };
    let m = reconcile_rendered(rendered, key, tag, identity, parent_id, depth)->Ok_0;
    let inner = reconcile_node(
        rendered.specification,
        0,
        identity.previous,
        identity.id,
        stored,
        depth,
    )->Ok_0;
    assert(m.node.children[0] == inner.node);
    lemma_node_leaves_store(rendered.specification, 0, identity.previous, identity.id, stored, depth, id);
}

/// A pass writes the store only under the identifiers of the nodes it
/// mounts: under any other identifier the store holds afterwards what it
/// held before.
pub proof fn lemma_node_leaves_store<C: Component>(
    specification: SpecificationModel<C>,
    index: int,
    old_parent: Option<ShadowModel<C::Update>>,
    parent_id: u64,
    state: PassState,
    depth: nat,
    id: u64,
)
    requires
        reconcile_node(specification, index, old_parent, parent_id, state, depth) is Ok,
        !holds_id(reconcile_node(specification, index, old_parent, parent_id, state, depth)->Ok_0.node, id),
    ensures
        agree_at(
            reconcile_node(specification, index, old_parent, parent_id, state, depth)->Ok_0.state.store,
            state.store,
            id,
        ),
    decreases depth, specification, 0nat,
{
    let m = reconcile_node(specification, index, old_parent, parent_id, state, depth)->Ok_0;
    match specification.content {
        ContentModel::Element(prototype) => {
            let identity = element_identity::<C::Update>(
                kind_name(prototype.kind),
                specification.key,
                index,
                old_parent,
                state,
            )->Ok_0;
            let start = MountedChildren::<C::Update> {
                nodes: Seq::empty(),
                keys: Seq::empty(),
                elements: prototype.children,
                state: identity.state,
            };
            let after = reconcile_children(
                specification.children,
                0,
                identity.previous,
                identity.id,
                start,
                depth,
            )->Ok_0;
            assert(m.node.children == after.nodes);
            lemma_children_leave_store(
                specification.children,
                0,
                identity.previous,
                identity.id,
                start,
                depth,
                id,
            );
        },
        ContentModel::Component(component) => {
            let identity = component_identity::<C::Update>(
                tag_of(component),
                initial_state_of(component),
                specification.key,
                index,
                old_parent,
                state,
            )->Ok_0;
            lemma_rendered_leaves_store(
                rendered_by(
                    component,
                    identity.state.store[identity.id],
                    specification.props,
                    specification.children,
                    identity.id,
                ),
                specification.key,
                tag_of(component),
                identity,
                parent_id,
                (depth - 1) as nat,
                id,
            );
        },
    }
}

/// State persists: a mounted component whose identifier no node under it
/// shares leaves in the store, under its identifier, the state its factory
/// returned; and the factory was called on the state stored under that
/// identifier where the component continues a node of the previous render,
/// on the component's initial state where it starts afresh.
pub proof fn lemma_component_state_persists<C: Component>(
    component: C,
    specification: SpecificationModel<C>,
    index: int,
    old_parent: Option<ShadowModel<C::Update>>,
    parent_id: u64,
    state: PassState,
    depth: nat,
)
    requires
        specification.content == ContentModel::Component(component),
        reconcile_node(specification, index, old_parent, parent_id, state, depth) is Ok,
        ({
            let m = reconcile_node(specification, index, old_parent, parent_id, state, depth)->Ok_0;
            !holds_id(m.node.children[0], m.node.id)
        }),
    ensures
        ({
            let m = reconcile_node(specification, index, old_parent, parent_id, state, depth)->Ok_0;
            let given = if starts_afresh(specification, index, old_parent) {
                initial_state_of(component)
            } else {
                state.store[m.node.id]
            };
            &&& m.state.store.contains_key(m.node.id)
            &&& m.state.store[m.node.id] == rendered_by(
                component,
                given,
                specification.props,
                specification.children,
                m.node.id,
            ).state
        }),
{
    let identity = component_identity::<C::Update>(
        tag_of(component),
        initial_state_of(component),
        specification.key,
        index,
        old_parent,
        state,
    )->Ok_0;
    let rendered = rendered_by(
        component,
        identity.state.store[identity.id],
        specification.props,
        specification.children,
        identity.id,
    );
    let stored = PassState {
        store: identity.state.store.insert(identity.id, rendered.state),
        ..identity.state
    };
    lemma_node_leaves_store(
        rendered.specification,
        0,
        identity.previous,
        identity.id,
        stored,
        (depth - 1) as nat,
        identity.id,
    );
}

/// State persists from pass to pass: a component mounted at the position,
/// under the tag and the key of a component that the previous pass mounted
/// there, over a well-formed previous parent, keeps that component's
/// identifier; its factory is called on the state that the store holds
/// under the identifier, and the state it returns is what the store holds
/// afterwards, if no node under the component shares the identifier. So a
/// component that counts in its state sees, pass after pass, the count that
/// it left.
pub proof fn lemma_component_goes_on<C: Component>(
    component: C,
    specification: SpecificationModel<C>,
    index: int,
    old_parent: ShadowModel<C::Update>,
    parent_id: u64,
    state: PassState,
    depth: nat,
)
    requires
        specification.content == ContentModel::Component(component),
        well_formed(old_parent),
        0 <= index < old_parent.children.len(),
        !old_parent.children[index].is_element,
        old_parent.children[index].tag == tag_of(component),
        old_parent.children[index].key == specification.key,
        reconcile_node(specification, index, Some(old_parent), parent_id, state, depth) is Ok,
    ensures
        ({
            let m = reconcile_node(specification, index, Some(old_parent), parent_id, state, depth)->Ok_0;
            let id = old_parent.children[index].id;
            let rendered = rendered_by(
                component,
                state.store[id],
                specification.props,
                specification.children,
                id,
            );
            &&& m.node.id == id
            &&& m.node.update == rendered.update
            &&& !holds_id(m.node.children[0], id) ==> m.state.store.contains_key(id) && m.state.store[id]
                == rendered.state
        }),
{
    let m = reconcile_node(specification, index, Some(old_parent), parent_id, state, depth)->Ok_0;
    let before = old_parent.children[index];
    if specification.key is Some {
        assert(keyed_child(old_parent.children, before.key->0, 0) == Some(index));
    }
    assert(m.node.id == before.id);
    if !holds_id(m.node.children[0], before.id) {
        lemma_component_state_persists(
            component,
            specification,
            index,
            Some(old_parent),
            parent_id,
            state,
            depth,
        );
    }
}

/// An identifier of a tree whose identifiers are all at least `floor` is at
/// least `floor`.
proof fn lemma_not_held_below<U>(node: ShadowModel<U>, floor: u64, id: u64)
    requires
        all_ids_from(node, floor),
        id < floor,
    ensures
        !holds_id(node, id),
    decreases node,
{
    assert forall|i: int| 0 <= i < node.children.len() implies !holds_id(
        #[trigger] node.children[i],
        id,
    ) by {
        lemma_not_held_below(node.children[i], floor, id);
    }
}

/// A remount reuses no state: a node that continues nothing leaves the
/// store as it was under every identifier that was handed out before, and
/// a component that continues nothing is rendered from its initial state,
/// under the next identifier.
pub proof fn lemma_remount_reuses_no_state<C: Component>(
    specification: SpecificationModel<C>,
    index: int,
    old_parent: Option<ShadowModel<C::Update>>,
    parent_id: u64,
    state: PassState,
    depth: nat,
    earlier: u64,
)
    requires
        starts_afresh(specification, index, old_parent),
        reconcile_node(specification, index, old_parent, parent_id, state, depth) is Ok,
        earlier < state.next_id,
    ensures
        ({
            let m = reconcile_node(specification, index, old_parent, parent_id, state, depth)->Ok_0;
            &&& m.node.id == state.next_id
            &&& agree_at(m.state.store, state.store, earlier)
            &&& specification.content matches ContentModel::Component(component) ==> m.node.update
                == rendered_by(
                component,
                initial_state_of(component),
                specification.props,
                specification.children,
                m.node.id,
            ).update
        }),
{
    let m = reconcile_node(specification, index, old_parent, parent_id, state, depth)->Ok_0;
    lemma_fresh_node(specification, index, old_parent, parent_id, state, depth, state.next_id);
    lemma_not_held_below(m.node, state.next_id, earlier);
    lemma_node_leaves_store(specification, index, old_parent, parent_id, state, depth, earlier);
}

} // verus!
