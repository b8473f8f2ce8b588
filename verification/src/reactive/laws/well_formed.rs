//! The shadow tree of a pass is well formed: every node records the keys of
//! its own keyed components and no others.

use vstd::prelude::*;
use crate::components::component::{
    initial_state_of,
    rendered_by,
    tag_of,
    Component,
    ContentModel,
    SpecificationModel,
    ViewModel,
};
use crate::elements::element::{kind_name, ElementModel};
use crate::reactive::reconcile::{
    component_identity,
    element_identity,
    reconcile,
    reconcile_children,
    reconcile_node,
    reconcile_rendered,
    record,
    recorded_key,
    Identity,
    MountedChildren,
    PassState,
};
use crate::reactive::tree::{keyed_child, recorded_id, ShadowModel};

verus! {

/// Whether `keys` records the keyed components among `nodes` and nothing
/// else, and no two of the nodes carry the same key: each keyed node is the
/// first to carry its key, each keyed component is recorded with its
/// identifier, and every recorded key is carried by a component.
pub open spec fn children_recorded<U>(nodes: Seq<ShadowModel<U>>, keys: Seq<(Seq<char>, u64)>) -> bool {
    &&& forall|i: int|
        0 <= i < nodes.len() && (#[trigger] nodes[i]).key is Some ==> {
            &&& keyed_child(nodes, nodes[i].key->0, 0) == Some(i)
            &&& !nodes[i].is_element ==> recorded_id(keys, nodes[i].key->0, 0) == Some(nodes[i].id)
        }
    &&& forall|key: Seq<char>|
        (#[trigger] recorded_id(keys, key, 0)) is Some ==> keyed_child(nodes, key, 0) is Some
            && !nodes[keyed_child(nodes, key, 0)->0].is_element
}

/// Whether the tree under `node` is one that a pass produces: every node
/// records the keys of the keyed components among its direct children and
/// no others, a component node has one child, and every child names its
/// parent.
pub open spec fn well_formed<U>(node: ShadowModel<U>) -> bool
    decreases node,
{
    &&& children_recorded(node.children, node.children_keys)
    &&& !node.is_element ==> node.children.len() == 1
    &&& forall|i: int|
        0 <= i < node.children.len() ==> {
            &&& (#[trigger] node.children[i]).parent_id == Some(node.id)
            &&& well_formed(node.children[i])
        }
}

/// What a search for a keyed component finds.
pub proof fn lemma_keyed_child_found<U>(children: Seq<ShadowModel<U>>, key: Seq<char>, from: int)
    requires
        0 <= from,
    ensures
        match keyed_child(children, key, from) {
            Some(j) => from <= j < children.len() && children[j].key == Some(key),
            None => forall|t: int|
                from <= t < children.len() ==> (#[trigger] children[t]).key != Some(key),
        },
    decreases children.len() - from,
{
    if from < children.len() && children[from].key != Some(key) {
        lemma_keyed_child_found(children, key, from + 1);
    }
}

/// A search among children with one more at the end.
proof fn lemma_keyed_child_push<U>(
    children: Seq<ShadowModel<U>>,
    last: ShadowModel<U>,
    key: Seq<char>,
    from: int,
)
    requires
        0 <= from <= children.len(),
    ensures
        keyed_child(children.push(last), key, from) == (match keyed_child(children, key, from) {
            Some(j) => Some(j),
            None => if last.key == Some(key) {
                Some(children.len() as int)
            } else {
                None
            },
        }),
    decreases children.len() - from,
{
    let longer = children.push(last);
    if from < children.len() {
        if children[from].key != Some(key) {
            lemma_keyed_child_push(children, last, key, from + 1);
        }
    } else {
        assert(keyed_child(longer, key, from + 1) is None);
    }
}

/// A lookup among recorded keys with one more at the end.
proof fn lemma_recorded_id_push(
    keys: Seq<(Seq<char>, u64)>,
    last: (Seq<char>, u64),
    key: Seq<char>,
    from: int,
)
    requires
        0 <= from <= keys.len(),
    ensures
        recorded_id(keys.push(last), key, from) == (match recorded_id(keys, key, from) {
            Some(id) => Some(id),
            None => if last.0 == key {
                Some(last.1)
            } else {
                None
            },
        }),
    decreases keys.len() - from,
{
    let longer = keys.push(last);
    if from < keys.len() {
        if keys[from].0 != key {
            lemma_recorded_id_push(keys, last, key, from + 1);
        }
    } else {
        assert(recorded_id(longer, key, from + 1) is None);
    }
}

/// A mounted node carries the key of its specification, says whether the
/// specification was an element, and names the parent it was mounted under.
pub proof fn lemma_node_reflects_specification<C: Component>(
    specification: SpecificationModel<C>,
    index: int,
    old_parent: Option<ShadowModel<C::Update>>,
    parent_id: u64,
    state: PassState,
    depth: nat,
)
    requires
        reconcile_node(specification, index, old_parent, parent_id, state, depth) is Ok,
    ensures
        ({
            let m = reconcile_node(specification, index, old_parent, parent_id, state, depth)->Ok_0;
            &&& m.node.key == specification.key
            &&& m.node.is_element == (specification.content is Element)
            &&& m.node.parent_id == Some(parent_id)
            &&& m.node.tag == (match specification.content {
                ContentModel::Element(prototype) => kind_name(prototype.kind),
                ContentModel::Component(component) => tag_of(component),
            })
        }),
{
}

/// Recording one more mounted child keeps the record exact.
pub proof fn lemma_record_child<C: Component>(
    nodes: Seq<ShadowModel<C::Update>>,
    keys: Seq<(Seq<char>, u64)>,
    child: SpecificationModel<C>,
    node: ShadowModel<C::Update>,
)
    requires
        children_recorded(nodes, keys),
        node.key == child.key,
        node.is_element == (child.content is Element),
        !(child.key is Some && keyed_child(nodes, child.key->0, 0) is Some),
    ensures
        children_recorded(nodes.push(node), record(keys, child, node.id)),
{
    let longer = nodes.push(node);
    let recorded = record(keys, child, node.id);
    assert forall|key: Seq<char>| true implies keyed_child(longer, key, 0) == (match keyed_child(
        nodes,
        key,
        0,
    ) {
        Some(j) => Some(j),
        None => if node.key == Some(key) {
            Some(nodes.len() as int)
        } else {
            None
        },
    }) by {
        lemma_keyed_child_push(nodes, node, key, 0);
    }
    assert forall|key: Seq<char>| true implies recorded_id(recorded, key, 0) == (match recorded_id(
        keys,
        key,
        0,
    ) {
        Some(id) => Some(id),
        None => if recorded_key(child) == Some(key) {
            Some(node.id)
        } else {
            None
        },
    }) by {
        if recorded_key(child) is Some {
            lemma_recorded_id_push(keys, (recorded_key(child)->0, node.id), key, 0);
        }
    }
    assert forall|i: int| 0 <= i < longer.len() && (#[trigger] longer[i]).key is Some implies {
        &&& keyed_child(longer, longer[i].key->0, 0) == Some(i)
        &&& !longer[i].is_element ==> recorded_id(recorded, longer[i].key->0, 0) == Some(longer[i].id)
    } by {
        if i < nodes.len() {
            assert(longer[i] == nodes[i]);
        } else {
            assert(longer[i] == node);
        }
    }
    assert forall|key: Seq<char>| (#[trigger] recorded_id(recorded, key, 0)) is Some implies keyed_child(
        longer,
        key,
        0,
    ) is Some && !longer[keyed_child(longer, key, 0)->0].is_element by {
        if recorded_id(keys, key, 0) is Some {
            let j = keyed_child(nodes, key, 0)->0;
            lemma_keyed_child_found(nodes, key, 0);
            assert(longer[j] == nodes[j]);
        } else {
            assert(longer[nodes.len() as int] == node);
        }
    }
}

proof fn lemma_children_well_formed<C: Component>(
    children: Seq<SpecificationModel<C>>,
    from: int,
    old_parent: Option<ShadowModel<C::Update>>,
    parent_id: u64,
    mounted: MountedChildren<C::Update>,
    depth: nat,
)
    requires
        0 <= from,
        children_recorded(mounted.nodes, mounted.keys),
        forall|i: int|
            0 <= i < mounted.nodes.len() ==> (#[trigger] mounted.nodes[i]).parent_id == Some(parent_id)
                && well_formed(mounted.nodes[i]),
        reconcile_children(children, from, old_parent, parent_id, mounted, depth) is Ok,
    ensures
        ({
            let after = reconcile_children(children, from, old_parent, parent_id, mounted, depth)->Ok_0;
            &&& children_recorded(after.nodes, after.keys)
            &&& forall|i: int|
                0 <= i < after.nodes.len() ==> (#[trigger] after.nodes[i]).parent_id == Some(parent_id)
                    && well_formed(after.nodes[i])
        }),
    decreases depth, children, children.len() - from,
{
    if from < children.len() {
        let child = children[from];
        let m = reconcile_node(child, from, old_parent, parent_id, mounted.state, depth)->Ok_0;
        lemma_node_well_formed(child, from, old_parent, parent_id, mounted.state, depth);
        lemma_node_reflects_specification(child, from, old_parent, parent_id, mounted.state, depth);
        lemma_record_child(mounted.nodes, mounted.keys, child, m.node);
        let next = MountedChildren {
            nodes: mounted.nodes.push(m.node),
            keys: record(mounted.keys, child, m.node.id),
            elements: mounted.elements.push(m.element),
            state: m.state,
        };
        lemma_children_well_formed(children, from + 1, old_parent, parent_id, next, depth);
    }
}

proof fn lemma_rendered_well_formed<C: Component>(
    rendered: ViewModel<C, C::Update>,
    key: Option<Seq<char>>,
    tag: Seq<char>,
    identity: Identity<C::Update>,
    parent_id: u64,
    depth: nat,
)
    requires
        reconcile_rendered(rendered, key, tag, identity, parent_id, depth) is Ok,
    ensures
        well_formed(reconcile_rendered(rendered, key, tag, identity, parent_id, depth)->Ok_0.node),
    decreases depth, rendered.specification, 1nat,
{
    let stored = PassState {
        store: identity.state.store.insert(identity.id, rendered.state),
        ..identity.state
    };
    let inner = reconcile_node(
        rendered.specification,
        0,
        identity.previous,
        identity.id,
        stored,
        depth,
    )->Ok_0;
    lemma_node_well_formed(rendered.specification, 0, identity.previous, identity.id, stored, depth);
    lemma_node_reflects_specification(
        rendered.specification,
        0,
        identity.previous,
        identity.id,
        stored,
        depth,
    );
    let none = Seq::<ShadowModel<C::Update>>::empty();
    lemma_record_child(none, Seq::empty(), rendered.specification, inner.node);
}

/// The shadow tree that mounting a specification yields is one that a pass
/// produces: see [`well_formed`].
pub proof fn lemma_node_well_formed<C: Component>(
    specification: SpecificationModel<C>,
    index: int,
    old_parent: Option<ShadowModel<C::Update>>,
    parent_id: u64,
    state: PassState,
    depth: nat,
)
    requires
        reconcile_node(specification, index, old_parent, parent_id, state, depth) is Ok,
    ensures
        well_formed(reconcile_node(specification, index, old_parent, parent_id, state, depth)->Ok_0.node),
    decreases depth, specification, 0nat,
{
    match specification.content {
        ContentModel::Element(prototype) => {
            let identity = element_identity::<C::Update>(
                kind_name(prototype.kind),
                specification.key,
                index,
                old_parent,
                state,
            )->Ok_0;
            let start = MountedChildren::<C::Update> {
                nodes: Seq::empty(),
                keys: Seq::empty(),
                elements: prototype.children,
                state: identity.state,
            };
            lemma_children_well_formed(
                specification.children,
                0,
                identity.previous,
                identity.id,
                start,
                depth,
            );
        },
        ContentModel::Component(component) => {
            let identity = component_identity::<C::Update>(
                tag_of(component),
                initial_state_of(component),
                specification.key,
                index,
                old_parent,
                state,
            )->Ok_0;
            lemma_rendered_well_formed(
                rendered_by(
                    component,
                    identity.state.store[identity.id],
                    specification.props,
                    specification.children,
                    identity.id,
                ),
                specification.key,
                tag_of(component),
                identity,
                parent_id,
                (depth - 1) as nat,
            );
        },
    }
}

/// The shadow tree of a pass is well formed: a node records the keys of its
/// direct children only, and of each keyed component among them.
pub proof fn lemma_pass_well_formed<C: Component>(
    specification: SpecificationModel<C>,
    root: ElementModel,
    old_tree: Option<ShadowModel<C::Update>>,
    state: PassState,
    depth: nat,
)
    requires
        reconcile(specification, root, old_tree, state, depth) is Ok,
    ensures
        well_formed(reconcile(specification, root, old_tree, state, depth)->Ok_0.node),
{
    let root_specification = SpecificationModel {
        content: ContentModel::Element(root),
        key: None,
        props: None,
        children: seq![specification],
    };
    let m = reconcile_node(root_specification, 0, old_tree, 0, state, depth)->Ok_0;
    lemma_node_well_formed(root_specification, 0, old_tree, 0, state, depth);
    lemma_node_reflects_specification(root_specification, 0, old_tree, 0, state, depth);
    let none = Seq::<ShadowModel<C::Update>>::empty();
    lemma_record_child(none, Seq::empty(), root_specification, m.node);
}

} // verus!
