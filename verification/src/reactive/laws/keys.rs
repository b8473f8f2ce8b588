//! A key decides which node of the previous render a child is held against,
//! wherever the child stands among its siblings.

use vstd::prelude::*;
use crate::components::component::{rendered_by, tag_of, Component, ContentModel, SpecificationModel};
use crate::elements::element::kind_name;
use crate::reactive::laws::stability::lemma_children_extend;
use crate::reactive::laws::well_formed::{
    lemma_keyed_child_found, lemma_node_reflects_specification, well_formed,
};
use crate::reactive::reconcile::{
    key_recorded,
    reconcile_children,
    reconcile_node,
    record,
    same_type,
    MountedChildren,
    PassState,
};
use crate::reactive::tree::{keyed_child, recorded_id, ShadowModel};

verus! {

/// A keyed component whose key the previous parent recorded is the same
/// instance wherever it now stands: what mounting it yields does not depend
/// on its position, it keeps the identifier recorded under its key, and its
/// factory is called on the state stored under that identifier.
pub proof fn lemma_keyed_component_ignores_position<C: Component>(
    component: C,
    specification: SpecificationModel<C>,
    first: int,
    second: int,
    old_parent: ShadowModel<C::Update>,
    parent_id: u64,
    state: PassState,
    depth: nat,
)
    requires
        specification.content == ContentModel::Component(component),
        key_recorded(Some(old_parent), specification.key),
    ensures
        reconcile_node(specification, first, Some(old_parent), parent_id, state, depth)
            == reconcile_node(specification, second, Some(old_parent), parent_id, state, depth),
        ({
            let mounted = reconcile_node(specification, first, Some(old_parent), parent_id, state, depth);
            let id = recorded_id(old_parent.children_keys, specification.key->0, 0)->0;
            mounted is Ok ==> {
                &&& mounted->Ok_0.node.id == id
                &&& mounted->Ok_0.node.key == specification.key
                &&& mounted->Ok_0.node.update == rendered_by(
                    component,
                    state.store[id],
                    specification.props,
                    specification.children,
                    id,
                ).update
            }
        }),
{
}

/// Whether a specification carries a key that a child of `old_parent`
/// carried.
pub open spec fn carries_old_key<C: Component>(
    specification: SpecificationModel<C>,
    old_parent: ShadowModel<C::Update>,
) -> bool {
    specification.key is Some && keyed_child(old_parent.children, specification.key->0, 0) is Some
}

/// The child of `old_parent` that carried the key of the specification.
pub open spec fn old_sibling<C: Component>(
    specification: SpecificationModel<C>,
    old_parent: ShadowModel<C::Update>,
) -> ShadowModel<C::Update> {
    old_parent.children[keyed_child(old_parent.children, specification.key->0, 0)->0]
}

/// Whether a specification is of the type of a node: an element of the
/// node's kind and type name, or a component of the node's kind and tag.
pub open spec fn of_type<C: Component>(
    specification: SpecificationModel<C>,
    node: ShadowModel<C::Update>,
) -> bool {
    match specification.content {
        ContentModel::Element(prototype) => same_type(node, true, kind_name(prototype.kind)),
        ContentModel::Component(component) => same_type(node, false, tag_of(component)),
    }
}

/// A keyed child, element or component, is held against the sibling that
/// carried its key, wherever the child now stands: where mounting it goes
/// through, what it yields does not depend on its position.
pub proof fn lemma_keyed_child_ignores_position<C: Component>(
    specification: SpecificationModel<C>,
    first: int,
    second: int,
    old_parent: ShadowModel<C::Update>,
    parent_id: u64,
    state: PassState,
    depth: nat,
)
    requires
        carries_old_key(specification, old_parent),
        reconcile_node(specification, first, Some(old_parent), parent_id, state, depth) is Ok,
    ensures
        reconcile_node(specification, first, Some(old_parent), parent_id, state, depth)
            == reconcile_node(specification, second, Some(old_parent), parent_id, state, depth),
{
}

/// A keyed child of the type of the sibling that carried its key keeps
/// that sibling's identifier, over a well-formed previous parent.
pub proof fn lemma_keyed_child_keeps_identifier<C: Component>(
    specification: SpecificationModel<C>,
    index: int,
    old_parent: ShadowModel<C::Update>,
    parent_id: u64,
    state: PassState,
    depth: nat,
)
    requires
        well_formed(old_parent),
        carries_old_key(specification, old_parent),
        of_type(specification, old_sibling(specification, old_parent)),
        reconcile_node(specification, index, Some(old_parent), parent_id, state, depth) is Ok,
    ensures
        ({
            let m = reconcile_node(specification, index, Some(old_parent), parent_id, state, depth)->Ok_0;
            &&& m.node.id == old_sibling(specification, old_parent).id
            &&& m.node.key == specification.key
        }),
{
    let j = keyed_child(old_parent.children, specification.key->0, 0)->0;
    lemma_keyed_child_found(old_parent.children, specification.key->0, 0);
    assert(old_parent.children[j].key == specification.key);
}

/// Keyed siblings keep their identifiers whatever became of the list: where
/// every child from position `from` on, element or component, carries a
/// key that a child of the well-formed previous parent carried, and is of
/// that child's type, each gets that child's identifier, whether siblings
/// were taken away, added in front or put in another order.
pub proof fn lemma_keyed_siblings_keep_identifiers<C: Component>(
    children: Seq<SpecificationModel<C>>,
    from: int,
    old_parent: ShadowModel<C::Update>,
    parent_id: u64,
    mounted: MountedChildren<C::Update>,
    depth: nat,
)
    requires
        0 <= from <= children.len(),
        well_formed(old_parent),
        forall|i: int|
            from <= i < children.len() ==> carries_old_key(#[trigger] children[i], old_parent) && of_type(
                children[i],
                old_sibling(children[i], old_parent),
            ),
        reconcile_children(children, from, Some(old_parent), parent_id, mounted, depth) is Ok,
    ensures
        ({
            let after = reconcile_children(children, from, Some(old_parent), parent_id, mounted, depth)->Ok_0;
            &&& after.nodes.len() == mounted.nodes.len() + children.len() - from
            &&& forall|i: int|
                from <= i < children.len() ==> (#[trigger] after.nodes[mounted.nodes.len() + i - from]).id
                    == old_sibling(children[i], old_parent).id
        }),
    decreases children.len() - from,
{
    let after = reconcile_children(children, from, Some(old_parent), parent_id, mounted, depth)->Ok_0;
    lemma_children_extend(children, from, Some(old_parent), parent_id, mounted, depth);
    if from < children.len() {
        let child = children[from];
        assert(carries_old_key(child, old_parent));
        let m = reconcile_node(child, from, Some(old_parent), parent_id, mounted.state, depth)->Ok_0;
        let next = MountedChildren {
            nodes: mounted.nodes.push(m.node),
            keys: record(mounted.keys, child, m.node.id),
            elements: mounted.elements.push(m.element),
            state: m.state,
        };
        lemma_keyed_child_keeps_identifier(child, from, old_parent, parent_id, mounted.state, depth);
        lemma_children_extend(children, from + 1, Some(old_parent), parent_id, next, depth);
        lemma_keyed_siblings_keep_identifiers(children, from + 1, old_parent, parent_id, next, depth);
        assert(after.nodes[mounted.nodes.len() as int] == next.nodes[mounted.nodes.len() as int]);
        assert forall|i: int| from <= i < children.len() implies (#[trigger] after.nodes[mounted.nodes.len()
            + i - from]).id == old_sibling(children[i], old_parent).id by {
            if i > from {
                assert(after.nodes[mounted.nodes.len() + i - from] == after.nodes[next.nodes.len() + i
                    - (from + 1)]);
            }
        }
    }
}

/// Whether two specifications are of the same type: elements of one kind,
/// or components under one tag.
pub open spec fn same_specification_type<C: Component>(
    first: SpecificationModel<C>,
    second: SpecificationModel<C>,
) -> bool {
    match (first.content, second.content) {
        (ContentModel::Element(a), ContentModel::Element(b)) => kind_name(a.kind) == kind_name(b.kind),
        (ContentModel::Component(a), ContentModel::Component(b)) => tag_of(a) == tag_of(b),
        _ => false,
    }
}

/// Every mounted child carries the key of its specification and is of the
/// specification's type.
proof fn lemma_children_reflect<C: Component>(
    children: Seq<SpecificationModel<C>>,
    from: int,
    old_parent: Option<ShadowModel<C::Update>>,
    parent_id: u64,
    mounted: MountedChildren<C::Update>,
    depth: nat,
)
    requires
        0 <= from <= children.len(),
        reconcile_children(children, from, old_parent, parent_id, mounted, depth) is Ok,
    ensures
        ({
            let after = reconcile_children(children, from, old_parent, parent_id, mounted, depth)->Ok_0;
            &&& after.nodes.len() == mounted.nodes.len() + children.len() - from
            &&& forall|i: int|
                from <= i < children.len() ==> (#[trigger] after.nodes[mounted.nodes.len() + i - from]).key
                    == children[i].key && of_type(children[i], after.nodes[mounted.nodes.len() + i - from])
        }),
    decreases children.len() - from,
{
    let after = reconcile_children(children, from, old_parent, parent_id, mounted, depth)->Ok_0;
    lemma_children_extend(children, from, old_parent, parent_id, mounted, depth);
    if from < children.len() {
        let child = children[from];
        let m = reconcile_node(child, from, old_parent, parent_id, mounted.state, depth)->Ok_0;
        let next = MountedChildren {
            nodes: mounted.nodes.push(m.node),
            keys: record(mounted.keys, child, m.node.id),
            elements: mounted.elements.push(m.element),
            state: m.state,
        };
        lemma_node_reflects_specification(child, from, old_parent, parent_id, mounted.state, depth);
        lemma_children_extend(children, from + 1, old_parent, parent_id, next, depth);
        lemma_children_reflect(children, from + 1, old_parent, parent_id, next, depth);
        assert(after.nodes[mounted.nodes.len() as int] == next.nodes[mounted.nodes.len() as int]);
        assert forall|i: int| from <= i < children.len() implies (#[trigger] after.nodes[mounted.nodes.len()
            + i - from]).key == children[i].key && of_type(
            children[i],
            after.nodes[mounted.nodes.len() + i - from],
        ) by {
            if i > from {
                assert(after.nodes[mounted.nodes.len() + i - from] == after.nodes[next.nodes.len() + i
                    - (from + 1)]);
            }
        }
    }
}

/// Key-based reuse across two passes: where a first pass mounted the
/// children `first_children` under a node, and a second pass mounts
/// `second_children` over that node, a child of the second list that has the
/// key and the type of a child of the first list gets that child's
/// identifier, wherever the two stand in their lists. So keyed children that
/// swap places, or lose a sibling, keep their identifiers.
pub proof fn lemma_keyed_children_across_passes<C: Component>(
    first_children: Seq<SpecificationModel<C>>,
    first_previous: Option<ShadowModel<C::Update>>,
    first_start: MountedChildren<C::Update>,
    second_children: Seq<SpecificationModel<C>>,
    first_node: ShadowModel<C::Update>,
    second_start: MountedChildren<C::Update>,
    parent_id: u64,
    depth: nat,
    was: int,
    is: int,
)
    requires
        first_start.nodes.len() == 0,
        second_start.nodes.len() == 0,
        reconcile_children(first_children, 0, first_previous, parent_id, first_start, depth) is Ok,
        first_node.children == reconcile_children(
            first_children,
            0,
            first_previous,
            parent_id,
            first_start,
            depth,
        )->Ok_0.nodes,
        well_formed(first_node),
        reconcile_children(second_children, 0, Some(first_node), parent_id, second_start, depth) is Ok,
        0 <= was < first_children.len(),
        0 <= is < second_children.len(),
        second_children[is].key is Some,
        second_children[is].key == first_children[was].key,
        same_specification_type(second_children[is], first_children[was]),
    ensures
        ({
            let first = reconcile_children(
                first_children,
                0,
                first_previous,
                parent_id,
                first_start,
                depth,
            )->Ok_0;
            let second = reconcile_children(
                second_children,
                0,
                Some(first_node),
                parent_id,
                second_start,
                depth,
            )->Ok_0;
            &&& was < first.nodes.len()
            &&& is < second.nodes.len()
            &&& second.nodes[is].id == first.nodes[was].id
            &&& second.nodes[is].key == second_children[is].key
        }),
{
    let first = reconcile_children(first_children, 0, first_previous, parent_id, first_start, depth)->Ok_0;
    lemma_children_reflect(first_children, 0, first_previous, parent_id, first_start, depth);
    assert(first.nodes[0 + was - 0].key == first_children[was].key);
    let key = second_children[is].key->0;
    assert(keyed_child(first_node.children, key, 0) == Some(was));
    lemma_keyed_child_at(second_children, 0, first_node, parent_id, second_start, depth, is);
}

/// One of the children mounted over a well-formed previous parent: if it
/// carries a key that a child of the parent carried, and is of that child's
/// type, it has that child's identifier.
proof fn lemma_keyed_child_at<C: Component>(
    children: Seq<SpecificationModel<C>>,
    from: int,
    old_parent: ShadowModel<C::Update>,
    parent_id: u64,
    mounted: MountedChildren<C::Update>,
    depth: nat,
    at: int,
)
    requires
        0 <= from <= at < children.len(),
        well_formed(old_parent),
        carries_old_key(children[at], old_parent),
        of_type(children[at], old_sibling(children[at], old_parent)),
        reconcile_children(children, from, Some(old_parent), parent_id, mounted, depth) is Ok,
    ensures
        ({
            let after = reconcile_children(children, from, Some(old_parent), parent_id, mounted, depth)->Ok_0;
            &&& after.nodes.len() == mounted.nodes.len() + children.len() - from
            &&& after.nodes[mounted.nodes.len() + at - from].id == old_sibling(children[at], old_parent).id
            &&& after.nodes[mounted.nodes.len() + at - from].key == children[at].key
        }),
    decreases children.len() - from,
{
    let after = reconcile_children(children, from, Some(old_parent), parent_id, mounted, depth)->Ok_0;
    lemma_children_extend(children, from, Some(old_parent), parent_id, mounted, depth);
    let child = children[from];
    let m = reconcile_node(child, from, Some(old_parent), parent_id, mounted.state, depth)->Ok_0;
    let next = MountedChildren {
        nodes: mounted.nodes.push(m.node),
        keys: record(mounted.keys, child, m.node.id),
        elements: mounted.elements.push(m.element),
        state: m.state,
    };
    lemma_children_extend(children, from + 1, Some(old_parent), parent_id, next, depth);
    if at == from {
        lemma_keyed_child_keeps_identifier(child, from, old_parent, parent_id, mounted.state, depth);
        assert(after.nodes[mounted.nodes.len() as int] == next.nodes[mounted.nodes.len() as int]);
    } else {
        lemma_keyed_child_at(children, from + 1, old_parent, parent_id, next, depth, at);
        assert(after.nodes[mounted.nodes.len() + at - from] == after.nodes[next.nodes.len() + at - (from
            + 1)]);
    }
}

} // verus!
