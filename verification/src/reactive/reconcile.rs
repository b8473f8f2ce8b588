use vstd::prelude::*;
use crate::components::component::{
    component_is_function, initial_state_of, lemma_returned_initial_state, lemma_returned_tag,
    lemma_returned_view, rendered_by, specifications_model, tag_of, Component, ComponentOrElement,
    ComponentSpecification, ContentModel, SpecificationModel, ViewModel, ViewResult,
};
use crate::components::props::{clone_text, text_model, StateModel};
use crate::elements::element::{
    elements_model, kind_name, takes_children, Element, ElementKind, ElementModel,
};
use crate::reactive::ahead::{ids_below, keys_below, lemma_ids_below_grows, lemma_recorded_id_below};
use crate::reactive::element_id::IdAllocator;
use crate::reactive::kept_state::{
    ids_kept, keeps_state, lemma_keeps_state_grows, lemma_recorded_id_kept, node_kept,
};
use crate::reactive::laws::transparency::resolves_to;
use crate::reactive::laws::well_formed::{children_recorded, lemma_record_child, well_formed};
use crate::reactive::state_store::StateStore;
use crate::reactive::tree::{
    find_keyed_child, find_recorded_id, keyed_child, keys_model, node_model, nodes_model,
    recorded_id, ComponentTreeNode, ShadowModel,
};
use crate::vectors::reversed;

verus! {

/// How many components may render one another, one inside the next, before
/// a pass gives up, where the caller names no limit of its own. Every such
/// component costs one level of the call stack; this many a thread's usual
/// stack carries.
pub const MAX_COMPONENT_DEPTH: usize = 128;

/// Why a reconciliation pass was abandoned.
#[derive(Clone, Copy, Debug, PartialEq, Eq, Structural)]
pub enum ReconcileError {
    /// The previous shadow tree is not one a pass produces: the root, or
    /// the node that a component continues, has no child, or a recorded key
    /// belongs to no component among the children.
    MalformedShadowTree,
    /// Two children of one node carry the same key.
    DuplicateKey,
    /// Every identifier has been handed out.
    IdSpaceExhausted,
    /// Components render one another deeper than the pass was allowed.
    NestingTooDeep,
    /// The specification declares children under an element of a kind that
    /// takes none; `index` is the position of the element among its
    /// siblings.
    ChildrenNotAccepted { kind: ElementKind, index: usize },
}

/// What a pass threads from node to node: the state store and the next
/// identifier to hand out.
pub ghost struct PassState {
    pub store: Map<u64, StateModel>,
    pub next_id: u64,
}

/// A pass that was abandoned: why, and what it left behind.
pub ghost struct Abandoned {
    pub error: ReconcileError,
    pub state: PassState,
}

/// The identity a node was given: its identifier, the node of the previous
/// render that it continues, if any, and the pass state afterwards.
pub ghost struct Identity<U> {
    pub id: u64,
    pub previous: Option<ShadowModel<U>>,
    pub state: PassState,
}

/// One mounted specification: its shadow node, the element it resolved to,
/// and the pass state afterwards.
pub ghost struct Mounted<U> {
    pub node: ShadowModel<U>,
    pub element: ElementModel,
    pub state: PassState,
}

/// The children mounted so far under one node.
pub ghost struct MountedChildren<U> {
    pub nodes: Seq<ShadowModel<U>>,
    pub keys: Seq<(Seq<char>, u64)>,
    pub elements: Seq<ElementModel>,
    pub state: PassState,
}

/// Whether `after` can follow `before` in a pass, finished or abandoned: no
/// identifier that was handed out is handed out again, and no entry of the
/// store is gone.
pub open spec fn only_grows(before: PassState, after: PassState) -> bool {
    &&& before.next_id <= after.next_id
    &&& forall|id: u64| before.store.contains_key(id) ==> after.store.contains_key(id)
}

/// A fresh identifier, with the pass state after handing it out.
pub open spec fn allocate(state: PassState) -> Result<(u64, PassState), Abandoned> {
    if state.next_id == u64::MAX {
        Err(Abandoned { error: ReconcileError::IdSpaceExhausted, state })
    } else {
        Ok((state.next_id, PassState { next_id: (state.next_id + 1) as u64, ..state }))
    }
}

/// The node of the previous render at the same position under the parent's
/// predecessor.
pub open spec fn positional<U>(old_parent: Option<ShadowModel<U>>, index: int) -> Option<
    ShadowModel<U>,
> {
    match old_parent {
        Some(o) => if 0 <= index < o.children.len() {
            Some(o.children[index])
        } else {
            None
        },
        None => None,
    }
}

/// The node of the previous render that a child under `key` at position
/// `index` is held against: the sibling that carried the same key, if the
/// child has a key and one did; the node at the same position otherwise.
pub open spec fn paired<U>(
    old_parent: Option<ShadowModel<U>>,
    key: Option<Seq<char>>,
    index: int,
) -> Option<ShadowModel<U>> {
    match old_parent {
        Some(o) => if key is Some && keyed_child(o.children, key->0, 0) is Some {
            Some(o.children[keyed_child(o.children, key->0, 0)->0])
        } else {
            positional(old_parent, index)
        },
        None => None,
    }
}

/// Whether a node is of the type of a specification: of the same kind,
/// element or component, and under the same tag.
pub open spec fn same_type<U>(node: ShadowModel<U>, is_element: bool, tag: Seq<char>) -> bool {
    node.is_element == is_element && node.tag == tag
}

/// The identity of an element with type name `tag` under `key` at position
/// `index`: that of the previous node it is held against if that is an
/// element of the same type, a fresh one otherwise.
pub open spec fn element_identity<U>(
    tag: Seq<char>,
    key: Option<Seq<char>>,
    index: int,
    old_parent: Option<ShadowModel<U>>,
    state: PassState,
) -> Result<Identity<U>, Abandoned> {
    let paired = paired(old_parent, key, index);
    if paired is Some && same_type(paired->0, true, tag) {
        Ok(Identity { id: paired->0.id, previous: paired, state })
    } else {
        match allocate(state) {
            Ok((id, after)) => Ok(Identity { id, previous: None, state: after }),
            Err(e) => Err(e),
        }
    }
}

/// Whether the previous parent recorded `key`.
pub open spec fn key_recorded<U>(old_parent: Option<ShadowModel<U>>, key: Option<Seq<char>>) -> bool {
    key is Some && old_parent is Some && recorded_id(old_parent->0.children_keys, key->0, 0) is Some
}

/// The identity of a component with type tag `tag` under `key` at position
/// `index`. A key that the previous parent recorded decides, wherever the
/// component now stands; otherwise the previous node it is held against
/// does if that is a component of the same type. A component that continues
/// a previous node goes on from the state stored under that node's
/// identifier; a fresh one starts from `initial`.
pub open spec fn component_identity<U>(
    tag: Seq<char>,
    initial: StateModel,
    key: Option<Seq<char>>,
    index: int,
    old_parent: Option<ShadowModel<U>>,
    state: PassState,
) -> Result<Identity<U>, Abandoned> {
    if key_recorded(old_parent, key) {
        let id = recorded_id(old_parent->0.children_keys, key->0, 0)->0;
        match keyed_child(old_parent->0.children, key->0, 0) {
            None => Err(Abandoned { error: ReconcileError::MalformedShadowTree, state }),
            Some(j) => Ok(Identity { id, previous: Some(old_parent->0.children[j]), state }),
        }
    } else {
        let paired = paired(old_parent, key, index);
        if paired is Some && same_type(paired->0, false, tag) {
            Ok(Identity { id: paired->0.id, previous: paired, state })
        } else {
            match allocate(state) {
                Ok((id, after)) => Ok(
                    Identity {
                        id,
                        previous: None,
                        state: PassState { store: after.store.insert(id, initial), ..after },
                    },
                ),
                Err(e) => Err(e),
            }
        }
    }
}

/// The key under which a specification is recorded at its parent: that of a
/// keyed component.
pub open spec fn recorded_key<C>(specification: SpecificationModel<C>) -> Option<Seq<char>> {
    match specification.content {
        ContentModel::Component(_) => specification.key,
        ContentModel::Element(_) => None,
    }
}

/// The recorded keys after a child with identifier `id` was mounted.
pub open spec fn record<C>(
    keys: Seq<(Seq<char>, u64)>,
    specification: SpecificationModel<C>,
    id: u64,
) -> Seq<(Seq<char>, u64)> {
    match recorded_key(specification) {
        Some(k) => keys.push((k, id)),
        None => keys,
    }
}

/// What mounting one specification yields: the node at position `index`
/// under the parent with identifier `parent_id`, matched against the children
/// of `old_parent`, the node that the parent continues.
///
/// An element of a kind that takes no children is refused if children are
/// declared under it. Otherwise it takes its identity from the previous node
/// it is held against, the sibling that carried its key or else the node at
/// its position, mounts its children in order under itself, and appends
/// the elements they resolve to after the children its prototype already
/// has. A component takes
/// its identity, calls its factory on the state stored under it, stores the
/// state returned, and mounts the specification returned as its only child,
/// `depth` bounding how many components may do so inside one another; it
/// resolves to the element its child resolves to.
pub open spec fn reconcile_node<C: Component>(
    specification: SpecificationModel<C>,
    index: int,
    old_parent: Option<ShadowModel<C::Update>>,
    parent_id: u64,
    state: PassState,
    depth: nat,
) -> Result<Mounted<C::Update>, Abandoned>
    decreases depth, specification, 0nat,
{
    match specification.content {
        ContentModel::Element(prototype) => if !takes_children(prototype.kind)
            && specification.children.len() > 0 {
            Err(
                Abandoned {
                    error: ReconcileError::ChildrenNotAccepted {
                        kind: prototype.kind,
                        index: index as usize,
                    },
                    state,
                },
            )
        } else {
            match element_identity(
                kind_name(prototype.kind),
                specification.key,
                index,
                old_parent,
                state,
            ) {
                Err(e) => Err(e),
                Ok(identity) => {
                    let start = MountedChildren {
                        nodes: Seq::empty(),
                        keys: Seq::empty(),
                        elements: prototype.children,
                        state: identity.state,
                    };
                    match reconcile_children(
                        specification.children,
                        0,
                        identity.previous,
                        identity.id,
                        start,
                        depth,
                    ) {
                        Err(e) => Err(e),
                        Ok(mounted) => Ok(
                            Mounted {
                                node: ShadowModel {
                                    is_element: true,
                                    key: specification.key,
                                    tag: kind_name(prototype.kind),
                                    update: None,
                                    children: mounted.nodes,
                                    children_keys: mounted.keys,
                                    id: identity.id,
                                    parent_id: Some(parent_id),
                                },
                                element: ElementModel {
                                    component_id: identity.id,
                                    children: mounted.elements,
                                    ..prototype
                                },
                                state: mounted.state,
                            },
                        ),
                    }
                },
            }
        },
        ContentModel::Component(component) => {
            if depth == 0 {
                Err(Abandoned { error: ReconcileError::NestingTooDeep, state })
            } else {
                match component_identity(
                    tag_of(component),
                    initial_state_of(component),
                    specification.key,
                    index,
                    old_parent,
                    state,
                ) {
                    Err(e) => Err(e),
                    Ok(identity) => {
                        if identity.previous is Some && identity.previous->0.children.len() == 0 {
                            Err(
                                Abandoned {
                                    error: ReconcileError::MalformedShadowTree,
                                    state: identity.state,
                                },
                            )
                        } else {
                            reconcile_rendered(
                                rendered_by(
                                    component,
                                    identity.state.store[identity.id],
                                    specification.props,
                                    specification.children,
                                    identity.id,
                                ),
                                specification.key,
                                tag_of(component),
                                identity,
                                parent_id,
                                (depth - 1) as nat,
                            )
                        }
                    },
                }
            }
        },
    }
}

/// What a component yields once its factory has returned `rendered`: the
/// state returned is stored under the component's identifier, and the
/// specification returned is mounted as the component's only child, matched
/// against the first child of the node that the component continues.
pub open spec fn reconcile_rendered<C: Component>(
    rendered: ViewModel<C, C::Update>,
    key: Option<Seq<char>>,
    tag: Seq<char>,
    identity: Identity<C::Update>,
    parent_id: u64,
    depth: nat,
) -> Result<Mounted<C::Update>, Abandoned>
    decreases depth, rendered.specification, 1nat,
{
    let stored = PassState {
        store: identity.state.store.insert(identity.id, rendered.state),
        ..identity.state
    };
    match reconcile_node(rendered.specification, 0, identity.previous, identity.id, stored, depth) {
        Err(e) => Err(e),
        Ok(inner) => Ok(
            Mounted {
                node: ShadowModel {
                    is_element: false,
                    key,
                    tag,
                    update: rendered.update,
                    children: seq![inner.node],
                    children_keys: record(Seq::empty(), rendered.specification, inner.node.id),
                    id: identity.id,
                    parent_id: Some(parent_id),
                },
                element: inner.element,
                state: inner.state,
            },
        ),
    }
}

/// What mounting the children from position `from` on yields, after the
/// earlier ones gave `mounted`. A child whose key an earlier sibling already
/// carries ends the pass.
pub open spec fn reconcile_children<C: Component>(
    children: Seq<SpecificationModel<C>>,
    from: int,
    old_parent: Option<ShadowModel<C::Update>>,
    parent_id: u64,
    mounted: MountedChildren<C::Update>,
    depth: nat,
) -> Result<MountedChildren<C::Update>, Abandoned>
    decreases depth, children, children.len() - from,
{
    if from < 0 || from >= children.len() {
        Ok(mounted)
    } else {
        let child = children[from];
        if child.key is Some && keyed_child(mounted.nodes, child.key->0, 0) is Some {
            Err(Abandoned { error: ReconcileError::DuplicateKey, state: mounted.state })
        } else {
            match reconcile_node(child, from, old_parent, parent_id, mounted.state, depth) {
                Err(e) => Err(e),
                Ok(m) => reconcile_children(
                    children,
                    from + 1,
                    old_parent,
                    parent_id,
                    MountedChildren {
                        nodes: mounted.nodes.push(m.node),
                        keys: record(mounted.keys, child, m.node.id),
                        elements: mounted.elements.push(m.element),
                        state: m.state,
                    },
                    depth,
                ),
            }
        }
    }
}

/// The type tag of the root of every shadow tree.
pub open spec fn root_tag() -> Seq<char> {
    "root"@
}

/// What one pass yields. The root element is mounted as the only child of a
/// root node with identifier 0, with `specification` as its only child
/// specification; the element tree is the root element with the mounted copy
/// of itself as its new last child.
pub open spec fn reconcile<C: Component>(
    specification: SpecificationModel<C>,
    root: ElementModel,
    old_tree: Option<ShadowModel<C::Update>>,
    state: PassState,
    depth: nat,
) -> Result<Mounted<C::Update>, Abandoned> {
    if old_tree is Some && old_tree->0.children.len() == 0 {
        Err(Abandoned { error: ReconcileError::MalformedShadowTree, state })
    } else {
        let root_specification = SpecificationModel {
            content: ContentModel::Element(root),
            key: None,
            props: None,
            children: seq![specification],
        };
        match reconcile_node(root_specification, 0, old_tree, 0, state, depth) {
            Err(e) => Err(e),
            Ok(m) => Ok(
                Mounted {
                    node: ShadowModel {
                        is_element: false,
                        key: None,
                        tag: root_tag(),
                        update: None,
                        children: seq![m.node],
                        children_keys: Seq::empty(),
                        id: 0,
                        parent_id: None,
                    },
                    element: ElementModel { children: root.children.push(m.element), ..root },
                    state: m.state,
                },
            ),
        }
    }
}


/// Whether mounted children are as every pass leaves them, whatever the
/// components returned: the keys recorded are those of the keyed components
/// among the nodes, every node is well formed and names `parent_id` as its
/// parent, and the last of the elements are what the nodes resolved to, one
/// each and in order.
pub open spec fn children_in_order<U>(
    nodes: Seq<ShadowModel<U>>,
    keys: Seq<(Seq<char>, u64)>,
    elements: Seq<ElementModel>,
    parent_id: u64,
) -> bool {
    &&& children_recorded(nodes, keys)
    &&& elements.len() >= nodes.len()
    &&& forall|i: int|
        0 <= i < nodes.len() ==> {
            &&& (#[trigger] nodes[i]).parent_id == Some(parent_id)
            &&& well_formed(nodes[i])
            &&& resolves_to(nodes[i], elements[elements.len() - nodes.len() + i])
        }
}

/// Whether what a mounting function returned and left behind is what the
/// model expects.
pub open spec fn mounted_as<U>(
    returned: Result<(ComponentTreeNode<U>, Element), ReconcileError>,
    expected: Result<Mounted<U>, Abandoned>,
    store: Map<u64, StateModel>,
    next_id: u64,
) -> bool {
    match expected {
        Ok(m) => returned is Ok && returned->Ok_0.0@ == m.node && returned->Ok_0.1@ == m.element
            && store == m.state.store && next_id == m.state.next_id,
        Err(abandoned) => returned == Err::<(ComponentTreeNode<U>, Element), ReconcileError>(
            abandoned.error,
        ) && store == abandoned.state.store && next_id == abandoned.state.next_id,
    }
}

/// Whether `found`, if it is a node, is a child of `old_parent`: a store
/// that keeps the state of the parent's tree keeps that of the child's.
pub open spec fn kept_below<U>(
    old_parent: Option<&ComponentTreeNode<U>>,
    found: Option<&ComponentTreeNode<U>>,
) -> bool {
    found is Some ==> {
        &&& old_parent is Some
        &&& forall|store: Map<u64, StateModel>| #[trigger]
            keeps_state(old_parent->0@, store) ==> node_kept(found->0@, store) && keeps_state(
                found->0@,
                store,
            )
        &&& forall|bound: u64| #[trigger]
            ids_below(old_parent->0@, bound) ==> ids_below(found->0@, bound)
    }
}

/// Whether an allocator whose next identifier is `bound` is ahead of the
/// tree under `node`, if there is one.
pub open spec fn below<U>(node: Option<&ComponentTreeNode<U>>, bound: u64) -> bool {
    node is Some ==> ids_below(node->0@, bound)
}

/// Whether an allocator whose next identifier is `bound` is ahead of
/// mounted children.
pub open spec fn children_below<U>(
    nodes: Seq<ShadowModel<U>>,
    keys: Seq<(Seq<char>, u64)>,
    bound: u64,
) -> bool {
    &&& keys_below(keys, bound)
    &&& forall|i: int| 0 <= i < nodes.len() ==> ids_below(#[trigger] nodes[i], bound)
}

/// Whether the store keeps the state of the tree under `node`, if there is
/// one.
pub open spec fn kept<U>(node: Option<&ComponentTreeNode<U>>, store: Map<u64, StateModel>) -> bool {
    node is Some ==> keeps_state(node->0@, store)
}

/// Whether the store keeps the state of mounted children: of every node,
/// and under every identifier recorded with a key.
pub open spec fn children_kept<U>(
    nodes: Seq<ShadowModel<U>>,
    keys: Seq<(Seq<char>, u64)>,
    store: Map<u64, StateModel>,
) -> bool {
    &&& ids_kept(keys, store)
    &&& forall|i: int|
        0 <= i < nodes.len() ==> node_kept(#[trigger] nodes[i], store) && keeps_state(nodes[i], store)
}

/// A fresh identifier, or the error that none is left.
fn fresh_id(ids: &mut IdAllocator) -> (id: Result<u64, ReconcileError>)
    ensures
        match allocate(PassState { store: Map::empty(), next_id: old(ids)@ }) {
            Ok((fresh, after)) => id == Ok::<u64, ReconcileError>(fresh) && final(ids)@ == after.next_id,
            Err(abandoned) => id == Err::<u64, ReconcileError>(abandoned.error) && final(ids)@ == old(ids)@,
        },
{
    match ids.allocate_id() {
        Some(id) => Ok(id),
        None => Err(ReconcileError::IdSpaceExhausted),
    }
}

/// The node of the previous render at position `index` under `old_parent`.
fn positional_node<'a, U>(old_parent: Option<&'a ComponentTreeNode<U>>, index: usize) -> (paired:
    Option<&'a ComponentTreeNode<U>>)
    ensures
        node_model(paired) == positional(node_model(old_parent), index as int),
        kept_below(old_parent, paired),
{
    match old_parent {
        Some(o) => if index < o.children.len() {
            assert(o@.children[index as int] == o.children@[index as int]@);
            Some(&o.children[index])
        } else {
            None
        },
        None => None,
    }
}

/// The node of the previous render that a child under `key` at position
/// `index` is held against: see [`paired`].
fn paired_node<'a, U>(
    old_parent: Option<&'a ComponentTreeNode<U>>,
    key: &Option<String>,
    index: usize,
) -> (found: Option<&'a ComponentTreeNode<U>>)
    ensures
        node_model(found) == paired(node_model(old_parent), text_model(*key), index as int),
        kept_below(old_parent, found),
{
    match (old_parent, key) {
        (Some(o), Some(k)) => {
            assert(o@.children =~= nodes_model(o.children@));
            match find_keyed_child(&o.children, k) {
                Some(j) => {
                    assert(o@.children[j as int] == o.children@[j as int]@);
                    return Some(&o.children[j]);
                },
                None => {},
            }
        },
        _ => {},
    }
    positional_node(old_parent, index)
}

/// Decides the identity of an element: see [`element_identity`].
pub fn resolve_element_identity<'a, U>(
    tag: &str,
    key: &Option<String>,
    index: usize,
    old_parent: Option<&'a ComponentTreeNode<U>>,
    ids: &mut IdAllocator,
) -> (resolved: Result<(u64, Option<&'a ComponentTreeNode<U>>), ReconcileError>)
    ensures
        old(ids)@ <= final(ids)@,
        resolved is Ok ==> kept_below(old_parent, resolved->Ok_0.1),
        resolved is Ok && below(old_parent, old(ids)@) ==> resolved->Ok_0.0 < final(ids)@,
        forall|store: Map<u64, StateModel>|
            match #[trigger] element_identity(
                tag@,
                text_model(*key),
                index as int,
                node_model(old_parent),
                PassState { store, next_id: old(ids)@ },
            ) {
                Ok(identity) => resolved is Ok && resolved->Ok_0.0 == identity.id && node_model(
                    resolved->Ok_0.1,
                ) == identity.previous && identity.state == (PassState { store, next_id: final(ids)@ }),
                Err(abandoned) => resolved == Err::<
                    (u64, Option<&'a ComponentTreeNode<U>>),
                    ReconcileError,
                >(abandoned.error) && abandoned.state == (PassState { store, next_id: final(ids)@ }),
            },
{
    let paired = paired_node(old_parent, key, index);
    let own_tag = tag.to_owned();
    match paired {
        Some(p) => {
            if p.is_element && p.tag == own_tag {
                return Ok((p.id, paired));
            }
        },
        None => {},
    }
    match fresh_id(ids) {
        Ok(id) => Ok((id, None)),
        Err(e) => Err(e),
    }
}

/// Decides the identity of a component and sees to its state: see
/// [`component_identity`]. The component is asked for its initial state
/// only where it is mounted afresh.
pub fn resolve_component_identity<'a, C: Component>(
    component: &C,
    tag: &String,
    key: &Option<String>,
    index: usize,
    old_parent: Option<&'a ComponentTreeNode<C::Update>>,
    store: &mut StateStore,
    ids: &mut IdAllocator,
) -> (resolved: Result<(u64, Option<&'a ComponentTreeNode<C::Update>>), ReconcileError>)
    requires
        kept(old_parent, old(store)@),
    ensures
        only_grows(
            PassState { store: old(store)@, next_id: old(ids)@ },
            PassState { store: final(store)@, next_id: final(ids)@ },
        ),
        resolved is Ok ==> final(store)@.contains_key(resolved->Ok_0.0) && kept_below(
            old_parent,
            resolved->Ok_0.1,
        ),
        resolved is Ok && below(old_parent, old(ids)@) ==> resolved->Ok_0.0 < final(ids)@,
        component_is_function::<C>() ==> match component_identity(
            tag@,
            initial_state_of(*component),
            text_model(*key),
            index as int,
            node_model(old_parent),
            PassState { store: old(store)@, next_id: old(ids)@ },
        ) {
            Ok(identity) => resolved is Ok && resolved->Ok_0.0 == identity.id && node_model(
                resolved->Ok_0.1,
            ) == identity.previous && identity.state == (PassState {
                store: final(store)@,
                next_id: final(ids)@,
            }),
            Err(abandoned) => resolved == Err::<
                (u64, Option<&'a ComponentTreeNode<C::Update>>),
                ReconcileError,
            >(abandoned.error) && abandoned.state == (PassState {
                store: final(store)@,
                next_id: final(ids)@,
            }),
        },
{
    match (key, old_parent) {
        (Some(k), Some(o)) => {
            match find_recorded_id(&o.children_keys, k) {
                Some(id) => {
                    assert(o@.children =~= nodes_model(o.children@));
                    proof {
                        lemma_recorded_id_kept(o@.children_keys, k@, 0, store@);
                        if ids_below(o@, ids@) {
                            lemma_recorded_id_below(o@.children_keys, k@, 0, ids@);
                        }
                    }
                    return match find_keyed_child(&o.children, k) {
                        None => Err(ReconcileError::MalformedShadowTree),
                        Some(j) => {
                            assert(o@.children[j as int] == o.children@[j as int]@);
                            Ok((id, Some(&o.children[j])))
                        },
                    };
                },
                None => {},
            }
        },
        _ => {},
    }
    let paired = paired_node(old_parent, key, index);
    match paired {
        Some(p) => {
            if !p.is_element && p.tag == *tag {
                return Ok((p.id, paired));
            }
        },
        None => {},
    }
    match fresh_id(ids) {
        Ok(id) => {
            let initial = component.initial_state();
            proof {
                if component_is_function::<C>() {
                    lemma_returned_initial_state(*component, initial);
                }
            }
            store.set(id, initial);
            Ok((id, None))
        },
        Err(e) => Err(e),
    }
}

/// Mounts `children` in order under the node with identifier `parent_id`,
/// after the elements that the parent's prototype already holds.
pub fn mount_children<C: Component>(
    children: Vec<ComponentSpecification<C>>,
    previous: Option<&ComponentTreeNode<C::Update>>,
    parent_id: u64,
    own_elements: Vec<Element>,
    store: &mut StateStore,
    ids: &mut IdAllocator,
    depth: usize,
) -> (mounted: Result<
    (Vec<ComponentTreeNode<C::Update>>, Vec<(String, u64)>, Vec<Element>),
    ReconcileError,
>)
    requires
        kept(previous, old(store)@),
    ensures
        only_grows(
            PassState { store: old(store)@, next_id: old(ids)@ },
            PassState { store: final(store)@, next_id: final(ids)@ },
        ),
        mounted is Ok ==> children_in_order(
            nodes_model(mounted->Ok_0.0@),
            keys_model(mounted->Ok_0.1@),
            elements_model(mounted->Ok_0.2@),
            parent_id,
        ) && children_kept(nodes_model(mounted->Ok_0.0@), keys_model(mounted->Ok_0.1@), final(store)@),
        mounted is Ok && below(previous, old(ids)@) ==> children_below(
            nodes_model(mounted->Ok_0.0@),
            keys_model(mounted->Ok_0.1@),
            final(ids)@,
        ),
        component_is_function::<C>() ==> match reconcile_children(
            specifications_model(children@),
            0,
            node_model(previous),
            parent_id,
            MountedChildren {
                nodes: Seq::empty(),
                keys: Seq::empty(),
                elements: elements_model(own_elements@),
                state: PassState { store: old(store)@, next_id: old(ids)@ },
            },
            depth as nat,
        ) {
            Ok(m) => mounted is Ok && nodes_model(mounted->Ok_0.0@) == m.nodes && keys_model(
                mounted->Ok_0.1@,
            ) == m.keys && elements_model(mounted->Ok_0.2@) == m.elements && final(store)@
                == m.state.store && final(ids)@ == m.state.next_id,
            Err(abandoned) => mounted is Err && mounted->Err_0 == abandoned.error && final(store)@
                == abandoned.state.store && final(ids)@ == abandoned.state.next_id,
        },
    decreases depth, specifications_model(children@), children@.len(),
{
    let ghost specifications = specifications_model(children@);
    let ghost old_parent = node_model(previous);
    let ghost start = MountedChildren::<C::Update> {
        nodes: Seq::empty(),
        keys: Seq::empty(),
        elements: elements_model(own_elements@),
        state: PassState { store: old(store)@, next_id: old(ids)@ },
    };
    let ghost target = reconcile_children(
        specifications,
        0,
        old_parent,
        parent_id,
        start,
        depth as nat,
    );
    let count = children.len();
    let mut pending = reversed(children);
    let mut nodes: Vec<ComponentTreeNode<C::Update>> = Vec::new();
    let mut keys: Vec<(String, u64)> = Vec::new();
    let mut elements = own_elements;
    assert(nodes_model(nodes@) =~= Seq::<ShadowModel<C::Update>>::empty());
    assert(keys_model(keys@) =~= Seq::<(Seq<char>, u64)>::empty());
    let mut i: usize = 0;
    while i < count
        invariant
            i <= count,
            count == specifications.len(),
            pending@.len() == count - i,
            old_parent == node_model(previous),
            forall|j: int| 0 <= j < count - i ==> (#[trigger] pending@[j])@ == specifications[count - 1 - j],
            component_is_function::<C>() ==> target == reconcile_children(
                specifications,
                i as int,
                old_parent,
                parent_id,
                MountedChildren {
                    nodes: nodes_model(nodes@),
                    keys: keys_model(keys@),
                    elements: elements_model(elements@),
                    state: PassState { store: store@, next_id: ids@ },
                },
                depth as nat,
            ),
            specifications == specifications_model(children@),
            only_grows(start.state, PassState { store: store@, next_id: ids@ }),
            children_in_order(
                nodes_model(nodes@),
                keys_model(keys@),
                elements_model(elements@),
                parent_id,
            ),
            kept(previous, store@),
            children_kept(nodes_model(nodes@), keys_model(keys@), store@),
            old(ids)@ <= ids@,
            below(previous, old(ids)@) ==> below(previous, ids@) && children_below(
                nodes_model(nodes@),
                keys_model(keys@),
                ids@,
            ),
            target == reconcile_children(specifications, 0, old_parent, parent_id, start, depth as nat),
            start == (MountedChildren::<C::Update> {
                nodes: Seq::empty(),
                keys: Seq::empty(),
                elements: elements_model(own_elements@),
                state: PassState { store: old(store)@, next_id: old(ids)@ },
            }),
        decreases count - i,
    {
        let child = match pending.pop() {
            Some(child) => child,
            None => {
                return Err(ReconcileError::MalformedShadowTree);
            },
        };
        let recorded: Option<String> = match &child.component {
            ComponentOrElement::ComponentSpec(_) => clone_text(&child.key),
            ComponentOrElement::Element(_) => None,
        };
        match &child.key {
            Some(k) => {
                if find_keyed_child(&nodes, k).is_some() {
                    return Err(ReconcileError::DuplicateKey);
                }
            },
            None => {},
        }
        let ghost before_nodes = nodes_model(nodes@);
        let ghost before_keys = keys_model(keys@);
        let ghost before_elements = elements_model(elements@);
        let ghost before_store = store@;
        let ghost before_ids = ids@;
        match mount_node(child, i, previous, parent_id, store, ids, depth) {
            Err(e) => {
                return Err(e);
            },
            Ok((node, element)) => {
                match recorded {
                    Some(k) => {
                        keys.push((k, node.id));
                    },
                    None => {},
                }
                assert(keys_model(keys@) =~= record(before_keys, specifications[i as int], node@.id));
                nodes.push(node);
                elements.push(element);
                assert(nodes_model(nodes@) =~= before_nodes.push(node@));
                assert(elements_model(elements@) =~= before_elements.push(element@));
                proof {
                    let after_nodes = before_nodes.push(node@);
                    let after_elements = before_elements.push(element@);
                    match previous {
                        Some(p) => {
                            lemma_keeps_state_grows(p@, before_store, store@);
                        },
                        None => {},
                    }
                    assert forall|j: int| 0 <= j < after_nodes.len() implies node_kept(
                        #[trigger] after_nodes[j],
                        store@,
                    ) && keeps_state(after_nodes[j], store@) by {
                        if j < before_nodes.len() {
                            assert(after_nodes[j] == before_nodes[j]);
                            lemma_keeps_state_grows(before_nodes[j], before_store, store@);
                        }
                    }
                    assert forall|j: int| 0 <= j < keys_model(keys@).len() implies store@.contains_key(
                        (#[trigger] keys_model(keys@)[j]).1,
                    ) by {
                        if j < before_keys.len() {
                            assert(keys_model(keys@)[j] == before_keys[j]);
                        }
                    }
                    if below(previous, old(ids)@) {
                        match previous {
                            Some(p) => {
                                lemma_ids_below_grows(p@, before_ids, ids@);
                            },
                            None => {},
                        }
                        assert forall|j: int| 0 <= j < after_nodes.len() implies ids_below(
                            #[trigger] after_nodes[j],
                            ids@,
                        ) by {
                            if j < before_nodes.len() {
                                assert(after_nodes[j] == before_nodes[j]);
                                lemma_ids_below_grows(before_nodes[j], before_ids, ids@);
                            }
                        }
                        assert forall|j: int| 0 <= j < keys_model(keys@).len() implies (
                        #[trigger] keys_model(keys@)[j]).1 < ids@ by {
                            if j < before_keys.len() {
                                assert(keys_model(keys@)[j] == before_keys[j]);
                            }
                        }
                    }
                    lemma_record_child(before_nodes, before_keys, specifications[i as int], node@);
                    assert forall|j: int| 0 <= j < after_nodes.len() implies {
                        &&& (#[trigger] after_nodes[j]).parent_id == Some(parent_id)
                        &&& well_formed(after_nodes[j])
                        &&& resolves_to(
                            after_nodes[j],
                            after_elements[after_elements.len() - after_nodes.len() + j],
                        )
                    } by {
                        if j < before_nodes.len() {
                            assert(after_nodes[j] == before_nodes[j]);
                            assert(after_elements[after_elements.len() - after_nodes.len() + j]
                                == before_elements[before_elements.len() - before_nodes.len() + j]);
                        }
                    }
                }
            },
        }
        i += 1;
    }
    Ok((nodes, keys, elements))
}

/// Finishes a component whose factory has returned `rendered`: see
/// [`reconcile_rendered`].
pub fn mount_rendered<C: Component>(
    rendered: ViewResult<C, C::Update>,
    key: Option<String>,
    tag: String,
    id: u64,
    previous: Option<&ComponentTreeNode<C::Update>>,
    parent_id: u64,
    store: &mut StateStore,
    ids: &mut IdAllocator,
    depth: usize,
) -> (mounted: Result<(ComponentTreeNode<C::Update>, Element), ReconcileError>)
    requires
        kept(previous, old(store)@),
    ensures
        only_grows(
            PassState { store: old(store)@, next_id: old(ids)@ },
            PassState { store: final(store)@, next_id: final(ids)@ },
        ),
        mounted is Ok ==> {
            let node = mounted->Ok_0.0;
            &&& !node.is_element
            &&& node_kept(node@, final(store)@)
            &&& keeps_state(node@, final(store)@)
            &&& below(previous, old(ids)@) && id < old(ids)@ ==> ids_below(node@, final(ids)@)
            &&& node.id == id
            &&& node.parent_id == Some(parent_id)
            &&& text_model(node.key) == text_model(key)
            &&& node.tag@ == tag@
            &&& node.children@.len() == 1
            &&& well_formed(node@)
            &&& resolves_to(node@, mounted->Ok_0.1@)
        },
        component_is_function::<C>() ==> mounted_as(
            mounted,
            reconcile_rendered(
                rendered@,
                text_model(key),
                tag@,
                Identity {
                    id,
                    previous: node_model(previous),
                    state: PassState { store: old(store)@, next_id: old(ids)@ },
                },
                parent_id,
                depth as nat,
            ),
            final(store)@,
            final(ids)@,
        ),
    decreases depth, rendered@.specification, 1nat,
{
    let ViewResult { state, specification, update } = rendered;
    store.set(id, state);
    assert(store@.contains_key(id));
    proof {
        match previous {
            Some(p) => {
                lemma_keeps_state_grows(p@, old(store)@, store@);
            },
            None => {},
        }
    }
    let recorded: Option<String> = match &specification.component {
        ComponentOrElement::ComponentSpec(_) => clone_text(&specification.key),
        ComponentOrElement::Element(_) => None,
    };
    match mount_node(specification, 0, previous, id, store, ids, depth) {
        Err(e) => Err(e),
        Ok((inner, element)) => {
            let mut keys: Vec<(String, u64)> = Vec::new();
            match recorded {
                Some(k) => {
                    keys.push((k, inner.id));
                },
                None => {},
            }
            assert(keys_model(keys@) =~= record(Seq::empty(), specification@, inner@.id));
            let mut children: Vec<ComponentTreeNode<C::Update>> = Vec::new();
            children.push(inner);
            let node = ComponentTreeNode {
                is_element: false,
                key,
                tag,
                update,
                children,
                children_keys: keys,
                id,
                parent_id: Some(parent_id),
            };
            assert(node@.children =~= seq![inner@]);
            proof {
                let none = Seq::<ShadowModel<C::Update>>::empty();
                lemma_record_child(none, Seq::empty(), specification@, inner@);
                assert(none.push(inner@) =~= seq![inner@]);
                assert(node@.children_keys == keys_model(keys@));
                assert forall|j: int| 0 <= j < node@.children_keys.len() implies store@.contains_key(
                    (#[trigger] node@.children_keys[j]).1,
                ) by {
                    assert(node@.children_keys[j].1 == inner@.id);
                }
                assert forall|j: int| 0 <= j < node@.children.len() implies node_kept(
                    #[trigger] node@.children[j],
                    store@,
                ) && keeps_state(node@.children[j], store@) by {
                    assert(node@.children[j] == inner@);
                }
            }
            Ok((node, element))
        },
    }
}

/// Mounts one specification: see [`reconcile_node`].
pub fn mount_node<C: Component>(
    specification: ComponentSpecification<C>,
    index: usize,
    old_parent: Option<&ComponentTreeNode<C::Update>>,
    parent_id: u64,
    store: &mut StateStore,
    ids: &mut IdAllocator,
    depth: usize,
) -> (mounted: Result<(ComponentTreeNode<C::Update>, Element), ReconcileError>)
    requires
        kept(old_parent, old(store)@),
    ensures
        only_grows(
            PassState { store: old(store)@, next_id: old(ids)@ },
            PassState { store: final(store)@, next_id: final(ids)@ },
        ),
        mounted is Ok ==> {
            let node = mounted->Ok_0.0;
            let element = mounted->Ok_0.1;
            &&& node_kept(node@, final(store)@)
            &&& keeps_state(node@, final(store)@)
            &&& below(old_parent, old(ids)@) ==> ids_below(node@, final(ids)@)
            &&& node.is_element == (specification@.content is Element)
            &&& node.parent_id == Some(parent_id)
            &&& text_model(node.key) == specification@.key
            &&& !node.is_element ==> node.children@.len() == 1
            &&& well_formed(node@)
            &&& resolves_to(node@, element@)
            &&& specification@.content matches ContentModel::Element(prototype) ==> {
                &&& element.component_id == node.id
                &&& node.tag@ == kind_name(prototype.kind)
                &&& (ElementModel {
                    component_id: prototype.component_id,
                    children: prototype.children,
                    ..element@
                }) == prototype
            }
        },
        component_is_function::<C>() ==> mounted_as(
            mounted,
            reconcile_node(
                specification@,
                index as int,
                node_model(old_parent),
                parent_id,
                PassState { store: old(store)@, next_id: old(ids)@ },
                depth as nat,
            ),
            final(store)@,
            final(ids)@,
        ),
    decreases depth, specification@, 0nat,
{
    let ghost model = specification@;
    let ComponentSpecification { component, key, props, children } = specification;
    assert(model.children =~= specifications_model(children@));
    match component {
        ComponentOrElement::Element(prototype) => {
            if !Element::accepts_children(prototype.kind) && children.len() > 0 {
                return Err(ReconcileError::ChildrenNotAccepted { kind: prototype.kind, index });
            }
            let (id, previous) = match resolve_element_identity(
                prototype.name(),
                &key,
                index,
                old_parent,
                ids,
            ) {
                Ok(identity) => identity,
                Err(e) => {
                    return Err(e);
                },
            };
            proof {
                match previous {
                    Some(p) => {
                        if ids_below(old_parent->0@, old(ids)@) {
                            lemma_ids_below_grows(p@, old(ids)@, ids@);
                        }
                    },
                    None => {},
                }
            }
            let ghost shell = prototype@;
            let Element { kind, content, style, children: own_elements, id: user_id, component_id: _ } =
                prototype;
            assert(shell.children =~= elements_model(own_elements@));
            match mount_children(children, previous, id, own_elements, store, ids, depth) {
                Err(e) => Err(e),
                Ok((nodes, keys, elements)) => {
                    let node = ComponentTreeNode {
                        is_element: true,
                        key,
                        tag: Element::kind_tag(kind),
                        update: None,
                        children: nodes,
                        children_keys: keys,
                        id,
                        parent_id: Some(parent_id),
                    };
                    let element = Element {
                        kind,
                        content,
                        style,
                        children: elements,
                        id: user_id,
                        component_id: id,
                    };
                    assert(node@.children =~= nodes_model(nodes@));
                    assert(element@.children =~= elements_model(elements@));
                    Ok((node, element))
                },
            }
        },
        ComponentOrElement::ComponentSpec(component) => {
            if depth == 0 {
                return Err(ReconcileError::NestingTooDeep);
            }
            let tag = component.tag();
            proof {
                if component_is_function::<C>() {
                    lemma_returned_tag(component, tag);
                }
            }
            let (id, previous) = match resolve_component_identity(
                &component,
                &tag,
                &key,
                index,
                old_parent,
                store,
                ids,
            ) {
                Ok(identity) => identity,
                Err(e) => {
                    return Err(e);
                },
            };
            match previous {
                Some(p) => {
                    proof {
                        lemma_keeps_state_grows(old_parent->0@, old(store)@, store@);
                        if ids_below(old_parent->0@, old(ids)@) {
                            lemma_ids_below_grows(p@, old(ids)@, ids@);
                        }
                    }
                    if p.children.len() == 0 {
                        return Err(ReconcileError::MalformedShadowTree);
                    }
                },
                None => {},
            }
            let rendered = match store.get(id) {
                Some(state) => {
                    let rendered = component.view(state, props, children, id);
                    proof {
                        if component_is_function::<C>() {
                            lemma_returned_view(component, *state, props, children, id, rendered);
                        }
                    }
                    rendered
                },
                None => vstd::pervasive::unreached(),
            };
            mount_rendered(rendered, key, tag, id, previous, parent_id, store, ids, depth - 1)
        },
    }
}

/// Creates the trees of one render as [`create_trees_from_render_specification`]
/// does, with `depth_limit` in place of `MAX_COMPONENT_DEPTH` as the number
/// of components that may render one another, one inside the next. Every
/// such component costs one level of the call stack, so the limit is to be
/// chosen by the stack that the caller has.
pub fn create_trees_within_depth<C: Component>(
    component_specification: ComponentSpecification<C>,
    root_element: Element,
    old_component_tree: Option<&ComponentTreeNode<C::Update>>,
    user_state: &mut StateStore,
    ids: &mut IdAllocator,
    depth_limit: usize,
) -> (trees: Result<(ComponentTreeNode<C::Update>, Element), ReconcileError>)
    requires
        kept(old_component_tree, old(user_state)@),
    ensures
        only_grows(
            PassState { store: old(user_state)@, next_id: old(ids)@ },
            PassState { store: final(user_state)@, next_id: final(ids)@ },
        ),
        trees is Ok ==> keeps_state(trees->Ok_0.0@, final(user_state)@),
        trees is Ok && below(old_component_tree, old(ids)@) ==> ids_below(trees->Ok_0.0@, final(ids)@),
        old_component_tree is Some && old_component_tree->0.children@.len() == 0 ==> trees == Err::<
            (ComponentTreeNode<C::Update>, Element),
            ReconcileError,
        >(ReconcileError::MalformedShadowTree) && final(user_state)@ == old(user_state)@ && final(ids)@
            == old(ids)@,
        trees is Ok ==> {
            let tree = trees->Ok_0.0;
            let element = trees->Ok_0.1;
            &&& !tree.is_element
            &&& tree.id == 0
            &&& tree.parent_id.is_none()
            &&& tree.key.is_none()
            &&& tree.tag@ == root_tag()
            &&& tree.children@.len() == 1
            &&& tree.children@[0].is_element
            &&& tree.children@[0].parent_id == Some(0u64)
            &&& tree.children_keys@.len() == 0
            &&& element@.children.len() == root_element@.children.len() + 1
            &&& element@.children.drop_last() == root_element@.children
            &&& (ElementModel { children: root_element@.children, ..element@ }) == root_element@
            &&& element@.children.last().component_id == tree.children@[0].id
            &&& well_formed(tree@)
            &&& resolves_to(tree@.children[0], element@.children.last())
        },
        component_is_function::<C>() ==> mounted_as(
            trees,
            reconcile(
                component_specification@,
                root_element@,
                node_model(old_component_tree),
                PassState { store: old(user_state)@, next_id: old(ids)@ },
                depth_limit as nat,
            ),
            final(user_state)@,
            final(ids)@,
        ),
{
    match old_component_tree {
        Some(o) => {
            if o.children.len() == 0 {
                return Err(ReconcileError::MalformedShadowTree);
            }
        },
        None => {},
    }
    let prototype = root_element.duplicate();
    let mut specifications: Vec<ComponentSpecification<C>> = Vec::new();
    specifications.push(component_specification);
    let root_specification = ComponentSpecification {
        component: ComponentOrElement::Element(prototype),
        key: None,
        props: None,
        children: specifications,
    };
    assert(root_specification@.children =~= seq![component_specification@]);
    match mount_node(root_specification, 0, old_component_tree, 0, user_state, ids, depth_limit) {
        Err(e) => Err(e),
        Ok((node, element)) => {
            let mut children: Vec<ComponentTreeNode<C::Update>> = Vec::new();
            children.push(node);
            let tree = ComponentTreeNode {
                is_element: false,
                key: None,
                tag: "root".to_owned(),
                update: None,
                children,
                children_keys: Vec::new(),
                id: 0,
                parent_id: None,
            };
            assert(tree@.children =~= seq![node@]);
            assert(tree@.children_keys =~= Seq::<(Seq<char>, u64)>::empty());
            let mut root = root_element;
            root.children.push(element);
            assert(root@.children =~= root_element@.children.push(element@));
            Ok((tree, root))
        },
    }
}

/// Creates the shadow tree and the element tree of one render from the
/// specification that user code declared, the root element, and the shadow
/// tree of the previous render.
///
/// Identifiers are stable across renders: a node keeps the identifier of the
/// node of the previous render that it continues, and every other node gets
/// a fresh one from `ids`. The state of each component is read from and
/// written back to `user_state` under the component's identifier.
///
/// A component that continues a node of the previous render goes on from
/// the state stored under the node's identifier: the pass is only run over
/// a store that keeps the state of the previous tree, see [`keeps_state`],
/// and it leaves a store that keeps the state of the new one.
///
/// Whatever the components return, the shadow tree is well formed, the
/// element tree holds an element for each of its element nodes and none for
/// a component, no identifier is handed out twice and no state is dropped.
/// For components that are functions of their arguments the trees, the
/// store and the allocator are exactly what [`reconcile`] says, also where
/// the pass is abandoned.
///
/// Components may render one another `MAX_COMPONENT_DEPTH` deep, which a
/// thread's usual stack carries; [`create_trees_within_depth`] takes another
/// limit.
pub fn create_trees_from_render_specification<C: Component>(
    component_specification: ComponentSpecification<C>,
    root_element: Element,
    old_component_tree: Option<&ComponentTreeNode<C::Update>>,
    user_state: &mut StateStore,
    ids: &mut IdAllocator,
) -> (trees: Result<(ComponentTreeNode<C::Update>, Element), ReconcileError>)
    requires
        kept(old_component_tree, old(user_state)@),
    ensures
        only_grows(
            PassState { store: old(user_state)@, next_id: old(ids)@ },
            PassState { store: final(user_state)@, next_id: final(ids)@ },
        ),
        trees is Ok ==> keeps_state(trees->Ok_0.0@, final(user_state)@),
        trees is Ok && below(old_component_tree, old(ids)@) ==> ids_below(trees->Ok_0.0@, final(ids)@),
        old_component_tree is Some && old_component_tree->0.children@.len() == 0 ==> trees == Err::<
            (ComponentTreeNode<C::Update>, Element),
            ReconcileError,
        >(ReconcileError::MalformedShadowTree) && final(user_state)@ == old(user_state)@ && final(ids)@
            == old(ids)@,
        trees is Ok ==> {
            let tree = trees->Ok_0.0;
            let element = trees->Ok_0.1;
            &&& !tree.is_element
            &&& tree.id == 0
            &&& tree.parent_id.is_none()
            &&& tree.key.is_none()
            &&& tree.tag@ == root_tag()
            &&& tree.children@.len() == 1
            &&& tree.children@[0].is_element
            &&& tree.children@[0].parent_id == Some(0u64)
            &&& tree.children_keys@.len() == 0
            &&& element@.children.len() == root_element@.children.len() + 1
            &&& element@.children.drop_last() == root_element@.children
            &&& (ElementModel { children: root_element@.children, ..element@ }) == root_element@
            &&& element@.children.last().component_id == tree.children@[0].id
            &&& well_formed(tree@)
            &&& resolves_to(tree@.children[0], element@.children.last())
        },
        component_is_function::<C>() ==> mounted_as(
            trees,
            reconcile(
                component_specification@,
                root_element@,
                node_model(old_component_tree),
                PassState { store: old(user_state)@, next_id: old(ids)@ },
                MAX_COMPONENT_DEPTH as nat,
            ),
            final(user_state)@,
            final(ids)@,
        ),
{
    create_trees_within_depth(
        component_specification,
        root_element,
        old_component_tree,
        user_state,
        ids,
        MAX_COMPONENT_DEPTH,
    )
}

} // verus!
