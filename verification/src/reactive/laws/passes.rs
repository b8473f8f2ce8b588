//! State persists over any number of passes: a component that stays where
//! it is sees, pass after pass, the state that it left.

use vstd::prelude::*;
use crate::components::component::{
    initial_state_of,
    rendered_by,
    tag_of,
    Component,
    ContentModel,
    SpecificationModel,
};
use crate::components::props::{PropsModel, StateModel};
use crate::elements::element::{kind_name, ElementModel};
use crate::reactive::laws::freshness::starts_afresh;
use crate::reactive::laws::state::{holds_id, lemma_component_goes_on, lemma_component_state_persists};
use crate::reactive::laws::well_formed::{
    lemma_node_reflects_specification,
    lemma_pass_well_formed,
    well_formed,
};
use crate::reactive::reconcile::{
    element_identity,
    reconcile,
    reconcile_children,
    reconcile_node,
    Mounted,
    MountedChildren,
    PassState,
};
use crate::reactive::tree::ShadowModel;

verus! {

/// What the last of `passes` consecutive passes over the same specification
/// yields, each run over the shadow tree and the state that the pass before
/// left; nothing if there is no pass, or one of them is abandoned.
pub open spec fn after_passes<C: Component>(
    specification: SpecificationModel<C>,
    root: ElementModel,
    old_tree: Option<ShadowModel<C::Update>>,
    state: PassState,
    depth: nat,
    passes: nat,
) -> Option<Mounted<C::Update>>
    decreases passes,
{
    if passes == 0 {
        None
    } else if passes == 1 {
        match reconcile(specification, root, old_tree, state, depth) {
            Ok(m) => Some(m),
            Err(_) => None,
        }
    } else {
        match after_passes(specification, root, old_tree, state, depth, (passes - 1) as nat) {
            Some(before) => match reconcile(specification, root, Some(before.node), before.state, depth) {
                Ok(m) => Some(m),
                Err(_) => None,
            },
            None => None,
        }
    }
}

/// `step` applied `times` times to `start`.
pub open spec fn applied(step: spec_fn(StateModel) -> StateModel, start: StateModel, times: nat) -> StateModel
    decreases times,
{
    if times == 0 {
        start
    } else {
        step(applied(step, start, (times - 1) as nat))
    }
}

/// The node of the application's specification in the shadow tree of a
/// pass: the only child of the node of the root element.
pub open spec fn application_node<U>(tree: ShadowModel<U>) -> ShadowModel<U> {
    tree.children[0].children[0]
}

/// Whether, in each of the first `passes` passes, no node under the
/// application's component has the identifier `id`.
pub open spec fn component_alone<C: Component>(
    specification: SpecificationModel<C>,
    root: ElementModel,
    old_tree: Option<ShadowModel<C::Update>>,
    state: PassState,
    depth: nat,
    passes: nat,
    id: u64,
) -> bool {
    forall|k: nat|
        1 <= k <= passes ==> !holds_id(
            application_node(
                (#[trigger] after_passes(specification, root, old_tree, state, depth, k))->0.node,
            ).children[0],
            id,
        )
}

/// What one pass makes of the application's specification, where that is a
/// component: the pass mounts it as the only child of the root element's
/// node, and leaves the state that mounting it left.
proof fn lemma_pass_mounts_application<C: Component>(
    specification: SpecificationModel<C>,
    root: ElementModel,
    old_tree: Option<ShadowModel<C::Update>>,
    state: PassState,
    depth: nat,
)
    requires
        reconcile(specification, root, old_tree, state, depth) is Ok,
    ensures
        ({
            let m = reconcile(specification, root, old_tree, state, depth)->Ok_0;
            let root_specification = SpecificationModel {
                content: ContentModel::<C>::Element(root),
                key: None,
                props: None,
                children: seq![specification],
            };
            let identity = element_identity::<C::Update>(
                kind_name(root.kind),
                None,
                0,
                old_tree,
                state,
            )->Ok_0;
            let mounted = reconcile_node(specification, 0, identity.previous, identity.id, identity.state, depth);
            &&& element_identity::<C::Update>(
                kind_name(root.kind),
                None,
                0,
                old_tree,
                state,
            ) is Ok
            &&& mounted is Ok
            &&& m.node.children.len() == 1
            &&& m.node.children[0].is_element
            &&& m.node.children[0].tag == kind_name(root.kind)
            &&& m.node.children[0].children.len() == 1
            &&& application_node(m.node) == mounted->Ok_0.node
            &&& m.state == mounted->Ok_0.state
            &&& old_tree is Some ==> old_tree->0.children.len() > 0
        }),
{
    let root_specification = SpecificationModel {
        content: ContentModel::<C>::Element(root),
        key: None,
        props: None,
        children: seq![specification],
    };
    let identity = element_identity::<C::Update>(
        kind_name(root.kind),
        None,
        0,
        old_tree,
        state,
    )->Ok_0;
    let start = MountedChildren::<C::Update> {
        nodes: Seq::empty(),
        keys: Seq::empty(),
        elements: root.children,
        state: identity.state,
    };
    reveal_with_fuel(reconcile_children, 3);
    let after = reconcile_children(root_specification.children, 0, identity.previous, identity.id, start, depth);
    assert(root_specification.children[0] == specification);
    assert(after is Ok);
    let mounted = reconcile_node(specification, 0, identity.previous, identity.id, identity.state, depth)->Ok_0;
    assert(after->Ok_0.nodes =~= seq![mounted.node]);
}

/// State persists: where the application's specification is a component
/// whose factory returns `step` of the state it is given, and no node under
/// the component shares its identifier, `passes` consecutive passes that all
/// go through keep the component's identifier, and leave under it `step`
/// applied `passes` times to the state that the first pass found: the
/// component's initial state where the first pass mounted it afresh.
pub proof fn lemma_state_counts_passes<C: Component>(
    component: C,
    specification: SpecificationModel<C>,
    root: ElementModel,
    old_tree: Option<ShadowModel<C::Update>>,
    state: PassState,
    depth: nat,
    passes: nat,
    step: spec_fn(StateModel) -> StateModel,
)
    requires
        passes >= 1,
        specification.content == ContentModel::Component(component),
        forall|given: StateModel, props: Option<PropsModel>, children: Seq<SpecificationModel<C>>, id: u64|
            (#[trigger] rendered_by(component, given, props, children, id)).state == step(given),
        after_passes(specification, root, old_tree, state, depth, passes) is Some,
        component_alone(
            specification,
            root,
            old_tree,
            state,
            depth,
            passes,
            application_node(after_passes(specification, root, old_tree, state, depth, 1)->0.node).id,
        ),
    ensures
        ({
            let first = after_passes(specification, root, old_tree, state, depth, 1)->0;
            let last = after_passes(specification, root, old_tree, state, depth, passes)->0;
            let id = application_node(first.node).id;
            let root_identity = element_identity::<C::Update>(
                kind_name(root.kind),
                None,
                0,
                old_tree,
                state,
            )->Ok_0;
            let found = if starts_afresh(specification, 0, root_identity.previous) {
                initial_state_of(component)
            } else {
                state.store[id]
            };
            &&& after_passes(specification, root, old_tree, state, depth, 1) is Some
            &&& application_node(last.node).id == id
            &&& last.state.store.contains_key(id)
            &&& last.state.store[id] == applied(step, found, passes)
        }),
    decreases passes,
{
    let first = after_passes(specification, root, old_tree, state, depth, 1);
    if passes == 1 {
        lemma_pass_mounts_application(specification, root, old_tree, state, depth);
        let root_identity = element_identity::<C::Update>(
            kind_name(root.kind),
            None,
            0,
            old_tree,
            state,
        )->Ok_0;
        assert(after_passes(specification, root, old_tree, state, depth, 1 as nat) is Some);
        lemma_component_state_persists(
            component,
            specification,
            0,
            root_identity.previous,
            root_identity.id,
            root_identity.state,
            depth,
        );
        reveal_with_fuel(applied, 2);
    } else {
        let before = after_passes(specification, root, old_tree, state, depth, (passes - 1) as nat)->0;
        assert(after_passes(specification, root, old_tree, state, depth, (passes - 1) as nat) is Some);
        assert forall|k: nat| 1 <= k <= passes - 1 implies !holds_id(
            application_node(
                (#[trigger] after_passes(specification, root, old_tree, state, depth, k))->0.node,
            ).children[0],
            application_node(first->0.node).id,
        ) by {
            assert(1 <= k <= passes);
        }
        lemma_state_counts_passes(
            component,
            specification,
            root,
            old_tree,
            state,
            depth,
            (passes - 1) as nat,
            step,
        );
        let id = application_node(first->0.node).id;
        lemma_last_pass_is_a_pass(specification, root, old_tree, state, depth, (passes - 1) as nat);
        lemma_pass_mounts_application(specification, root, Some(before.node), before.state, depth);
        let root_identity = element_identity::<C::Update>(
            kind_name(root.kind),
            None,
            0,
            Some(before.node),
            before.state,
        )->Ok_0;
        let previous_root = before.node.children[0];
        assert(root_identity.previous == Some(previous_root));
        assert(root_identity.state == before.state);
        assert(1 <= passes <= passes);
        lemma_component_goes_on(
            component,
            specification,
            0,
            previous_root,
            root_identity.id,
            before.state,
            depth,
        );
    }
}

/// The shadow tree that the last of some passes left is one that a pass
/// yields: the node of the root element, well formed, with the application's
/// node as its only child.
proof fn lemma_last_pass_is_a_pass<C: Component>(
    specification: SpecificationModel<C>,
    root: ElementModel,
    old_tree: Option<ShadowModel<C::Update>>,
    state: PassState,
    depth: nat,
    passes: nat,
)
    requires
        passes >= 1,
        after_passes(specification, root, old_tree, state, depth, passes) is Some,
    ensures
        ({
            let last = after_passes(specification, root, old_tree, state, depth, passes)->0;
            let root_node = last.node.children[0];
            &&& last.node.children.len() == 1
            &&& root_node.is_element
            &&& root_node.tag == kind_name(root.kind)
            &&& root_node.children.len() == 1
            &&& well_formed(root_node)
            &&& root_node.children[0].key == specification.key
            &&& root_node.children[0].is_element == (specification.content is Element)
            &&& specification.content matches ContentModel::Component(component) ==> root_node.children[0].tag
                == tag_of(component)
        }),
{
    let (tree, before) = if passes == 1 {
        (old_tree, state)
    } else {
        let b = after_passes(specification, root, old_tree, state, depth, (passes - 1) as nat)->0;
        (Some(b.node), b.state)
    };
    assert(reconcile(specification, root, tree, before, depth) is Ok);
    lemma_pass_mounts_application(specification, root, tree, before, depth);
    lemma_pass_well_formed(specification, root, tree, before, depth);
    let identity = element_identity::<C::Update>(
        kind_name(root.kind),
        None,
        0,
        tree,
        before,
    )->Ok_0;
    lemma_node_reflects_specification(specification, 0, identity.previous, identity.id, identity.state, depth);
}

} // verus!
