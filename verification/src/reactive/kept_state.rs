//! What a pass needs of the store: state for every component that it may
//! continue.

use vstd::prelude::*;
use crate::components::props::StateModel;
use crate::reactive::state_store::StateStore;
use crate::reactive::tree::{keys_model, recorded_id, ComponentTreeNode, ShadowModel};

verus! {

/// Whether the store holds an entry under every identifier recorded in
/// `keys`.
pub open spec fn ids_kept(keys: Seq<(Seq<char>, u64)>, store: Map<u64, StateModel>) -> bool {
    forall|i: int| 0 <= i < keys.len() ==> store.contains_key((#[trigger] keys[i]).1)
}

/// Whether the store holds the state of `node`, if the node is a component.
pub open spec fn node_kept<U>(node: ShadowModel<U>, store: Map<u64, StateModel>) -> bool {
    !node.is_element ==> store.contains_key(node.id)
}

/// Whether the store holds state for every component that a pass over the
/// tree under `node` may continue: for every node under `node` that is no
/// element, and under every identifier that a node of the tree recorded
/// with a key. A pass is only run over a store that keeps the state of the
/// previous tree, and leaves one that keeps the state of the new tree.
pub open spec fn keeps_state<U>(node: ShadowModel<U>, store: Map<u64, StateModel>) -> bool
    decreases node,
{
    &&& ids_kept(node.children_keys, store)
    &&& forall|i: int|
        0 <= i < node.children.len() ==> node_kept(#[trigger] node.children[i], store) && keeps_state(
            node.children[i],
            store,
        )
}

/// Whether every entry of `before` is an entry of `after`.
pub open spec fn covers(before: Map<u64, StateModel>, after: Map<u64, StateModel>) -> bool {
    forall|id: u64| before.contains_key(id) ==> after.contains_key(id)
}

/// A store that only grew keeps the state it kept.
pub proof fn lemma_keeps_state_grows<U>(
    node: ShadowModel<U>,
    before: Map<u64, StateModel>,
    after: Map<u64, StateModel>,
)
    requires
        keeps_state(node, before),
        covers(before, after),
    ensures
        keeps_state(node, after),
    decreases node,
{
    assert forall|i: int| 0 <= i < node.children.len() implies node_kept(
        #[trigger] node.children[i],
        after,
    ) && keeps_state(node.children[i], after) by {
        lemma_keeps_state_grows(node.children[i], before, after);
    }
}

/// An identifier found under a key is one of those recorded.
pub proof fn lemma_recorded_id_kept(
    keys: Seq<(Seq<char>, u64)>,
    key: Seq<char>,
    from: int,
    store: Map<u64, StateModel>,
)
    requires
        0 <= from,
        ids_kept(keys, store),
        recorded_id(keys, key, from) is Some,
    ensures
        store.contains_key(recorded_id(keys, key, from)->0),
    decreases keys.len() - from,
{
    if from < keys.len() && keys[from].0 != key {
        lemma_recorded_id_kept(keys, key, from + 1, store);
    }
}

/// Whether the store keeps the state of the tree under `node`: the test to
/// make before a pass is run over the tree.
pub fn state_is_kept<U>(node: &ComponentTreeNode<U>, store: &StateStore) -> (kept: bool)
    ensures
        kept == keeps_state(node@, store@),
    decreases node,
{
    let mut i: usize = 0;
    while i < node.children_keys.len()
        invariant
            i <= node.children_keys@.len(),
            node@.children_keys == keys_model(node.children_keys@),
            forall|j: int| 0 <= j < i ==> store@.contains_key((#[trigger] node@.children_keys[j]).1),
        decreases node.children_keys@.len() - i,
    {
        if !store.contains(node.children_keys[i].1) {
            assert(!store@.contains_key(node@.children_keys[i as int].1));
            return false;
        }
        i += 1;
    }
    let mut c: usize = 0;
    while c < node.children.len()
        invariant
            c <= node.children@.len(),
            node@.children.len() == node.children@.len(),
            ids_kept(node@.children_keys, store@),
            forall|j: int|
                0 <= j < c ==> node_kept(#[trigger] node@.children[j], store@) && keeps_state(
                    node@.children[j],
                    store@,
                ),
        decreases node.children@.len() - c,
    {
        let child = &node.children[c];
        assert(child@ == node@.children[c as int]);
        if !child.is_element && !store.contains(child.id) {
            return false;
        }
        if !state_is_kept(child, store) {
            return false;
        }
        c += 1;
    }
    true
}

} // verus!
