//! Dropping the state of components that are no longer mounted.

use vstd::prelude::*;
use crate::reactive::state_store::StateStore;
use crate::reactive::tree::{ComponentTreeNode, ShadowModel};

verus! {

/// Whether the tree under `node` holds a node that is no element and has
/// the identifier `id`: the root, or a mounted component.
pub open spec fn mounts_component<U>(node: ShadowModel<U>, id: u64) -> bool
    decreases node,
{
    ||| !node.is_element && node.id == id
    ||| exists|i: int| 0 <= i < node.children.len() && mounts_component(#[trigger] node.children[i], id)
}

/// Whether `id` is among `ids`.
pub open spec fn listed(ids: Seq<u64>, id: u64) -> bool {
    exists|j: int| 0 <= j < ids.len() && #[trigger] ids[j] == id
}

/// Whether one of the first `upto` of `children` mounts a component with
/// the identifier `id`.
pub open spec fn mounts_among<U>(children: Seq<ShadowModel<U>>, upto: int, id: u64) -> bool {
    exists|k: int| 0 <= k < upto && k < children.len() && mounts_component(#[trigger] children[k], id)
}

proof fn lemma_mounts_among_next<U>(children: Seq<ShadowModel<U>>, upto: int, id: u64)
    requires
        0 <= upto < children.len(),
    ensures
        mounts_among(children, upto + 1, id) <==> mounts_among(children, upto, id) || mounts_component(
            children[upto],
            id,
        ),
{
}

proof fn lemma_listed_push(ids: Seq<u64>, last: u64, id: u64)
    ensures
        listed(ids.push(last), id) <==> listed(ids, id) || id == last,
{
    let longer = ids.push(last);
    if listed(ids, id) {
        let j = choose|j: int| 0 <= j < ids.len() && #[trigger] ids[j] == id;
        assert(longer[j] == id);
    }
    if id == last {
        assert(longer[ids.len() as int] == id);
    }
}

/// Appends to `out` the identifiers of the nodes under `node` that are no
/// elements.
pub fn collect_component_ids<U>(node: &ComponentTreeNode<U>, out: &mut Vec<u64>)
    ensures
        forall|id: u64| #[trigger]
            listed(final(out)@, id) <==> listed(old(out)@, id) || mounts_component(node@, id),
    decreases node,
{
    let ghost before = out@;
    if !node.is_element {
        out.push(node.id);
        assert forall|id: u64| listed(out@, id) <==> listed(before, id) || id == node.id by {
            lemma_listed_push(before, node.id, id);
        }
    }
    let mut i: usize = 0;
    while i < node.children.len()
        invariant
            i <= node.children@.len(),
            node@.children.len() == node.children@.len(),
            forall|id: u64| #[trigger]
                listed(out@, id) <==> listed(before, id) || (!node.is_element && id == node.id)
                    || mounts_among(node@.children, i as int, id),
        decreases node.children@.len() - i,
    {
        collect_component_ids(&node.children[i], out);
        assert forall|id: u64|
            listed(out@, id) <==> listed(before, id) || (!node.is_element && id == node.id)
                || mounts_among(node@.children, i + 1, id) by {
            lemma_mounts_among_next(node@.children, i as int, id);
        }
        i += 1;
    }
}

/// Sweeps the store after a render: keeps the state of the nodes of `tree`
/// that are no elements, and drops every other entry. What is kept is kept
/// as it is.
pub fn prune_state<U>(tree: &ComponentTreeNode<U>, store: &mut StateStore)
    ensures
        forall|id: u64|
            final(store)@.contains_key(id) <==> old(store)@.contains_key(id) && mounts_component(
                tree@,
                id,
            ),
        forall|id: u64| final(store)@.contains_key(id) ==> final(store)@[id] == old(store)@[id],
{
    let mut ids: Vec<u64> = Vec::new();
    collect_component_ids(tree, &mut ids);
    let mut kept = StateStore::new();
    let mut i: usize = 0;
    while i < ids.len()
        invariant
            i <= ids@.len(),
            forall|id: u64|
                kept@.contains_key(id) <==> old(store)@.contains_key(id) && listed(
                    ids@.subrange(0, i as int),
                    id,
                ),
            forall|id: u64| kept@.contains_key(id) ==> kept@[id] == old(store)@[id],
            forall|id: u64|
                store@.contains_key(id) <==> old(store)@.contains_key(id) && !listed(
                    ids@.subrange(0, i as int),
                    id,
                ),
            forall|id: u64| store@.contains_key(id) ==> store@[id] == old(store)@[id],
        decreases ids@.len() - i,
    {
        let id = ids[i];
        let ghost seen = ids@.subrange(0, i as int);
        let ghost next = ids@.subrange(0, i + 1);
        assert(next =~= seen.push(id));
        assert forall|other: u64| listed(next, other) <==> listed(seen, other) || other == id by {
            lemma_listed_push(seen, id, other);
        }
        match store.take(id) {
            Some(state) => {
                kept.set(id, state);
            },
            None => {},
        }
        i += 1;
    }
    assert(ids@.subrange(0, i as int) =~= ids@);
    *store = kept;
}

} // verus!
