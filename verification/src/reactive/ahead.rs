//! The allocator is ahead of a tree: every identifier of the tree was handed
//! out before, so a fresh one is none of them.

use vstd::prelude::*;
use crate::reactive::tree::{recorded_id, ShadowModel};

verus! {

/// Whether every identifier recorded in `keys` is below `bound`.
pub open spec fn keys_below(keys: Seq<(Seq<char>, u64)>, bound: u64) -> bool {
    forall|i: int| 0 <= i < keys.len() ==> (#[trigger] keys[i]).1 < bound
}

/// Whether every identifier of the tree under `node`, of a node or recorded
/// with a key, is below `bound`: whether an allocator whose next identifier
/// is `bound` is ahead of the tree. A pass run with an allocator ahead of
/// the previous tree leaves the allocator ahead of the new one.
pub open spec fn ids_below<U>(node: ShadowModel<U>, bound: u64) -> bool
    decreases node,
{
    &&& node.id < bound
    &&& keys_below(node.children_keys, bound)
    &&& forall|i: int| 0 <= i < node.children.len() ==> ids_below(#[trigger] node.children[i], bound)
}

/// An allocator that went on is still ahead.
pub proof fn lemma_ids_below_grows<U>(node: ShadowModel<U>, bound: u64, later: u64)
    requires
        ids_below(node, bound),
        bound <= later,
    ensures
        ids_below(node, later),
    decreases node,
{
    assert forall|i: int| 0 <= i < node.children.len() implies ids_below(
        #[trigger] node.children[i],
        later,
    ) by {
        lemma_ids_below_grows(node.children[i], bound, later);
    }
}

/// An identifier found under a key is one of those recorded.
pub proof fn lemma_recorded_id_below(keys: Seq<(Seq<char>, u64)>, key: Seq<char>, from: int, bound: u64)
    requires
        0 <= from,
        keys_below(keys, bound),
        recorded_id(keys, key, from) is Some,
    ensures
        recorded_id(keys, key, from)->0 < bound,
    decreases keys.len() - from,
{
    if from < keys.len() && keys[from].0 != key {
        lemma_recorded_id_below(keys, key, from + 1, bound);
    }
}

} // verus!
