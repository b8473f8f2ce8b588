//! Identifiers for element trees that are compared directly, without a
//! shadow tree: the new tree takes over the identifiers of the old one where
//! the two agree.

use vstd::prelude::*;
use crate::elements::element::{elements_model, Element, ElementKind, ElementModel};
use crate::reactive::element_id::IdAllocator;
use crate::reactive::reconcile::ReconcileError;
use crate::vectors::{reversed, turned};

verus! {

/// How many elements the tree under `element` holds.
pub open spec fn tree_size(element: ElementModel) -> nat
    decreases element,
{
    1 + forest_size(element.children)
}

/// How many elements the trees of `forest` hold together.
pub open spec fn forest_size(forest: Seq<ElementModel>) -> nat
    decreases forest,
{
    if forest.len() == 0 {
        0
    } else {
        forest_size(forest.drop_last()) + tree_size(forest.last())
    }
}

/// The trees of two forests hold together what the forests hold.
pub proof fn lemma_forest_size_concat(first: Seq<ElementModel>, second: Seq<ElementModel>)
    ensures
        forest_size(first + second) == forest_size(first) + forest_size(second),
    decreases second.len(),
{
    if second.len() > 0 {
        assert((first + second).drop_last() =~= first + second.drop_last());
        lemma_forest_size_concat(first, second.drop_last());
    }
}

/// Taking the top off a stack of trees leaves fewer elements, also when the
/// children of the top go on the stack in its place.
pub proof fn lemma_top_counts(stack: Seq<ElementModel>)
    requires
        stack.len() > 0,
    ensures
        forest_size(stack.drop_last()) < forest_size(stack),
        forest_size(stack.drop_last() + stack.last().children) < forest_size(stack),
{
    lemma_forest_size_concat(stack.drop_last(), stack.last().children);
    assert(tree_size(stack.last()) == 1 + forest_size(stack.last().children));
}

/// The tree under `element` with new identifiers: the element takes `next`,
/// then the trees under its children take theirs, the last child first.
/// `None` where the identifiers run out.
pub open spec fn assign_tree(element: ElementModel, next: u64) -> Option<(ElementModel, u64)>
    decreases element, 0nat,
{
    if next == u64::MAX {
        None
    } else {
        match assign_forest(
            element.children,
            element.children.len() as int,
            Seq::empty(),
            (next + 1) as u64,
        ) {
            None => None,
            Some((children, after)) => Some(
                (ElementModel { component_id: next, children, ..element }, after),
            ),
        }
    }
}

/// The children before position `upto` with new identifiers, the last first,
/// in front of `done`, the later ones, which have theirs and stand last
/// first.
pub open spec fn assign_forest(
    children: Seq<ElementModel>,
    upto: int,
    done: Seq<ElementModel>,
    next: u64,
) -> Option<(Seq<ElementModel>, u64)>
    decreases children, upto,
{
    if upto <= 0 || upto > children.len() {
        Some((turned(done), next))
    } else {
        match assign_tree(children[upto - 1], next) {
            None => None,
            Some((child, after)) => assign_forest(children, upto - 1, done.push(child), after),
        }
    }
}

/// What comparing two stacks of trees, top against top, makes of the new
/// stack. Where the tops differ in type, the new top is mounted afresh,
/// unless it is an `Empty`, which takes over the old top's identifier as the
/// place holder of what was there. Where they agree, the new top takes over
/// the identifier and the children of both go on their stacks. The
/// comparison ends when either stack is used up; what is left of the new
/// stack keeps the identifiers it has.
pub open spec fn diff_stacks(olds: Seq<ElementModel>, news: Seq<ElementModel>, next: u64) -> Option<
    (Seq<ElementModel>, u64),
>
    decreases forest_size(news),
{
    if olds.len() == 0 || news.len() == 0 {
        Some((news, next))
    } else {
        let old_top = olds.last();
        let new_top = news.last();
        proof {
            lemma_top_counts(news);
        }
        if old_top.kind != new_top.kind && new_top.kind != ElementKind::Empty {
            match assign_tree(new_top, next) {
                None => None,
                Some((mounted, after)) => match diff_stacks(olds.drop_last(), news.drop_last(), after) {
                    None => None,
                    Some((below, last)) => Some((below.push(mounted), last)),
                },
            }
        } else if old_top.kind != new_top.kind {
            match diff_stacks(olds.drop_last(), news.drop_last(), next) {
                None => None,
                Some((below, last)) => Some(
                    (below.push(ElementModel { component_id: old_top.component_id, ..new_top }), last),
                ),
            }
        } else {
            match diff_stacks(
                olds.drop_last() + old_top.children,
                news.drop_last() + new_top.children,
                next,
            ) {
                None => None,
                Some((all, last)) => Some(
                    (
                        all.subrange(0, news.len() - 1).push(
                            ElementModel {
                                component_id: old_top.component_id,
                                children: all.subrange(news.len() - 1, all.len() as int),
                                ..new_top
                            },
                        ),
                        last,
                    ),
                ),
            }
        }
    }
}

/// What [`diff_tree`] makes of the new tree.
pub open spec fn diff_model(old_tree: Option<ElementModel>, new_tree: ElementModel, next: u64) -> Option<
    (ElementModel, u64),
> {
    match old_tree {
        None => assign_tree(new_tree, next),
        Some(o) => match diff_stacks(seq![o], seq![new_tree], next) {
            None => None,
            Some((news, after)) => Some((news[0], after)),
        },
    }
}

/// Comparing stacks leaves as many trees on the new stack as it found.
pub proof fn lemma_diff_keeps_length(olds: Seq<ElementModel>, news: Seq<ElementModel>, next: u64)
    requires
        diff_stacks(olds, news, next) is Some,
    ensures
        ({
            let compared = diff_stacks(olds, news, next)->0;
            compared.0.len() == news.len()
        }),
    decreases forest_size(news),
{
    if olds.len() > 0 && news.len() > 0 {
        let old_top = olds.last();
        let new_top = news.last();
        lemma_top_counts(news);
        if old_top.kind != new_top.kind && new_top.kind != ElementKind::Empty {
            let mounted = assign_tree(new_top, next)->0;
            lemma_diff_keeps_length(olds.drop_last(), news.drop_last(), mounted.1);
        } else if old_top.kind != new_top.kind {
            lemma_diff_keeps_length(olds.drop_last(), news.drop_last(), next);
        } else {
            lemma_diff_keeps_length(
                olds.drop_last() + old_top.children,
                news.drop_last() + new_top.children,
                next,
            );
        }
    }
}

/// The models of the elements behind a sequence of references.
pub open spec fn references_model(elements: Seq<&Element>) -> Seq<ElementModel> {
    Seq::new(elements.len(), |i: int| elements[i]@)
}

/// Gives the tree under `element` new identifiers: see [`assign_tree`].
fn assign_owned(element: Element, ids: &mut IdAllocator) -> (assigned: Option<Element>)
    ensures
        match assign_tree(element@, old(ids)@) {
            Some((tree, after)) => assigned is Some && assigned->0@ == tree && final(ids)@ == after,
            None => assigned is None && final(ids)@ == u64::MAX,
        },
    decreases element@,
{
    let id = match ids.allocate_id() {
        Some(id) => id,
        None => {
            return None;
        },
    };
    let ghost first = ids@;
    let Element { kind, content, style, children, id: user_id, component_id: _ } = element;
    let ghost models = elements_model(children@);
    let mut pending = children;
    let mut done: Vec<Element> = Vec::new();
    assert(elements_model(done@) =~= Seq::<ElementModel>::empty());
    while pending.len() > 0
        invariant
            pending@.len() <= models.len(),
            forall|i: int| 0 <= i < pending@.len() ==> (#[trigger] pending@[i])@ == models[i],
            models == element@.children,
            old(ids)@ < u64::MAX,
            first == old(ids)@ + 1,
            assign_forest(models, models.len() as int, Seq::empty(), first) == assign_forest(
                models,
                pending@.len() as int,
                elements_model(done@),
                ids@,
            ),
        decreases pending@.len(),
    {
        let ghost before = elements_model(done@);
        match pending.pop() {
            Some(child) => {
                match assign_owned(child, ids) {
                    None => {
                        return None;
                    },
                    Some(assigned) => {
                        done.push(assigned);
                        assert(elements_model(done@) =~= before.push(assigned@));
                    },
                }
            },
            None => {},
        }
    }
    let children = reversed(done);
    let assigned = Element { kind, content, style, children, id: user_id, component_id: id };
    assert(assigned@.children =~= turned(elements_model(done@)));
    Some(assigned)
}

/// Compares two stacks of trees: see [`diff_stacks`].
fn diff_owned(olds: Vec<&Element>, news: Vec<Element>, ids: &mut IdAllocator) -> (compared: Option<
    Vec<Element>,
>)
    ensures
        match diff_stacks(references_model(olds@), elements_model(news@), old(ids)@) {
            Some((stack, after)) => compared is Some && elements_model(compared->0@) == stack
                && final(ids)@ == after,
            None => compared is None && final(ids)@ == u64::MAX,
        },
    decreases forest_size(elements_model(news@)),
{
    let ghost old_models = references_model(olds@);
    let ghost new_models = elements_model(news@);
    let mut olds = olds;
    let mut news = news;
    if olds.len() == 0 || news.len() == 0 {
        return Some(news);
    }
    let old_top = match olds.pop() {
        Some(top) => top,
        None => {
            return None;
        },
    };
    let new_top = match news.pop() {
        Some(top) => top,
        None => {
            return None;
        },
    };
    proof {
        lemma_top_counts(new_models);
        assert(references_model(olds@) =~= old_models.drop_last());
        assert(elements_model(news@) =~= new_models.drop_last());
    }
    if old_top.kind != new_top.kind && new_top.kind != ElementKind::Empty {
        let mounted = match assign_owned(new_top, ids) {
            Some(mounted) => mounted,
            None => {
                return None;
            },
        };
        let mut below = match diff_owned(olds, news, ids) {
            Some(below) => below,
            None => {
                return None;
            },
        };
        below.push(mounted);
        Some(below)
    } else if old_top.kind != new_top.kind {
        let mut below = match diff_owned(olds, news, ids) {
            Some(below) => below,
            None => {
                return None;
            },
        };
        let mut top = new_top;
        top.set_component_id(old_top.component_id);
        below.push(top);
        Some(below)
    } else {
        let Element { kind, content, style, children, id, component_id: _ } = new_top;
        let below_count = news.len();
        let ghost below_olds = references_model(olds@);
        let ghost below_news = elements_model(news@);
        let ghost child_models = elements_model(children@);
        assert(child_models =~= new_top@.children);
        let mut i: usize = 0;
        while i < old_top.children.len()
            invariant
                i <= old_top.children@.len(),
                references_model(olds@) == below_olds + old_top@.children.subrange(0, i as int),
            decreases old_top.children@.len() - i,
        {
            let ghost before = references_model(olds@);
            olds.push(&old_top.children[i]);
            assert(references_model(olds@) =~= before.push(old_top@.children[i as int]));
            i += 1;
        }
        assert(old_top@.children.subrange(0, i as int) =~= old_top@.children);
        let mut children = children;
        news.append(&mut children);
        assert(elements_model(news@) =~= below_news + child_models);
        let mut all = match diff_owned(olds, news, ids) {
            Some(all) => all,
            None => {
                return None;
            },
        };
        proof {
            lemma_diff_keeps_length(
                below_olds + old_top@.children,
                below_news + child_models,
                old(ids)@,
            );
        }
        let ghost whole = elements_model(all@);
        let kids = all.split_off(below_count);
        let top = Element { kind, content, style, children: kids, id, component_id: old_top.component_id };
        assert(top@.children =~= whole.subrange(below_count as int, whole.len() as int));
        all.push(top);
        Some(all)
    }
}

/// Gives every element of the tree new identifiers: the root first, then the
/// trees under its children, the last child first. Where the identifiers run
/// out the tree is left as it was, and the allocator used up.
pub fn assign_tree_new_ids(new_tree: &mut Element, ids: &mut IdAllocator) -> (done: Result<
    (),
    ReconcileError,
>)
    ensures
        match assign_tree(old(new_tree)@, old(ids)@) {
            Some((tree, after)) => done is Ok && final(new_tree)@ == tree && final(ids)@ == after,
            None => done == Err::<(), ReconcileError>(ReconcileError::IdSpaceExhausted)
                && final(new_tree)@ == old(new_tree)@ && final(ids)@ == u64::MAX,
        },
{
    match assign_owned(new_tree.duplicate(), ids) {
        Some(assigned) => {
            *new_tree = assigned;
            Ok(())
        },
        None => Err(ReconcileError::IdSpaceExhausted),
    }
}

/// Diffs two trees: gives the new tree the identifiers of the old one where
/// the two agree and new ones where they do not, and returns a copy of the
/// result. Without an old tree every element gets a new identifier. Where
/// the identifiers run out the new tree is left as it was, and the allocator
/// used up.
pub fn diff_tree(old_tree: Option<&Element>, new_tree: &mut Element, ids: &mut IdAllocator) -> (diffed:
    Result<Element, ReconcileError>)
    ensures
        match diff_model(
            match old_tree {
                Some(o) => Some(o@),
                None => None,
            },
            old(new_tree)@,
            old(ids)@,
        ) {
            Some((tree, after)) => diffed is Ok && diffed->Ok_0@ == tree && final(new_tree)@ == tree
                && final(ids)@ == after,
            None => diffed is Err && diffed->Err_0 == ReconcileError::IdSpaceExhausted
                && final(new_tree)@ == old(new_tree)@ && final(ids)@ == u64::MAX,
        },
{
    let old_root = match old_tree {
        None => {
            return match assign_tree_new_ids(new_tree, ids) {
                Ok(()) => Ok(new_tree.duplicate()),
                Err(e) => Err(e),
            };
        },
        Some(o) => o,
    };
    let mut olds: Vec<&Element> = Vec::new();
    olds.push(old_root);
    let mut news: Vec<Element> = Vec::new();
    news.push(new_tree.duplicate());
    assert(references_model(olds@) =~= seq![old_root@]);
    assert(elements_model(news@) =~= seq![old(new_tree)@]);
    proof {
        if diff_stacks(seq![old_root@], seq![old(new_tree)@], old(ids)@) is Some {
            lemma_diff_keeps_length(seq![old_root@], seq![old(new_tree)@], old(ids)@);
        }
    }
    match diff_owned(olds, news, ids) {
        None => Err(ReconcileError::IdSpaceExhausted),
        Some(compared) => {
            let mut compared = compared;
            match compared.pop() {
                Some(tree) => {
                    let copy = tree.duplicate();
                    *new_tree = tree;
                    Ok(copy)
                },
                None => Err(ReconcileError::IdSpaceExhausted),
            }
        },
    }
}

} // verus!
