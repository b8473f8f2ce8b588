use oku_core::components::component::{Component, ComponentSpecification, ViewResult};
use oku_core::components::elements_only::NoComponent;
use oku_core::components::props::{Props, StateValue};
use oku_core::elements::element::{Element, ElementKind};
use oku_core::reactive::element_id::IdAllocator;
use oku_core::reactive::kept_state::state_is_kept;
use oku_core::reactive::reconcile::{
    create_trees_from_render_specification, create_trees_within_depth, ReconcileError,
    MAX_COMPONENT_DEPTH,
};
use oku_core::reactive::state_store::StateStore;
use oku_core::reactive::sweep::{collect_component_ids, prune_state};
use oku_core::reactive::tree::ComponentTreeNode;

#[derive(Clone, Debug, PartialEq)]
enum Widget {
    /// Shows how often it was rendered, and counts in its own state.
    Counter,
    /// Like `Counter`, under another type tag and from 100.
    Tally,
    /// Shows a fixed text.
    Label(&'static str),
    /// Renders a `Counter`: a component inside a component.
    Outer,
    /// Renders itself, for ever.
    Endless,
    /// A container around the children declared under it.
    Group,
}

type Spec = ComponentSpecification<Widget>;
type Node = ComponentTreeNode<&'static str>;

fn text(content: &str) -> Spec {
    ComponentSpecification::from_element(Element::new(ElementKind::Text, content.to_string()))
}

fn container(children: Vec<Spec>) -> Spec {
    let mut spec: Spec =
        ComponentSpecification::from_element(Element::new(ElementKind::Container, String::new()));
    for child in children {
        spec = spec.push(child);
    }
    spec
}

fn widget(w: Widget) -> Spec {
    ComponentSpecification::from_component(w)
}

fn keyed(w: Widget, key: &str) -> Spec {
    ComponentSpecification::from_component(w).key(key.to_string())
}

fn root() -> Element {
    Element::new(ElementKind::Container, String::new())
}

impl Component for Widget {
    type Update = &'static str;

    fn tag(&self) -> String {
        match self {
            Widget::Counter => "Counter".to_string(),
            Widget::Tally => "Tally".to_string(),
            Widget::Label(_) => "Label".to_string(),
            Widget::Outer => "Outer".to_string(),
            Widget::Endless => "Endless".to_string(),
            Widget::Group => "Group".to_string(),
        }
    }

    fn initial_state(&self) -> StateValue {
        match self {
            Widget::Counter => StateValue::UInt(0),
            Widget::Tally => StateValue::UInt(100),
            _ => StateValue::Unit,
        }
    }

    fn view(
        &self,
        state: &StateValue,
        _props: Option<Props>,
        children: Vec<Spec>,
        _id: u64,
    ) -> ViewResult<Self, &'static str> {
        match self {
            Widget::Counter | Widget::Tally => {
                let count = state.as_uint().unwrap();
                ViewResult {
                    state: StateValue::UInt(count + 1),
                    specification: text(&format!("count {}", count)),
                    update: Some("count_update"),
                }
            }
            Widget::Label(content) => ViewResult {
                state: StateValue::Unit,
                specification: text(content),
                update: None,
            },
            Widget::Outer => ViewResult {
                state: StateValue::Unit,
                specification: widget(Widget::Counter),
                update: None,
            },
            Widget::Endless => ViewResult {
                state: StateValue::Unit,
                specification: widget(Widget::Endless),
                update: None,
            },
            Widget::Group => ViewResult {
                state: StateValue::Unit,
                specification: container(children),
                update: None,
            },
        }
    }
}

fn pass(
    spec: Spec,
    old: Option<&Node>,
    store: &mut StateStore,
    ids: &mut IdAllocator,
) -> (Node, Element) {
    match create_trees_from_render_specification(spec, root(), old, store, ids) {
        Ok(trees) => trees,
        Err(e) => panic!("the pass failed: {:?}", e),
    }
}

fn fails(
    spec: Spec,
    old: Option<&Node>,
    store: &mut StateStore,
    ids: &mut IdAllocator,
) -> ReconcileError {
    match create_trees_from_render_specification(spec, root(), old, store, ids) {
        Ok(_) => panic!("the pass went through"),
        Err(e) => e,
    }
}

/// The node of the application's specification: under the root node and the
/// node of the root element.
fn app(tree: &Node) -> &Node {
    &tree.children[0].children[0]
}

/// The element of the application's specification.
fn app_element(element: &Element) -> &Element {
    &element.children[0].children[0]
}

fn ids_of(node: &Node, out: &mut Vec<u64>) {
    out.push(node.id);
    for child in &node.children {
        ids_of(child, out);
    }
}

fn all_ids(node: &Node) -> Vec<u64> {
    let mut out = Vec::new();
    ids_of(node, &mut out);
    out
}

fn node(is_element: bool, tag: &str, id: u64, key: Option<&str>, parent: Option<u64>, children: Vec<Node>) -> Node {
    let mut children_keys = Vec::new();
    for child in &children {
        if let (false, Some(k)) = (child.is_element, &child.key) {
            children_keys.push((k.clone(), child.id));
        }
    }
    ComponentTreeNode {
        is_element,
        key: key.map(|k| k.to_string()),
        tag: tag.to_string(),
        update: None,
        children,
        children_keys,
        id,
        parent_id: parent,
    }
}

#[test]
fn first_pass_hands_out_identifiers_in_document_order() {
    let mut store = StateStore::new();
    let mut ids = IdAllocator::new();
    let (tree, element) =
        pass(container(vec![text("a"), text("b")]), None, &mut store, &mut ids);
    assert_eq!(all_ids(&tree), vec![0, 1, 2, 3, 4]);
    assert_eq!(ids.peek(), 5);
    assert_eq!(tree.tag, "root");
    assert!(!tree.is_element);
    assert_eq!(tree.parent_id, None);
    assert_eq!(tree.children[0].tag, "Container");
    assert!(tree.children[0].is_element);
    assert_eq!(tree.children[0].parent_id, Some(0));
    assert_eq!(app(&tree).parent_id, Some(1));
    assert_eq!(app(&tree).children[1].tag, "Text");
    assert_eq!(app(&tree).children[1].parent_id, Some(2));
    assert_eq!(element.component_id, 0);
    assert_eq!(element.children.len(), 1);
    assert_eq!(element.children[0].component_id, 1);
    assert_eq!(app_element(&element).component_id, 2);
    assert_eq!(app_element(&element).children[0].component_id, 3);
    assert_eq!(app_element(&element).children[0].content, "a");
    assert_eq!(app_element(&element).children[1].component_id, 4);
    assert_eq!(app_element(&element).children[1].content, "b");
}

#[test]
fn same_specification_twice_keeps_every_identifier() {
    let mut store = StateStore::new();
    let mut ids = IdAllocator::new();
    let spec = || container(vec![text("a"), widget(Widget::Counter), container(vec![text("b")])]);
    let (first, _) = pass(spec(), None, &mut store, &mut ids);
    let next = ids.peek();
    let (second, _) = pass(spec(), Some(&first), &mut store, &mut ids);
    assert_eq!(all_ids(&second), all_ids(&first));
    assert_eq!(all_ids(&second), vec![0, 1, 2, 3, 4, 5, 6, 7]);
    assert_eq!(ids.peek(), next);
}

#[test]
fn keyed_siblings_keep_their_identifiers_when_one_is_removed() {
    let old = node(false, "root", 0, None, None, vec![
        node(true, "Container", 10, None, Some(0), vec![
            node(true, "Container", 20, None, Some(10), vec![
                node(false, "Label", 1, Some("a"), Some(20), vec![node(true, "Text", 11, None, Some(1), vec![])]),
                node(false, "Label", 2, Some("b"), Some(20), vec![node(true, "Text", 12, None, Some(2), vec![])]),
                node(false, "Label", 3, Some("c"), Some(20), vec![node(true, "Text", 13, None, Some(3), vec![])]),
            ]),
        ]),
    ]);
    let mut store = StateStore::new();
    store.set(1, StateValue::Unit);
    store.set(2, StateValue::Unit);
    store.set(3, StateValue::Unit);
    let mut ids = IdAllocator::starting_at(30);
    let spec = container(vec![keyed(Widget::Label("A"), "a"), keyed(Widget::Label("C"), "c")]);
    let (tree, element) = pass(spec, Some(&old), &mut store, &mut ids);
    let list = app(&tree);
    assert_eq!(list.id, 20);
    assert_eq!(list.children.len(), 2);
    assert_eq!(list.children[0].id, 1);
    assert_eq!(list.children[1].id, 3);
    assert_eq!(list.children[0].children[0].id, 11);
    assert_eq!(list.children[1].children[0].id, 13);
    assert_eq!(list.children_keys, vec![("a".to_string(), 1), ("c".to_string(), 3)]);
    assert_eq!(ids.peek(), 30);
    assert_eq!(app_element(&element).children[1].content, "C");
    assert_eq!(app_element(&element).children[1].component_id, 13);
}

#[test]
fn unkeyed_sibling_takes_the_identifier_at_its_new_position() {
    let old = node(false, "root", 0, None, None, vec![
        node(true, "Container", 10, None, Some(0), vec![
            node(true, "Container", 20, None, Some(10), vec![
                node(true, "Text", 1, None, Some(20), vec![]),
                node(true, "Text", 2, None, Some(20), vec![]),
                node(true, "Text", 3, None, Some(20), vec![]),
            ]),
        ]),
    ]);
    let mut store = StateStore::new();
    let mut ids = IdAllocator::starting_at(30);
    let (tree, _) = pass(container(vec![text("a"), text("c")]), Some(&old), &mut store, &mut ids);
    assert_eq!(app(&tree).children[0].id, 1);
    assert_eq!(app(&tree).children[1].id, 2);
}

#[test]
fn type_change_at_a_position_forces_a_remount() {
    let mut store = StateStore::new();
    let mut ids = IdAllocator::new();
    let (first, _) = pass(
        container(vec![text("a"), text("b"), text("c")]),
        None,
        &mut store,
        &mut ids,
    );
    let old_text = app(&first).children[2].id;
    assert_eq!(old_text, 5);
    let (second, element) = pass(
        container(vec![text("a"), text("b"), container(vec![text("d")])]),
        Some(&first),
        &mut store,
        &mut ids,
    );
    let remounted = &app(&second).children[2];
    assert_eq!(remounted.tag, "Container");
    assert_eq!(remounted.id, 6);
    assert_ne!(remounted.id, old_text);
    assert_eq!(remounted.children[0].id, 7);
    assert_eq!(app(&second).children[0].id, 3);
    assert_eq!(app(&second).children[1].id, 4);
    assert_eq!(app_element(&element).children[2].component_id, 6);
}

#[test]
fn remounted_component_starts_from_its_initial_state() {
    let mut store = StateStore::new();
    let mut ids = IdAllocator::new();
    let (first, _) = pass(container(vec![widget(Widget::Counter)]), None, &mut store, &mut ids);
    let (second, _) = pass(container(vec![widget(Widget::Counter)]), Some(&first), &mut store, &mut ids);
    let counter = app(&second).children[0].id;
    assert_eq!(counter, 3);
    assert_eq!(store.get(counter).unwrap().as_uint(), Ok(2));
    let (third, element) = pass(container(vec![widget(Widget::Tally)]), Some(&second), &mut store, &mut ids);
    let tally = app(&third).children[0].id;
    assert_eq!(tally, 5);
    assert_eq!(app(&third).children[0].children[0].id, 6);
    assert_eq!(store.get(tally).unwrap().as_uint(), Ok(101));
    assert_eq!(app_element(&element).children[0].content, "count 100");
    assert_eq!(store.get(counter).unwrap().as_uint(), Ok(2));
}

#[test]
fn keyed_components_keep_identity_and_state_when_they_swap() {
    let mut store = StateStore::new();
    let mut ids = IdAllocator::new();
    let (first, _) = pass(
        container(vec![keyed(Widget::Counter, "x"), keyed(Widget::Counter, "y")]),
        None,
        &mut store,
        &mut ids,
    );
    let x = app(&first).children[0].id;
    let y = app(&first).children[1].id;
    assert_eq!((x, y), (3, 5));
    store.set(x, StateValue::UInt(10));
    let (second, element) = pass(
        container(vec![keyed(Widget::Counter, "y"), keyed(Widget::Counter, "x")]),
        Some(&first),
        &mut store,
        &mut ids,
    );
    assert_eq!(app(&second).children[0].id, y);
    assert_eq!(app(&second).children[1].id, x);
    assert_eq!(app(&second).children[0].key, Some("y".to_string()));
    assert_eq!(app(&second).children[0].children[0].id, 6);
    assert_eq!(app(&second).children[1].children[0].id, 4);
    assert_eq!(app(&second).children_keys, vec![("y".to_string(), y), ("x".to_string(), x)]);
    assert_eq!(app_element(&element).children[0].content, "count 1");
    assert_eq!(app_element(&element).children[1].content, "count 10");
    assert_eq!(store.get(y).unwrap().as_uint(), Ok(2));
    assert_eq!(store.get(x).unwrap().as_uint(), Ok(11));
    assert_eq!(ids.peek(), 7);
}

#[test]
fn recorded_key_decides_whatever_the_type() {
    let mut store = StateStore::new();
    let mut ids = IdAllocator::new();
    let (first, _) = pass(container(vec![keyed(Widget::Counter, "k")]), None, &mut store, &mut ids);
    let (second, _) = pass(container(vec![keyed(Widget::Tally, "k")]), Some(&first), &mut store, &mut ids);
    assert_eq!(app(&second).children[0].id, app(&first).children[0].id);
    assert_eq!(app(&second).children[0].tag, "Tally");
    assert_eq!(store.get(3).unwrap().as_uint(), Ok(2));
}

#[test]
fn component_state_counts_up_over_consecutive_passes() {
    let mut store = StateStore::new();
    let mut ids = IdAllocator::new();
    let mut old: Option<Node> = None;
    let mut shown = Vec::new();
    let mut stored = Vec::new();
    for _ in 0..4 {
        let (tree, element) = pass(widget(Widget::Counter), old.as_ref(), &mut store, &mut ids);
        assert_eq!(app(&tree).id, 2);
        assert_eq!(app(&tree).update, Some("count_update"));
        shown.push(element.children[0].children[0].content.clone());
        stored.push(store.get(2).unwrap().as_uint().unwrap());
        old = Some(tree);
    }
    assert_eq!(shown, vec!["count 0", "count 1", "count 2", "count 3"]);
    assert_eq!(stored, vec![1, 2, 3, 4]);
    assert_eq!(ids.peek(), 4);
}

#[test]
fn components_are_transparent_in_the_element_tree() {
    let mut store = StateStore::new();
    let mut ids = IdAllocator::new();
    let spec = container(vec![widget(Widget::Outer), widget(Widget::Group).push(text("inside"))]);
    let (tree, element) = pass(spec, None, &mut store, &mut ids);
    let list = app(&tree);
    // Outer(3) -> Counter(4) -> Text(5); Group(6) -> Container(7) -> Text(8)
    assert_eq!(all_ids(list), vec![2, 3, 4, 5, 6, 7, 8]);
    assert_eq!(list.children[0].tag, "Outer");
    assert!(!list.children[0].is_element);
    assert_eq!(list.children[0].children[0].tag, "Counter");
    assert!(!list.children[0].children[0].is_element);
    assert!(list.children[0].children[0].children[0].is_element);
    let shown = app_element(&element);
    assert_eq!(shown.kind, ElementKind::Container);
    assert_eq!(shown.children.len(), 2);
    assert_eq!(shown.children[0].kind, ElementKind::Text);
    assert_eq!(shown.children[0].component_id, 5);
    assert_eq!(shown.children[0].content, "count 0");
    assert_eq!(shown.children[1].kind, ElementKind::Container);
    assert_eq!(shown.children[1].component_id, 7);
    assert_eq!(shown.children[1].children[0].content, "inside");
    assert_eq!(shown.children[1].children[0].component_id, 8);
    assert_eq!(
        element.outline(),
        "└─Container, Parent Component Id: 0\n\
         \x20 └─Container, Parent Component Id: 1\n\
         \x20   └─Container, Parent Component Id: 2\n\
         \x20     ├─Text, Parent Component Id: 5\n\
         \x20     └─Container, Parent Component Id: 7\n\
         \x20       └─Text, Parent Component Id: 8\n"
    );
}

#[test]
fn printing_a_tree_does_not_change_what_the_next_pass_yields() {
    let spec = || container(vec![keyed(Widget::Counter, "k"), text("b")]);
    let mut store = StateStore::new();
    let mut ids = IdAllocator::new();
    let (first, first_element) = pass(spec(), None, &mut store, &mut ids);
    let printed = first.outline();
    assert_eq!(
        printed,
        "└─ , Tag: root, Id: 0, Key: None\n\
         \x20 └─ , Tag: Container, Id: 1, Key: None\n\
         \x20   └─ , Tag: Container, Id: 2, Key: None\n\
         \x20     ├─ , Tag: Counter, Id: 3, Key: Some(\"k\")\n\
         \x20       └─ , Tag: Text, Id: 4, Key: None\n\
         \x20     └─ , Tag: Text, Id: 5, Key: None\n"
    );
    assert_eq!(first.outline(), printed);
    let _ = first_element.outline();
    let (second, second_element) = pass(spec(), Some(&first), &mut store, &mut ids);

    let mut plain_store = StateStore::new();
    let mut plain_ids = IdAllocator::new();
    let (plain_first, _) = pass(spec(), None, &mut plain_store, &mut plain_ids);
    let (plain_second, plain_element) =
        pass(spec(), Some(&plain_first), &mut plain_store, &mut plain_ids);
    assert_eq!(second.outline(), plain_second.outline());
    assert_eq!(second_element.outline(), plain_element.outline());
    assert_eq!(all_ids(&second), all_ids(&first));
}

#[test]
fn store_without_the_state_of_a_continued_component_is_told_apart() {
    let old = node(false, "root", 0, None, None, vec![
        node(true, "Container", 1, None, Some(0), vec![
            node(false, "Counter", 7, None, Some(1), vec![node(true, "Text", 8, None, Some(7), vec![])]),
        ]),
    ]);
    let mut store = StateStore::new();
    assert!(!state_is_kept(&old, &store));
    store.set(8, StateValue::UInt(1));
    assert!(!state_is_kept(&old, &store));
    store.set(7, StateValue::UInt(1));
    assert!(state_is_kept(&old, &store));
    let mut ids = IdAllocator::starting_at(9);
    let (tree, element) = pass(widget(Widget::Counter), Some(&old), &mut store, &mut ids);
    assert_eq!(app(&tree).id, 7);
    assert_eq!(element.children[0].children[0].content, "count 1");
    assert!(state_is_kept(&tree, &store));

    let mut recorded = node(true, "Container", 1, None, Some(0), vec![]);
    recorded.children_keys.push(("k".to_string(), 30));
    let old = node(false, "root", 0, None, None, vec![recorded]);
    assert!(!state_is_kept(&old, &store));
    store.set(30, StateValue::Unit);
    assert!(state_is_kept(&old, &store));
}

#[test]
fn every_pass_leaves_a_store_that_keeps_the_state_of_its_tree() {
    let mut store = StateStore::new();
    let mut ids = IdAllocator::new();
    let spec = || container(vec![keyed(Widget::Counter, "x"), widget(Widget::Outer), text("t")]);
    let (first, _) = pass(spec(), None, &mut store, &mut ids);
    assert!(state_is_kept(&first, &store));
    let (second, _) = pass(spec(), Some(&first), &mut store, &mut ids);
    assert!(state_is_kept(&second, &store));
    prune_state(&second, &mut store);
    assert!(state_is_kept(&second, &store));
    store.remove(3);
    assert!(!state_is_kept(&second, &store));
}

#[test]
fn keyed_elements_keep_their_identifiers_when_one_is_removed() {
    let old = node(false, "root", 0, None, None, vec![
        node(true, "Container", 10, None, Some(0), vec![
            node(true, "Container", 11, None, Some(10), vec![
                node(true, "Text", 1, Some("a"), Some(11), vec![]),
                node(true, "Text", 2, Some("b"), Some(11), vec![]),
                node(true, "Text", 3, Some("c"), Some(11), vec![]),
            ]),
        ]),
    ]);
    let mut store = StateStore::new();
    let mut ids = IdAllocator::starting_at(30);
    let spec = container(vec![text("a").key("a".to_string()), text("c").key("c".to_string())]);
    let (tree, element) = pass(spec, Some(&old), &mut store, &mut ids);
    assert_eq!(tree.children[0].id, 10);
    let list = app(&tree);
    assert_eq!(list.id, 11);
    assert_eq!(list.children.len(), 2);
    assert_eq!(list.children[0].id, 1);
    assert_eq!(list.children[1].id, 3);
    assert_eq!(list.children[0].key, Some("a".to_string()));
    assert_eq!(list.children[1].key, Some("c".to_string()));
    assert!(list.children_keys.is_empty());
    assert_eq!(ids.peek(), 30);
    assert_eq!(app_element(&element).children[1].component_id, 3);
}

#[test]
fn keyed_elements_keep_their_identifiers_when_they_swap() {
    let mut store = StateStore::new();
    let mut ids = IdAllocator::new();
    let (first, _) = pass(
        container(vec![text("a").key("a".to_string()), container(vec![text("in")]).key("b".to_string())]),
        None,
        &mut store,
        &mut ids,
    );
    assert_eq!(all_ids(app(&first)), vec![2, 3, 4, 5]);
    let (second, _) = pass(
        container(vec![container(vec![text("in")]).key("b".to_string()), text("a").key("a".to_string())]),
        Some(&first),
        &mut store,
        &mut ids,
    );
    assert_eq!(all_ids(app(&second)), vec![2, 4, 5, 3]);
    assert_eq!(ids.peek(), 6);
}

#[test]
fn keyed_child_of_another_type_than_its_old_sibling_is_remounted() {
    let mut store = StateStore::new();
    let mut ids = IdAllocator::new();
    let (first, _) = pass(container(vec![text("a").key("k".to_string())]), None, &mut store, &mut ids);
    assert_eq!(app(&first).children[0].id, 3);
    let (second, _) = pass(
        container(vec![text("x"), container(vec![]).key("k".to_string())]),
        Some(&first),
        &mut store,
        &mut ids,
    );
    // the unkeyed text meets the old text at its position; the keyed container meets
    // the old text under its key, which is of another type
    assert_eq!(app(&second).children[0].id, 3);
    assert_eq!(app(&second).children[1].id, 4);
}

#[test]
fn component_does_not_continue_an_element_under_the_same_tag() {
    let old = node(false, "root", 0, None, None, vec![
        node(true, "Container", 1, None, Some(0), vec![node(true, "Counter", 7, None, Some(1), vec![])]),
    ]);
    let mut store = StateStore::new();
    let mut ids = IdAllocator::starting_at(9);
    assert!(state_is_kept(&old, &store));
    let (tree, _) = pass(widget(Widget::Counter), Some(&old), &mut store, &mut ids);
    assert_eq!(app(&tree).id, 9);
    assert!(!app(&tree).is_element);
}

#[test]
fn old_root_without_child_is_malformed() {
    let old = node(false, "root", 0, None, None, vec![]);
    let mut store = StateStore::new();
    let mut ids = IdAllocator::new();
    assert_eq!(
        fails(text("a"), Some(&old), &mut store, &mut ids),
        ReconcileError::MalformedShadowTree
    );
}

#[test]
fn continued_component_node_without_child_is_malformed() {
    let old = node(false, "root", 0, None, None, vec![
        node(true, "Container", 1, None, Some(0), vec![node(false, "Counter", 7, None, Some(1), vec![])]),
    ]);
    let mut store = StateStore::new();
    store.set(7, StateValue::UInt(3));
    let mut ids = IdAllocator::starting_at(9);
    assert_eq!(
        fails(widget(Widget::Counter), Some(&old), &mut store, &mut ids),
        ReconcileError::MalformedShadowTree
    );
    assert_eq!(store.get(7).unwrap().as_uint(), Ok(3));
}

#[test]
fn recorded_key_without_its_child_is_malformed() {
    let mut list = node(true, "Container", 2, None, Some(1), vec![]);
    list.children_keys.push(("k".to_string(), 7));
    let old = node(false, "root", 0, None, None, vec![node(true, "Container", 1, None, Some(0), vec![list])]);
    let mut store = StateStore::new();
    store.set(7, StateValue::UInt(3));
    let mut ids = IdAllocator::starting_at(9);
    assert_eq!(
        fails(container(vec![keyed(Widget::Counter, "k")]), Some(&old), &mut store, &mut ids),
        ReconcileError::MalformedShadowTree
    );
}

#[test]
fn two_component_siblings_under_one_key_are_rejected() {
    let mut store = StateStore::new();
    let mut ids = IdAllocator::new();
    assert_eq!(
        fails(
            container(vec![keyed(Widget::Counter, "k"), text("between"), keyed(Widget::Tally, "k")]),
            None,
            &mut store,
            &mut ids
        ),
        ReconcileError::DuplicateKey
    );
}

#[test]
fn keyed_siblings_of_any_kind_under_one_key_are_rejected() {
    let mut store = StateStore::new();
    let mut ids = IdAllocator::new();
    assert_eq!(
        fails(
            container(vec![text("a").key("k".to_string()), text("b").key("k".to_string())]),
            None,
            &mut store,
            &mut ids
        ),
        ReconcileError::DuplicateKey
    );
    assert_eq!(
        fails(
            container(vec![text("a").key("k".to_string()), keyed(Widget::Counter, "k")]),
            None,
            &mut store,
            &mut ids
        ),
        ReconcileError::DuplicateKey
    );
}

#[test]
fn keys_of_elements_are_carried_and_not_recorded() {
    let mut store = StateStore::new();
    let mut ids = IdAllocator::new();
    let (tree, _) = pass(
        container(vec![text("a").key("k".to_string()), keyed(Widget::Counter, "c")]),
        None,
        &mut store,
        &mut ids,
    );
    assert_eq!(app(&tree).children[0].key, Some("k".to_string()));
    assert_eq!(app(&tree).children_keys, vec![("c".to_string(), 4)]);
}

#[test]
fn component_that_renders_itself_is_stopped() {
    let mut store = StateStore::new();
    let mut ids = IdAllocator::new();
    assert_eq!(
        fails(widget(Widget::Endless), None, &mut store, &mut ids),
        ReconcileError::NestingTooDeep
    );
    assert_eq!(ids.peek(), 2 + MAX_COMPONENT_DEPTH as u64);
}

#[test]
fn exhausted_identifiers_end_the_pass() {
    let mut store = StateStore::new();
    let mut ids = IdAllocator::starting_at(u64::MAX);
    assert_eq!(fails(text("a"), None, &mut store, &mut ids), ReconcileError::IdSpaceExhausted);
    assert_eq!(ids.peek(), u64::MAX);
    assert_eq!(ids.allocate_id(), None);
}

#[test]
fn prototype_children_stay_in_front_of_the_mounted_ones() {
    let mut store = StateStore::new();
    let mut ids = IdAllocator::new();
    let shell = Element::new(ElementKind::Container, String::new())
        .add_child(Element::new(ElementKind::Empty, String::new()));
    let spec: Spec = ComponentSpecification::from_element(shell).push(text("mounted"));
    let (tree, element) = pass(spec, None, &mut store, &mut ids);
    assert_eq!(app(&tree).children.len(), 1);
    let shown = app_element(&element);
    assert_eq!(shown.children.len(), 2);
    assert_eq!(shown.children[0].kind, ElementKind::Empty);
    assert_eq!(shown.children[0].component_id, 0);
    assert_eq!(shown.children[1].content, "mounted");
    assert_eq!(shown.children[1].component_id, 3);
}

#[test]
fn user_identifier_and_props_pass_through() {
    let mut store = StateStore::new();
    let mut ids = IdAllocator::new();
    let mut button = Element::new(ElementKind::Container, String::new());
    button.set_id(Some("increment".to_string()));
    let spec: Spec = ComponentSpecification::from_element(button)
        .props(Props::new(StateValue::Int(-4)));
    let (_, element) = pass(spec, None, &mut store, &mut ids);
    assert_eq!(app_element(&element).id(), &Some("increment".to_string()));
    assert_eq!(app_element(&element).component_id(), 2);
}

#[test]
fn sweeping_keeps_the_state_of_mounted_components_only() {
    let mut store = StateStore::new();
    let mut ids = IdAllocator::new();
    let (first, _) = pass(
        container(vec![keyed(Widget::Counter, "x"), keyed(Widget::Counter, "y"), widget(Widget::Outer)]),
        None,
        &mut store,
        &mut ids,
    );
    let mut listed = Vec::new();
    collect_component_ids(&first, &mut listed);
    // root, counter x, counter y, outer, the counter inside outer
    assert_eq!(listed, vec![0, 3, 5, 7, 8]);
    store.set(2, StateValue::Bool(true));
    let (second, _) = pass(container(vec![keyed(Widget::Counter, "y")]), Some(&first), &mut store, &mut ids);
    for id in [2, 3, 5, 7, 8] {
        assert!(store.contains(id));
    }
    prune_state(&second, &mut store);
    assert!(store.contains(5));
    assert_eq!(store.get(5).unwrap().as_uint(), Ok(2));
    for id in [0, 1, 2, 3, 4, 6, 7, 8] {
        assert!(!store.contains(id));
    }
    let (third, _) = pass(container(vec![keyed(Widget::Counter, "y")]), Some(&second), &mut store, &mut ids);
    assert_eq!(app(&third).children[0].id, 5);
    assert_eq!(store.get(5).unwrap().as_uint(), Ok(3));
}

#[test]
fn trees_of_elements_need_no_component_of_their_own() {
    let mut store = StateStore::new();
    let mut ids = IdAllocator::new();
    let spec: ComponentSpecification<NoComponent> = ComponentSpecification::from_element(
        Element::new(ElementKind::Container, String::new()),
    )
    .push(ComponentSpecification::from_element(Element::new(ElementKind::Text, "a".to_string())))
    .push(ComponentSpecification::from_component(NoComponent {}));
    let (tree, element) =
        create_trees_from_render_specification(spec, root(), None, &mut store, &mut ids).unwrap();
    let list = &tree.children[0].children[0];
    assert_eq!(list.children.len(), 2);
    assert_eq!(list.children[0].id, 3);
    assert_eq!(list.children[1].tag, "");
    assert_eq!(list.children[1].id, 4);
    assert_eq!(list.children[1].children[0].tag, "Empty");
    assert_eq!(list.children[1].children[0].id, 5);
    assert_eq!(element.children[0].children[0].children[1].kind, ElementKind::Empty);
    assert!(store.get(4).unwrap().is_unit());
}

#[test]
fn children_under_a_leaf_element_are_refused() {
    let mut store = StateStore::new();
    let mut ids = IdAllocator::new();
    let spec = container(vec![text("fine"), text("parent").push(text("child"))]);
    assert_eq!(
        fails(spec, None, &mut store, &mut ids),
        ReconcileError::ChildrenNotAccepted { kind: ElementKind::Text, index: 1 }
    );
    // the root copy, the container and the first text were mounted before
    assert_eq!(ids.peek(), 4);

    let image: Spec =
        ComponentSpecification::from_element(Element::new(ElementKind::Image, "cat.jpg".to_string()))
            .push(text("caption"));
    assert_eq!(
        fails(image, None, &mut store, &mut ids),
        ReconcileError::ChildrenNotAccepted { kind: ElementKind::Image, index: 0 }
    );
    let text_root = Element::new(ElementKind::Text, String::new());
    let refused = create_trees_from_render_specification(text("a"), text_root, None, &mut store, &mut ids);
    assert!(matches!(
        refused,
        Err(ReconcileError::ChildrenNotAccepted { kind: ElementKind::Text, index: 0 })
    ));
    assert!(Element::accepts_children(ElementKind::Container));
    assert!(!Element::accepts_children(ElementKind::Empty));
}

#[test]
fn outline_shows_keys_as_debug_writes_them() {
    let plain = node(true, "Text", 1, Some("k"), None, vec![]);
    assert_eq!(plain.outline(), "└─ , Tag: Text, Id: 1, Key: Some(\"k\")\n");
    let odd = node(true, "Text", 2, Some("a\"b\\c\nd\te"), None, vec![]);
    assert_eq!(odd.outline(), "└─ , Tag: Text, Id: 2, Key: Some(\"a\\\"b\\\\c\\nd\\te\")\n");
    assert_eq!(odd.outline(), format!("└─ , Tag: Text, Id: 2, Key: {:?}\n", Some("a\"b\\c\nd\te")));
    let none = node(false, "root", 0, None, None, vec![]);
    assert_eq!(none.outline(), "└─ , Tag: root, Id: 0, Key: None\n");
}

#[test]
fn caller_chooses_how_deep_components_may_nest() {
    let mut store = StateStore::new();
    let mut ids = IdAllocator::new();
    let shallow =
        create_trees_within_depth(widget(Widget::Outer), root(), None, &mut store, &mut ids, 1);
    assert!(matches!(shallow, Err(ReconcileError::NestingTooDeep)));
    // the root copy and the outer component were mounted before the pass gave up
    assert_eq!(ids.peek(), 3);
    let none = create_trees_within_depth(widget(Widget::Outer), root(), None, &mut store, &mut ids, 0);
    assert!(matches!(none, Err(ReconcileError::NestingTooDeep)));
    assert_eq!(ids.peek(), 4);
    let (tree, _) =
        create_trees_within_depth(widget(Widget::Outer), root(), None, &mut store, &mut ids, 2).unwrap();
    assert_eq!(all_ids(&tree), vec![0, 4, 5, 6, 7]);
    let elements_only =
        create_trees_within_depth(container(vec![text("a")]), root(), None, &mut store, &mut ids, 0);
    assert!(elements_only.is_ok());
}
