use oku_core::decimal::decimal;
use oku_core::elements::container::Container;
use oku_core::elements::element::{Element, ElementKind};
use oku_core::elements::empty::Empty;
use oku_core::elements::style::{Color, Style, Unit};
use oku_core::elements::text::{Text, TextState};
use oku_core::elements::trees::{assign_tree_new_ids, diff_tree};
use oku_core::reactive::element_id::IdAllocator;
use oku_core::reactive::reconcile::ReconcileError;

#[test]
fn diff_assigns_stable_id_when_child_is_removed() {
    let mut old_a = Container::new();
    let old_b = Text::new("b");
    let old_c = Text::new("c");

    old_a = old_a.add_child(old_b.into());
    old_a = old_a.add_child(old_c.into());

    let old_a: Element = old_a.into();
    println!("{}", old_a.outline());

    // Start the identifiers over, as for a new render.
    let mut ids = IdAllocator::new();
    ids.reset();

    let mut new_a = Container::new();
    let new_b: Element = Empty::new().into();
    let new_c = Text::new("c").into();
    new_a = new_a.add_child(new_b);
    new_a = new_a.add_child(new_c);
    let new_a: Element = new_a.into();

    println!("{}", new_a.outline());

    assert_eq!(old_a.children()[1].id(), new_a.children()[1].id(), "test that b has the same id when removed");
}

fn sample(kinds: &[ElementKind]) -> Element {
    let mut root = Element::new(ElementKind::Container, String::new());
    for kind in kinds {
        root = root.add_child(Element::new(*kind, String::new()));
    }
    root
}

fn ids_in(element: &Element) -> Vec<u64> {
    let mut out = vec![element.component_id];
    for child in &element.children {
        out.extend(ids_in(child));
    }
    out
}

#[test]
fn new_identifiers_go_to_the_root_first_and_the_last_child_next() {
    let mut tree = sample(&[ElementKind::Text, ElementKind::Text])
        .add_child(sample(&[ElementKind::Image, ElementKind::Text]));
    let mut ids = IdAllocator::new();
    assert_eq!(assign_tree_new_ids(&mut tree, &mut ids), Ok(()));
    // root, text, text, container(image, text)
    assert_eq!(ids_in(&tree), vec![1, 6, 5, 2, 4, 3]);
    assert_eq!(ids.peek(), 7);
}

#[test]
fn new_identifiers_that_run_out_leave_the_tree_alone() {
    let mut tree = sample(&[ElementKind::Text]);
    let mut ids = IdAllocator::starting_at(u64::MAX - 1);
    assert_eq!(assign_tree_new_ids(&mut tree, &mut ids), Err(ReconcileError::IdSpaceExhausted));
    assert_eq!(ids_in(&tree), vec![0, 0]);
    assert_eq!(ids.peek(), u64::MAX);
    let old = sample(&[ElementKind::Image]);
    assert!(matches!(diff_tree(Some(&old), &mut tree, &mut ids), Err(ReconcileError::IdSpaceExhausted)));
    assert_eq!(ids_in(&tree), vec![0, 0]);
}

#[test]
fn diff_without_an_old_tree_mounts_everything() {
    let mut tree = sample(&[ElementKind::Text, ElementKind::Text]);
    let mut ids = IdAllocator::new();
    let copy = diff_tree(None, &mut tree, &mut ids).unwrap();
    assert_eq!(ids_in(&tree), vec![1, 3, 2]);
    assert_eq!(ids_in(&copy), vec![1, 3, 2]);
}

#[test]
fn diff_keeps_the_identifiers_of_siblings_around_a_place_holder() {
    let mut old = sample(&[ElementKind::Text, ElementKind::Text, ElementKind::Text]);
    let mut ids = IdAllocator::new();
    assign_tree_new_ids(&mut old, &mut ids).unwrap();
    assert_eq!(ids_in(&old), vec![1, 4, 3, 2]);
    let mut new = sample(&[ElementKind::Text, ElementKind::Empty, ElementKind::Text]);
    let copy = diff_tree(Some(&old), &mut new, &mut ids).unwrap();
    assert_eq!(ids_in(&new), vec![1, 4, 3, 2]);
    assert_eq!(ids_in(&copy), vec![1, 4, 3, 2]);
    assert_eq!(new.children[1].kind, ElementKind::Empty);
    assert_eq!(ids.peek(), 5);
}

#[test]
fn diff_mounts_a_child_of_another_type_afresh() {
    let mut old = sample(&[ElementKind::Text, ElementKind::Text]);
    let mut ids = IdAllocator::new();
    assign_tree_new_ids(&mut old, &mut ids).unwrap();
    assert_eq!(ids_in(&old), vec![1, 3, 2]);
    let mut new = sample(&[ElementKind::Text]).add_child(sample(&[ElementKind::Text]));
    diff_tree(Some(&old), &mut new, &mut ids).unwrap();
    // the container in the place of the second text is new, and so is what it holds
    assert_eq!(ids_in(&new), vec![1, 3, 4, 5]);
    assert_eq!(ids.peek(), 6);
}

#[test]
fn diff_stops_where_the_old_tree_ends() {
    let mut old = sample(&[ElementKind::Text]);
    let mut ids = IdAllocator::new();
    assign_tree_new_ids(&mut old, &mut ids).unwrap();
    assert_eq!(ids_in(&old), vec![1, 2]);
    let mut new = sample(&[ElementKind::Text, ElementKind::Text]);
    new.children[0].set_component_id(77);
    diff_tree(Some(&old), &mut new, &mut ids).unwrap();
    // the last child meets the old tree's only child; the first meets nothing
    assert_eq!(ids_in(&new), vec![1, 77, 2]);
    assert_eq!(ids.peek(), 3);
}

#[test]
fn diff_of_roots_of_different_types_mounts_the_new_tree() {
    let mut old = sample(&[ElementKind::Text]);
    let mut ids = IdAllocator::new();
    assign_tree_new_ids(&mut old, &mut ids).unwrap();
    let mut new = Element::new(ElementKind::Text, "t".to_string());
    diff_tree(Some(&old), &mut new, &mut ids).unwrap();
    assert_eq!(ids_in(&new), vec![3]);
    let mut gone = Element::new(ElementKind::Empty, String::new());
    diff_tree(Some(&old), &mut gone, &mut ids).unwrap();
    assert_eq!(ids_in(&gone), vec![1]);
}

#[test]
fn element_names_are_the_type_names() {
    assert_eq!(Element::new(ElementKind::Container, String::new()).name(), "Container");
    assert_eq!(Element::new(ElementKind::Text, String::new()).name(), "Text");
    assert_eq!(Element::new(ElementKind::Image, String::new()).name(), "Image");
    assert_eq!(Element::new(ElementKind::Empty, String::new()).name(), "Empty");
    assert_eq!(Element::kind_tag(ElementKind::Image), "Image");
}

#[test]
fn builders_fill_in_what_they_are_given() {
    let text: Element = Text::new("hello").id("greeting").into();
    assert_eq!(text.kind, ElementKind::Text);
    assert_eq!(text.content, "hello");
    assert_eq!(text.id(), &Some("greeting".to_string()));
    assert_eq!(text.component_id(), 0);
    assert_eq!(text.style, Style::new());
    let container: Element = Container::new()
        .width(Unit::Px(300))
        .height(Unit::Percentage(50))
        .background(Color::new_from_rgba_u8(1, 2, 3, 4))
        .add_child(text.clone())
        .into();
    assert_eq!(container.style.width, Unit::Px(300));
    assert_eq!(container.style.height, Unit::Percentage(50));
    assert_eq!(container.style.background, Color { r: 1, g: 2, b: 3, a: 4 });
    assert_eq!(container.children().len(), 1);
    assert_eq!(container.children()[0].content, "hello");
    let empty: Element = Empty::new().into();
    assert_eq!(empty.kind, ElementKind::Empty);
    assert!(empty.children().is_empty());
}

#[test]
fn element_outline_marks_the_last_child() {
    let mut tree = sample(&[ElementKind::Text, ElementKind::Image]);
    tree.set_component_id(10);
    tree.children[0].set_component_id(4294967296);
    assert_eq!(
        tree.outline(),
        "└─Container, Parent Component Id: 10\n\
         \x20 ├─Text, Parent Component Id: 4294967296\n\
         \x20 └─Image, Parent Component Id: 0\n"
    );
}

#[test]
fn decimal_text_of_numbers() {
    assert_eq!(decimal(0), "0");
    assert_eq!(decimal(7), "7");
    assert_eq!(decimal(10), "10");
    assert_eq!(decimal(1234567890), "1234567890");
    assert_eq!(decimal(u64::MAX), "18446744073709551615");
}

#[test]
fn text_state_tells_when_the_text_changed() {
    let mut text: Element = Text::new("one").into();
    text.set_component_id(9);
    let shown = Text { element: text };
    let mut state = shown.initialize_state();
    assert_eq!(state, TextState { id: 9, text_hash: None });
    assert_eq!(state.font_family(), None);
    assert!(shown.update_state(&mut state));
    let first = state.text_hash;
    assert!(first.is_some());
    assert!(!shown.update_state(&mut state));
    assert_eq!(state.text_hash, first);
    let other = Text::new("two");
    assert!(other.update_state(&mut state));
    assert_ne!(state.text_hash, first);
    assert_eq!(state.id, 9);
}

#[test]
fn text_state_refresh_records_the_hash() {
    let mut state = TextState::new(3);
    assert!(state.refresh(5));
    assert!(!state.refresh(5));
    assert!(state.refresh(6));
    assert_eq!(state, TextState { id: 3, text_hash: Some(6) });
}
