use vstd::prelude::*;
use crate::elements::element::{Element, ElementKind, ElementModel};

verus! {

/// An element that shows nothing and holds the place of one that was taken
/// away.
#[derive(Debug)]
pub struct Empty {
    pub element: Element,
}

impl View for Empty {
    type V = ElementModel;

    open spec fn view(&self) -> ElementModel {
        self.element@
    }
}

impl Empty {
    pub fn new() -> (empty: Empty)
        ensures
            empty@ == Element::blank(ElementKind::Empty, Seq::empty()),
    {
        Empty { element: Element::new(ElementKind::Empty, String::new()) }
    }
}

impl From<Empty> for Element {
    fn from(empty: Empty) -> (element: Element) {
        empty.element
    }
}

impl vstd::std_specs::convert::FromSpecImpl<Empty> for Element {
    open spec fn obeys_from_spec() -> bool {
        true
    }

    open spec fn from_spec(empty: Empty) -> Element {
        empty.element
    }
}

} // verus!
