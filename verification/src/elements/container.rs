use vstd::prelude::*;
use crate::elements::element::{Element, ElementKind, ElementModel};
use crate::elements::style::{Color, Style, Unit};

verus! {

/// An element that lays out its children.
#[derive(Debug)]
pub struct Container {
    pub element: Element,
}

impl View for Container {
    type V = ElementModel;

    open spec fn view(&self) -> ElementModel {
        self.element@
    }
}

impl Container {
    pub fn new() -> (container: Container)
        ensures
            container@ == Element::blank(ElementKind::Container, Seq::empty()),
    {
        Container { element: Element::new(ElementKind::Container, String::new()) }
    }

    /// The container with `child` as its new last child.
    pub fn add_child(self, child: Element) -> (container: Container)
        ensures
            container@ == (ElementModel { children: self@.children.push(child@), ..self@ }),
    {
        Container { element: self.element.add_child(child) }
    }

    /// The container with the given width.
    pub fn width(self, width: Unit) -> (container: Container)
        ensures
            container@ == (ElementModel { style: Style { width, ..self@.style }, ..self@ }),
    {
        let mut element = self.element;
        element.style.width = width;
        Container { element }
    }

    /// The container with the given height.
    pub fn height(self, height: Unit) -> (container: Container)
        ensures
            container@ == (ElementModel { style: Style { height, ..self@.style }, ..self@ }),
    {
        let mut element = self.element;
        element.style.height = height;
        Container { element }
    }

    /// The container over the given background.
    pub fn background(self, background: Color) -> (container: Container)
        ensures
            container@ == (ElementModel { style: Style { background, ..self@.style }, ..self@ }),
    {
        let mut element = self.element;
        element.style.background = background;
        Container { element }
    }
}

impl From<Container> for Element {
    fn from(container: Container) -> (element: Element) {
        container.element
    }
}

impl vstd::std_specs::convert::FromSpecImpl<Container> for Element {
    open spec fn obeys_from_spec() -> bool {
        true
    }

    open spec fn from_spec(container: Container) -> Element {
        container.element
    }
}

} // verus!
