use vstd::prelude::*;
use crate::elements::style::Style;
use crate::components::props::{text_model, clone_text};
use crate::decimal::{decimal_digits, push_decimal};
use vstd::string::StringExecFns;

verus! {

/// The primitives an element can be.
#[derive(Clone, Copy, Debug, PartialEq, Eq, Structural)]
pub enum ElementKind {
    Container,
    Text,
    Image,
    Empty,
}

/// The type name of each primitive: the tag under which the reconciler
/// compares it with the node of the previous render.
pub open spec fn kind_name(kind: ElementKind) -> Seq<char> {
    match kind {
        ElementKind::Container => "Container"@,
        ElementKind::Text => "Text"@,
        ElementKind::Image => "Image"@,
        ElementKind::Empty => "Empty"@,
    }
}

/// Whether elements of the kind take child specifications: a container
/// does; a text, an image and a place holder are leaves.
pub open spec fn takes_children(kind: ElementKind) -> bool {
    kind == ElementKind::Container
}

/// An element as mathematics: its children as a sequence, its texts as
/// sequences of characters.
pub ghost struct ElementModel {
    pub kind: ElementKind,
    pub content: Seq<char>,
    pub style: Style,
    pub children: Seq<ElementModel>,
    pub id: Option<Seq<char>>,
    pub component_id: u64,
}

/// A concrete UI primitive. An element owns its children; nothing points
/// back at a parent.
#[derive(Debug)]
pub struct Element {
    pub kind: ElementKind,
    /// The text of a `Text`, the path of an `Image`; empty otherwise.
    pub content: String,
    pub style: Style,
    pub children: Vec<Element>,
    /// The identifier user code gave the element, for addressing events.
    pub id: Option<String>,
    /// The stable identifier the reconciler gave the element.
    pub component_id: u64,
}

impl View for Element {
    type V = ElementModel;

    open spec fn view(&self) -> ElementModel {
        self.model()
    }
}

impl Element {
    /// The element as mathematics.
    pub open spec fn model(&self) -> ElementModel
        decreases self,
    {
        ElementModel {
            kind: self.kind,
            content: self.content@,
            style: self.style,
            children: Seq::new(
                self.children@.len(),
                |i: int|
                    if 0 <= i < self.children@.len() {
                        self.children@[i].model()
                    } else {
                        arbitrary()
                    },
            ),
            id: text_model(self.id),
            component_id: self.component_id,
        }
    }
}

/// The models of a sequence of elements, in order.
pub open spec fn elements_model(elements: Seq<Element>) -> Seq<ElementModel> {
    Seq::new(
        elements.len(),
        |i: int|
            if 0 <= i < elements.len() {
                elements[i]@
            } else {
                arbitrary()
            },
    )
}

impl Element {
    /// A childless element of the given kind, with the default style, no
    /// user identifier and stable identifier 0.
    pub fn new(kind: ElementKind, content: String) -> (element: Element)
        ensures
            element@ == Element::blank(kind, content@),
    {
        let element = Element {
            kind,
            content,
            style: Style::new(),
            children: Vec::new(),
            id: None,
            component_id: 0,
        };
        assert(element@.children =~= Seq::<ElementModel>::empty());
        element
    }

    pub open spec fn blank(kind: ElementKind, content: Seq<char>) -> ElementModel {
        ElementModel {
            kind,
            content,
            style: Style::initial(),
            children: Seq::empty(),
            id: None,
            component_id: 0,
        }
    }

    /// The element's type name.
    pub fn name(&self) -> (name: &'static str)
        ensures
            name@ == kind_name(self.kind),
    {
        match self.kind {
            ElementKind::Container => "Container",
            ElementKind::Text => "Text",
            ElementKind::Image => "Image",
            ElementKind::Empty => "Empty",
        }
    }

    /// Whether elements of `kind` take child specifications.
    pub fn accepts_children(kind: ElementKind) -> (accepts: bool)
        ensures
            accepts == takes_children(kind),
    {
        match kind {
            ElementKind::Container => true,
            _ => false,
        }
    }

    /// The type name of `kind`, as an owned text.
    pub fn kind_tag(kind: ElementKind) -> (tag: String)
        ensures
            tag@ == kind_name(kind),
    {
        match kind {
            ElementKind::Container => "Container".to_owned(),
            ElementKind::Text => "Text".to_owned(),
            ElementKind::Image => "Image".to_owned(),
            ElementKind::Empty => "Empty".to_owned(),
        }
    }

    pub fn children(&self) -> (children: &Vec<Element>)
        ensures
            children == &self.children,
    {
        &self.children
    }

    pub fn id(&self) -> (id: &Option<String>)
        ensures
            id == &self.id,
    {
        &self.id
    }

    pub fn set_id(&mut self, id: Option<String>)
        ensures
            final(self)@ == (ElementModel { id: text_model(id), ..old(self)@ }),
    {
        self.id = id;
    }

    pub fn component_id(&self) -> (id: u64)
        ensures
            id == self.component_id,
    {
        self.component_id
    }

    pub fn set_component_id(&mut self, id: u64)
        ensures
            final(self)@ == (ElementModel { component_id: id, ..old(self)@ }),
    {
        self.component_id = id;
    }

    /// The element with `child` as its new last child.
    pub fn add_child(self, child: Element) -> (element: Element)
        ensures
            element@ == (ElementModel { children: self@.children.push(child@), ..self@ }),
    {
        let mut element = self;
        element.children.push(child);
        assert(element@.children =~= self@.children.push(child@));
        element
    }

    /// A deep copy.
    pub fn duplicate(&self) -> (copy: Element)
        ensures
            copy@ == self@,
        decreases self,
    {
        let mut children: Vec<Element> = Vec::new();
        let mut i: usize = 0;
        while i < self.children.len()
            invariant
                i <= self.children.len(),
                children.len() == i,
                forall|j: int| 0 <= j < i ==> children@[j]@ == self.children@[j]@,
            decreases self.children.len() - i,
        {
            let child = self.children[i].duplicate();
            children.push(child);
            i += 1;
        }
        let copy = Element {
            kind: self.kind,
            content: self.content.clone(),
            style: self.style,
            children,
            id: clone_text(&self.id),
            component_id: self.component_id,
        };
        assert(copy@.children =~= self@.children);
        copy
    }
}

impl Clone for Element {
    fn clone(&self) -> (copy: Element)
        ensures
            copy@ == self@,
    {
        self.duplicate()
    }
}

/// The mark in front of a node of an outline: one for the last child of its
/// parent, another for every other.
pub open spec fn connector(is_last: bool) -> Seq<char> {
    if is_last {
        "└─"@
    } else {
        "├─"@
    }
}

/// What one level of nesting adds to the margin of an outline.
pub open spec fn indentation() -> Seq<char> {
    "  "@
}

/// The outline of the tree under `element`: one line for the element, after
/// `margin`, then the outlines of its children, one level deeper.
pub open spec fn element_outline(element: ElementModel, margin: Seq<char>, is_last: bool) -> Seq<char>
    decreases element, 0nat,
{
    margin + connector(is_last) + kind_name(element.kind) + ", Parent Component Id: "@
        + decimal_digits(element.component_id as nat) + "\n"@ + elements_outline(
        element.children,
        0,
        margin + indentation(),
    )
}

/// The outlines of the children from position `from` on, in order.
pub open spec fn elements_outline(children: Seq<ElementModel>, from: int, margin: Seq<char>) -> Seq<char>
    decreases children, children.len() - from,
{
    if from < 0 || from >= children.len() {
        Seq::empty()
    } else {
        element_outline(children[from], margin, from == children.len() - 1) + elements_outline(
            children,
            from + 1,
            margin,
        )
    }
}

/// Appends the mark of a node to `out`.
pub fn push_connector(out: &mut String, is_last: bool)
    ensures
        final(out)@ == old(out)@ + connector(is_last),
{
    if is_last {
        out.append("└─");
    } else {
        out.append("├─");
    }
}

impl Element {
    /// The tree under the element as an indented outline, one line per
    /// element: its type name and its stable identifier.
    pub fn outline(&self) -> (text: String)
        ensures
            text@ == element_outline(self@, Seq::empty(), true),
    {
        let mut text = String::new();
        let margin = String::new();
        self.write_outline(&margin, true, &mut text);
        text
    }

    /// Appends the outline of the tree under the element to `out`.
    pub fn write_outline(&self, margin: &String, is_last: bool, out: &mut String)
        ensures
            final(out)@ == old(out)@ + element_outline(self@, margin@, is_last),
        decreases self,
    {
        out.append(margin.as_str());
        push_connector(out, is_last);
        out.append(self.name());
        out.append(", Parent Component Id: ");
        push_decimal(out, self.component_id);
        out.append("\n");
        let mut deeper = margin.clone();
        deeper.append("  ");
        let ghost start = out@;
        let ghost children = self@.children;
        let count = self.children.len();
        let mut i: usize = 0;
        while i < count
            invariant
                i <= count,
                count == self.children@.len(),
                children == self@.children,
                deeper@ == margin@ + indentation(),
                out@ + elements_outline(children, i as int, deeper@) == start + elements_outline(
                    children,
                    0,
                    deeper@,
                ),
            decreases count - i,
        {
            self.children[i].write_outline(&deeper, i + 1 == count, out);
            i += 1;
        }
    }
}

} // verus!
