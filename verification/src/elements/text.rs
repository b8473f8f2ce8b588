use vstd::prelude::*;
use std::hash::Hasher;
use crate::elements::element::{Element, ElementKind, ElementModel};

verus! {

/// An element that shows text.
#[derive(Debug)]
pub struct Text {
    pub element: Element,
}

impl View for Text {
    type V = ElementModel;

    open spec fn view(&self) -> ElementModel {
        self.element@
    }
}

/// What a text element keeps between renders: the identifier of its node and
/// the hash of the text that was last laid out, if any was.
#[derive(Clone, Copy, Debug, PartialEq, Eq, Structural)]
pub struct TextState {
    pub id: u64,
    pub text_hash: Option<u64>,
}

impl TextState {
    /// The state of a text element that has not been laid out yet.
    pub fn new(id: u64) -> (state: TextState)
        ensures
            state == (TextState { id, text_hash: None }),
    {
        TextState { id, text_hash: None }
    }

    /// The font family chosen for the text: none, so the default is used.
    pub fn font_family(&self) -> (family: Option<&str>)
        ensures
            family.is_none(),
    {
        None
    }

    /// Records `text_hash` as the hash of the text now shown, and says
    /// whether the text has to be laid out again: whether no hash was
    /// recorded, or another one.
    pub fn refresh(&mut self, text_hash: u64) -> (changed: bool)
        ensures
            changed == (old(self).text_hash != Some(text_hash)),
            *final(self) == (TextState { id: old(self).id, text_hash: Some(text_hash) }),
    {
        let changed = match self.text_hash {
            Some(h) => h != text_hash,
            None => true,
        };
        self.text_hash = Some(text_hash);
        changed
    }
}

/// The hash of `text`, by `rustc_hash::FxHasher`: a fresh hasher is fed the
/// bytes of the text once and finished. Nothing is claimed of the value: it
/// differs between machines of different word size.
#[verifier::external_body]
fn fx_hash(text: &String) -> (hash: u64) {
    let mut hasher = rustc_hash::FxHasher::default();
    hasher.write(text.as_bytes());
    hasher.finish()
}

impl Text {
    pub fn new(text: &str) -> (element: Text)
        ensures
            element@ == Element::blank(ElementKind::Text, text@),
    {
        Text { element: Element::new(ElementKind::Text, text.to_owned()) }
    }

    /// The text under the user identifier `id`.
    pub fn id(self, id: &str) -> (element: Text)
        ensures
            element@ == (ElementModel { id: Some(id@), ..self@ }),
    {
        let mut element = self.element;
        element.set_id(Some(id.to_owned()));
        Text { element }
    }

    /// The state with which the text is first mounted.
    pub fn initialize_state(&self) -> (state: TextState)
        ensures
            state == (TextState { id: self@.component_id, text_hash: None }),
    {
        TextState::new(self.element.component_id)
    }

    /// Brings `state` up to the text now shown, and says whether the text
    /// has to be laid out again: whether its hash is not the one recorded.
    pub fn update_state(&self, state: &mut TextState) -> (changed: bool)
        ensures
            final(state).id == old(state).id,
            final(state).text_hash is Some,
            changed == (old(state).text_hash != final(state).text_hash),
    {
        let text_hash = fx_hash(&self.element.content);
        state.refresh(text_hash)
    }
}

impl From<Text> for Element {
    fn from(text: Text) -> (element: Element) {
        text.element
    }
}

impl vstd::std_specs::convert::FromSpecImpl<Text> for Element {
    open spec fn obeys_from_spec() -> bool {
        true
    }

    open spec fn from_spec(text: Text) -> Element {
        text.element
    }
}

} // verus!
