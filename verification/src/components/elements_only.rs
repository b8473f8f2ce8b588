//! Specification trees without components.

use vstd::prelude::*;
use crate::components::component::{
    component_is_function, Component, ComponentSpecification, ContentModel, SpecificationModel,
    ViewModel, ViewResult,
};
use crate::components::props::{Props, StateModel, StateValue};
use crate::elements::element::{Element, ElementKind};

verus! {

/// The component type for specification trees that are meant to hold
/// elements only. Should such a tree hold a component after all, it renders
/// an `Empty` element and keeps no state.
#[derive(Clone, Copy, Debug, PartialEq, Eq, Structural)]
pub struct NoComponent {}

/// What a component of this type renders.
pub open spec fn nothing() -> ViewModel<NoComponent, ()> {
    ViewModel {
        state: StateModel::Unit,
        specification: SpecificationModel {
            content: ContentModel::Element(Element::blank(ElementKind::Empty, Seq::empty())),
            key: None,
            props: None,
            children: Seq::empty(),
        },
        update: None,
    }
}

impl Component for NoComponent {
    type Update = ();

    fn tag(&self) -> (tag: String)
        ensures
            tag@ == Seq::<char>::empty(),
    {
        String::new()
    }

    fn initial_state(&self) -> (state: StateValue)
        ensures
            state@ == StateModel::Unit,
    {
        StateValue::Unit
    }

    fn view(
        &self,
        state: &StateValue,
        props: Option<Props>,
        children: Vec<ComponentSpecification<Self>>,
        id: u64,
    ) -> (rendered: ViewResult<Self, ()>)
        ensures
            rendered@ == nothing(),
    {
        ViewResult {
            state: StateValue::Unit,
            specification: ComponentSpecification::from_element(
                Element::new(ElementKind::Empty, String::new()),
            ),
            update: None,
        }
    }
}

/// The components of this type are functions: what the reconciler promises
/// of a pass holds of every tree of elements.
pub proof fn lemma_no_component_is_function()
    ensures
        component_is_function::<NoComponent>(),
{
}

} // verus!
