use vstd::prelude::*;
use crate::components::props::{props_model, text_model, Props, PropsModel, StateModel, StateValue};
use crate::elements::element::{Element, ElementModel};

verus! {

/// What a specification node describes: a concrete element, or a component
/// that produces a specification one level deeper.
pub enum ComponentOrElement<C> {
    Element(Element),
    ComponentSpec(C),
}

/// One node of the tree that user code declares anew for every render.
pub struct ComponentSpecification<C> {
    pub component: ComponentOrElement<C>,
    pub key: Option<String>,
    pub props: Option<Props>,
    pub children: Vec<ComponentSpecification<C>>,
}

/// What a specification node describes, as mathematics.
pub ghost enum ContentModel<C> {
    Element(ElementModel),
    Component(C),
}

/// A specification tree as mathematics.
pub ghost struct SpecificationModel<C> {
    pub content: ContentModel<C>,
    pub key: Option<Seq<char>>,
    pub props: Option<PropsModel>,
    pub children: Seq<SpecificationModel<C>>,
}

impl<C> ComponentSpecification<C> {
    /// The specification tree as mathematics.
    pub open spec fn model(&self) -> SpecificationModel<C>
        decreases self,
    {
        SpecificationModel {
            content: match self.component {
                ComponentOrElement::Element(e) => ContentModel::Element(e@),
                ComponentOrElement::ComponentSpec(c) => ContentModel::Component(c),
            },
            key: text_model(self.key),
            props: props_model(self.props),
            children: Seq::new(
                self.children@.len(),
                |i: int|
                    if 0 <= i < self.children@.len() {
                        self.children@[i].model()
                    } else {
                        arbitrary()
                    },
            ),
        }
    }
}

impl<C> View for ComponentSpecification<C> {
    type V = SpecificationModel<C>;

    open spec fn view(&self) -> SpecificationModel<C> {
        self.model()
    }
}

/// The models of a sequence of specifications, in order.
pub open spec fn specifications_model<C>(specifications: Seq<ComponentSpecification<C>>) -> Seq<
    SpecificationModel<C>,
> {
    Seq::new(
        specifications.len(),
        |i: int|
            if 0 <= i < specifications.len() {
                specifications[i]@
            } else {
                arbitrary()
            },
    )
}

/// What one call of a component's factory returns: the state to persist, the
/// specification the component renders, and the handler of its events.
pub struct ViewResult<C, U> {
    pub state: StateValue,
    pub specification: ComponentSpecification<C>,
    pub update: Option<U>,
}

/// What a factory returns, as mathematics.
pub ghost struct ViewModel<C, U> {
    pub state: StateModel,
    pub specification: SpecificationModel<C>,
    pub update: Option<U>,
}

impl<C, U> View for ViewResult<C, U> {
    type V = ViewModel<C, U>;

    open spec fn view(&self) -> ViewModel<C, U> {
        ViewModel { state: self.state@, specification: self.specification@, update: self.update }
    }
}

/// A stateful piece of UI: a function from its persisted state, its props,
/// the children declared under it and its stable identifier to the
/// specification it renders.
///
/// Nothing is asked of an implementation here. What the reconciler promises
/// of a pass it promises for components that are functions of their
/// arguments: see [`component_is_function`].
pub trait Component: Sized {
    /// The handler a component returns for its events.
    type Update;

    /// The type tag under which instances are compared across renders.
    fn tag(&self) -> String;

    /// The state an instance has when it is first mounted.
    fn initial_state(&self) -> StateValue;

    /// The factory: what the component renders from its state.
    fn view(
        &self,
        state: &StateValue,
        props: Option<Props>,
        children: Vec<ComponentSpecification<Self>>,
        id: u64,
    ) -> ViewResult<Self, Self::Update>;
}

/// Whether `tag` is a type tag that `component` may return.
pub open spec fn may_tag<C: Component>(component: C, tag: Seq<char>) -> bool {
    exists|returned: String| #[trigger] call_ensures(C::tag, (&component,), returned) && returned@ == tag
}

/// Whether `state` is an initial state that `component` may return.
pub open spec fn may_start<C: Component>(component: C, state: StateModel) -> bool {
    exists|returned: StateValue| #[trigger]
        call_ensures(C::initial_state, (&component,), returned) && returned@ == state
}

/// Whether `rendered` is something that the factory of `component` may
/// return on arguments with the given models.
pub open spec fn may_render<C: Component>(
    component: C,
    state: StateModel,
    props: Option<PropsModel>,
    children: Seq<SpecificationModel<C>>,
    id: u64,
    rendered: ViewModel<C, C::Update>,
) -> bool {
    exists|
        given_state: StateValue,
        given_props: Option<Props>,
        given_children: Vec<ComponentSpecification<C>>,
        returned: ViewResult<C, C::Update>,
    | #[trigger]
        call_ensures(C::view, (&component, &given_state, given_props, given_children, id), returned)
            && given_state@ == state && props_model(given_props) == props && specifications_model(
            given_children@,
        ) == children && returned@ == rendered
}

/// The type tag of `component`.
pub open spec fn tag_of<C: Component>(component: C) -> Seq<char> {
    choose|tag: Seq<char>| may_tag(component, tag)
}

/// The state `component` starts from.
pub open spec fn initial_state_of<C: Component>(component: C) -> StateModel {
    choose|state: StateModel| may_start(component, state)
}

/// What the factory of `component` returns on arguments with the given
/// models.
pub open spec fn rendered_by<C: Component>(
    component: C,
    state: StateModel,
    props: Option<PropsModel>,
    children: Seq<SpecificationModel<C>>,
    id: u64,
) -> ViewModel<C, C::Update> {
    choose|rendered: ViewModel<C, C::Update>| may_render(component, state, props, children, id, rendered)
}

/// Whether the components of type `C` are functions: what each method
/// returns is decided, as far as the models go, by the models of its
/// arguments.
pub open spec fn component_is_function<C: Component>() -> bool {
    &&& forall|component: C, first: Seq<char>, second: Seq<char>|
        may_tag(component, first) && may_tag(component, second) ==> first == second
    &&& forall|component: C, first: StateModel, second: StateModel|
        may_start(component, first) && may_start(component, second) ==> first == second
    &&& forall|
        component: C,
        state: StateModel,
        props: Option<PropsModel>,
        children: Seq<SpecificationModel<C>>,
        id: u64,
        first: ViewModel<C, C::Update>,
        second: ViewModel<C, C::Update>,
    |
        may_render(component, state, props, children, id, first) && may_render(
            component,
            state,
            props,
            children,
            id,
            second,
        ) ==> first == second
}

/// A tag that a function component returned is its tag.
pub proof fn lemma_returned_tag<C: Component>(component: C, returned: String)
    requires
        component_is_function::<C>(),
        call_ensures(C::tag, (&component,), returned),
    ensures
        returned@ == tag_of(component),
{
    assert(may_tag(component, returned@));
}

/// An initial state that a function component returned is its initial state.
pub proof fn lemma_returned_initial_state<C: Component>(component: C, returned: StateValue)
    requires
        component_is_function::<C>(),
        call_ensures(C::initial_state, (&component,), returned),
    ensures
        returned@ == initial_state_of(component),
{
    assert(may_start(component, returned@));
}

/// What the factory of a function component returned is what it renders.
pub proof fn lemma_returned_view<C: Component>(
    component: C,
    state: StateValue,
    props: Option<Props>,
    children: Vec<ComponentSpecification<C>>,
    id: u64,
    returned: ViewResult<C, C::Update>,
)
    requires
        component_is_function::<C>(),
        call_ensures(C::view, (&component, &state, props, children, id), returned),
    ensures
        returned@ == rendered_by(
            component,
            state@,
            props_model(props),
            specifications_model(children@),
            id,
        ),
{
    assert(may_render(
        component,
        state@,
        props_model(props),
        specifications_model(children@),
        id,
        returned@,
    ));
}

impl<C> ComponentSpecification<C> {
    /// A childless, keyless specification of `element`.
    pub fn from_element(element: Element) -> (specification: ComponentSpecification<C>)
        ensures
            specification@ == (SpecificationModel::<C> {
                content: ContentModel::Element(element@),
                key: None,
                props: None,
                children: Seq::empty(),
            }),
    {
        let specification = ComponentSpecification {
            component: ComponentOrElement::Element(element),
            key: None,
            props: None,
            children: Vec::new(),
        };
        assert(specification@.children =~= Seq::<SpecificationModel<C>>::empty());
        specification
    }

    /// A childless, keyless specification of `component`.
    pub fn from_component(component: C) -> (specification: ComponentSpecification<C>)
        ensures
            specification@ == (SpecificationModel::<C> {
                content: ContentModel::Component(component),
                key: None,
                props: None,
                children: Seq::empty(),
            }),
    {
        let specification = ComponentSpecification {
            component: ComponentOrElement::ComponentSpec(component),
            key: None,
            props: None,
            children: Vec::new(),
        };
        assert(specification@.children =~= Seq::<SpecificationModel<C>>::empty());
        specification
    }

    /// The specification under `key`.
    pub fn key(self, key: String) -> (specification: ComponentSpecification<C>)
        ensures
            specification@ == (SpecificationModel::<C> { key: Some(key@), ..self@ }),
    {
        let mut specification = self;
        specification.key = Some(key);
        specification
    }

    /// The specification with `props` as its payload.
    pub fn props(self, props: Props) -> (specification: ComponentSpecification<C>)
        ensures
            specification@ == (SpecificationModel::<C> { props: Some(props@), ..self@ }),
    {
        let mut specification = self;
        specification.props = Some(props);
        specification
    }

    /// The specification with `child` as its new last child.
    pub fn push(self, child: ComponentSpecification<C>) -> (specification: ComponentSpecification<C>)
        ensures
            specification@ == (SpecificationModel::<C> {
                children: self@.children.push(child@),
                ..self@
            }),
    {
        let mut specification = self;
        specification.children.push(child);
        assert(specification@.children =~= self@.children.push(child@));
        specification
    }
}

} // verus!
