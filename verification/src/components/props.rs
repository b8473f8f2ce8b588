use vstd::prelude::*;

verus! {

/// What a [`StateValue`] holds, with text as a sequence of characters.
pub ghost enum StateModel {
    Unit,
    Bool(bool),
    Int(i64),
    UInt(u64),
    Text(Seq<char>),
}

/// A type-erased payload: the persisted state of a component, or the data
/// handed to it as props. The typed accessors say which variant they expect
/// and fail with [`StateError::TypeMismatch`] on any other.
#[derive(Debug)]
pub enum StateValue {
    Unit,
    Bool(bool),
    Int(i64),
    UInt(u64),
    Text(String),
}

/// Why a typed read of a payload failed.
#[derive(Clone, Copy, Debug, PartialEq, Eq, Structural)]
pub enum StateError {
    /// No entry is stored under the identifier.
    Missing,
    /// The entry holds another variant than the one asked for.
    TypeMismatch,
}

impl View for StateValue {
    type V = StateModel;

    open spec fn view(&self) -> StateModel {
        match *self {
            StateValue::Unit => StateModel::Unit,
            StateValue::Bool(b) => StateModel::Bool(b),
            StateValue::Int(i) => StateModel::Int(i),
            StateValue::UInt(u) => StateModel::UInt(u),
            StateValue::Text(s) => StateModel::Text(s@),
        }
    }
}

impl Clone for StateValue {
    fn clone(&self) -> (copy: StateValue)
        ensures
            copy@ == self@,
    {
        match self {
            StateValue::Unit => StateValue::Unit,
            StateValue::Bool(b) => StateValue::Bool(*b),
            StateValue::Int(i) => StateValue::Int(*i),
            StateValue::UInt(u) => StateValue::UInt(*u),
            StateValue::Text(s) => StateValue::Text(s.clone()),
        }
    }
}

impl StateValue {
    /// The boolean held, or `TypeMismatch`.
    pub fn as_bool(&self) -> (r: Result<bool, StateError>)
        ensures
            r == (match self@ {
                StateModel::Bool(b) => Ok::<bool, StateError>(b),
                _ => Err(StateError::TypeMismatch),
            }),
    {
        match self {
            StateValue::Bool(b) => Ok(*b),
            _ => Err(StateError::TypeMismatch),
        }
    }

    /// The signed integer held, or `TypeMismatch`.
    pub fn as_int(&self) -> (r: Result<i64, StateError>)
        ensures
            r == (match self@ {
                StateModel::Int(i) => Ok::<i64, StateError>(i),
                _ => Err(StateError::TypeMismatch),
            }),
    {
        match self {
            StateValue::Int(i) => Ok(*i),
            _ => Err(StateError::TypeMismatch),
        }
    }

    /// The unsigned integer held, or `TypeMismatch`.
    pub fn as_uint(&self) -> (r: Result<u64, StateError>)
        ensures
            r == (match self@ {
                StateModel::UInt(u) => Ok::<u64, StateError>(u),
                _ => Err(StateError::TypeMismatch),
            }),
    {
        match self {
            StateValue::UInt(u) => Ok(*u),
            _ => Err(StateError::TypeMismatch),
        }
    }

    /// A copy of the text held, or `TypeMismatch`.
    pub fn as_text(&self) -> (r: Result<String, StateError>)
        ensures
            match self@ {
                StateModel::Text(t) => r is Ok && r->Ok_0@ == t,
                _ => r == Err::<String, StateError>(StateError::TypeMismatch),
            },
    {
        match self {
            StateValue::Text(s) => Ok(s.clone()),
            _ => Err(StateError::TypeMismatch),
        }
    }

    /// Whether nothing but the unit marker is held.
    pub fn is_unit(&self) -> (r: bool)
        ensures
            r == (self@ == StateModel::Unit),
    {
        match self {
            StateValue::Unit => true,
            _ => false,
        }
    }
}

/// What [`Props`] holds.
pub ghost struct PropsModel {
    pub data: StateModel,
}

/// The payload a specification hands to its component.
#[derive(Debug)]
pub struct Props {
    pub data: StateValue,
}

impl View for Props {
    type V = PropsModel;

    open spec fn view(&self) -> PropsModel {
        PropsModel { data: self.data@ }
    }
}

impl Clone for Props {
    fn clone(&self) -> (copy: Props)
        ensures
            copy@ == self@,
    {
        Props { data: self.data.clone() }
    }
}

impl Props {
    pub fn new(data: StateValue) -> (props: Props)
        ensures
            props@.data == data@,
    {
        Props { data }
    }
}

/// The model of an optional payload.
pub open spec fn props_model(props: Option<Props>) -> Option<PropsModel> {
    match props {
        Some(p) => Some(p@),
        None => None,
    }
}

/// The model of an optional text.
pub open spec fn text_model(text: Option<String>) -> Option<Seq<char>> {
    match text {
        Some(t) => Some(t@),
        None => None,
    }
}

/// A copy of an optional text.
pub fn clone_text(text: &Option<String>) -> (copy: Option<String>)
    ensures
        text_model(copy) == text_model(*text),
{
    match text {
        Some(t) => Some(t.clone()),
        None => None,
    }
}

} // verus!
