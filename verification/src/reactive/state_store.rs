use vstd::prelude::*;
use std::collections::HashMap;
use crate::components::props::{StateError, StateModel, StateValue};

verus! {

broadcast use vstd::std_specs::hash::group_hash_axioms;

/// The persisted state of every mounted component, by stable identifier.
pub struct StateStore {
    entries: HashMap<u64, StateValue>,
}

impl View for StateStore {
    type V = Map<u64, StateModel>;

    closed spec fn view(&self) -> Map<u64, StateModel> {
        self.entries@.map_values(|v: StateValue| v@)
    }
}

impl StateStore {
    pub fn new() -> (store: StateStore)
        ensures
            store@ == Map::<u64, StateModel>::empty(),
    {
        let store = StateStore { entries: HashMap::new() };
        store
    }

    /// Whether an entry is stored under `id`.
    pub fn contains(&self, id: u64) -> (found: bool)
        ensures
            found == self@.contains_key(id),
    {
        self.entries.contains_key(&id)
    }

    /// The entry stored under `id`.
    pub fn get(&self, id: u64) -> (entry: Option<&StateValue>)
        ensures
            match entry {
                Some(v) => self@.contains_key(id) && self@[id] == v@,
                None => !self@.contains_key(id),
            },
    {
        self.entries.get(&id)
    }

    /// The boolean stored under `id`: `Missing` without an entry,
    /// `TypeMismatch` where the entry holds something else.
    pub fn read_bool(&self, id: u64) -> (value: Result<bool, StateError>)
        ensures
            value == (if !self@.contains_key(id) {
                Err::<bool, StateError>(StateError::Missing)
            } else {
                match self@[id] {
                    StateModel::Bool(b) => Ok(b),
                    _ => Err(StateError::TypeMismatch),
                }
            }),
    {
        match self.get(id) {
            Some(entry) => entry.as_bool(),
            None => Err(StateError::Missing),
        }
    }

    /// The signed integer stored under `id`: `Missing` without an entry,
    /// `TypeMismatch` where the entry holds something else.
    pub fn read_int(&self, id: u64) -> (value: Result<i64, StateError>)
        ensures
            value == (if !self@.contains_key(id) {
                Err::<i64, StateError>(StateError::Missing)
            } else {
                match self@[id] {
                    StateModel::Int(i) => Ok(i),
                    _ => Err(StateError::TypeMismatch),
                }
            }),
    {
        match self.get(id) {
            Some(entry) => entry.as_int(),
            None => Err(StateError::Missing),
        }
    }

    /// The unsigned integer stored under `id`: `Missing` without an entry,
    /// `TypeMismatch` where the entry holds something else.
    pub fn read_uint(&self, id: u64) -> (value: Result<u64, StateError>)
        ensures
            value == (if !self@.contains_key(id) {
                Err::<u64, StateError>(StateError::Missing)
            } else {
                match self@[id] {
                    StateModel::UInt(u) => Ok(u),
                    _ => Err(StateError::TypeMismatch),
                }
            }),
    {
        match self.get(id) {
            Some(entry) => entry.as_uint(),
            None => Err(StateError::Missing),
        }
    }

    /// A copy of the text stored under `id`: `Missing` without an entry,
    /// `TypeMismatch` where the entry holds something else.
    pub fn read_text(&self, id: u64) -> (value: Result<String, StateError>)
        ensures
            if !self@.contains_key(id) {
                value == Err::<String, StateError>(StateError::Missing)
            } else {
                match self@[id] {
                    StateModel::Text(t) => value is Ok && value->Ok_0@ == t,
                    _ => value == Err::<String, StateError>(StateError::TypeMismatch),
                }
            },
    {
        match self.get(id) {
            Some(entry) => entry.as_text(),
            None => Err(StateError::Missing),
        }
    }

    /// Stores `value` under `id`, in place of what was there.
    pub fn set(&mut self, id: u64, value: StateValue)
        ensures
            final(self)@ == old(self)@.insert(id, value@),
    {
        self.entries.insert(id, value);
    }

    /// Takes the entry under `id` out of the store, if there is one.
    pub fn take(&mut self, id: u64) -> (entry: Option<StateValue>)
        ensures
            final(self)@ == old(self)@.remove(id),
            match entry {
                Some(v) => old(self)@.contains_key(id) && old(self)@[id] == v@,
                None => !old(self)@.contains_key(id),
            },
    {
        let entry = self.entries.remove(&id);
        entry
    }

    /// Drops the entry under `id`, if there is one.
    pub fn remove(&mut self, id: u64)
        ensures
            final(self)@ == old(self)@.remove(id),
    {
        self.entries.remove(&id);
    }
}

} // verus!
