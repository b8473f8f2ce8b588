use vstd::prelude::*;
use std::collections::HashMap;
use crate::components::props::{StateModel, StateValue};
use crate::reactive::state_store::StateStore;

verus! {

broadcast use vstd::std_specs::hash::group_hash_axioms;

/// The state that hooks read and write: the widget being rendered, the
/// persisted state of every widget, and the click handlers `H` registered
/// for them. One runtime belongs to one application and is handed to every
/// call that needs it.
pub struct Runtime<H> {
    pub current_widget_id: u64,
    pub state: StateStore,
    pub click_handlers: HashMap<u64, H>,
}

impl<H> Runtime<H> {
    pub fn new() -> (runtime: Runtime<H>)
        ensures
            runtime.current_widget_id == 0,
            runtime.state@ == Map::<u64, StateModel>::empty(),
            runtime.click_handlers@ == Map::<u64, H>::empty(),
    {
        Runtime { current_widget_id: 0, state: StateStore::new(), click_handlers: HashMap::new() }
    }

    pub fn get_current_widget_id(&self) -> (id: u64)
        ensures
            id == self.current_widget_id,
    {
        self.current_widget_id
    }

    /// Whether state is stored under `key`.
    pub fn has_state(&self, key: u64) -> (found: bool)
        ensures
            found == self.state@.contains_key(key),
    {
        self.state.contains(key)
    }

    /// A copy of the state stored under `key`.
    pub fn get_state(&self, key: u64) -> (value: Option<StateValue>)
        ensures
            match value {
                Some(v) => self.state@.contains_key(key) && self.state@[key] == v@,
                None => !self.state@.contains_key(key),
            },
    {
        match self.state.get(key) {
            Some(v) => Some(v.clone()),
            None => None,
        }
    }

    /// Stores `value` under `key`, in place of what was there.
    pub fn set_state(&mut self, key: u64, value: StateValue)
        ensures
            final(self).state@ == old(self).state@.insert(key, value@),
            final(self).current_widget_id == old(self).current_widget_id,
            final(self).click_handlers == old(self).click_handlers,
    {
        self.state.set(key, value);
    }

    /// Takes the click handler registered under `key` out of the runtime.
    pub fn get_click_handler(&mut self, key: u64) -> (handler: Option<H>)
        ensures
            handler == (if old(self).click_handlers@.contains_key(key) {
                Some(old(self).click_handlers@[key])
            } else {
                None
            }),
            final(self).click_handlers@ == old(self).click_handlers@.remove(key),
            final(self).current_widget_id == old(self).current_widget_id,
            final(self).state == old(self).state,
    {
        self.click_handlers.remove(&key)
    }

    /// Registers `value` as the click handler under `key`, in place of the
    /// one that was there.
    pub fn set_click_handler(&mut self, key: u64, value: H)
        ensures
            final(self).click_handlers@ == old(self).click_handlers@.insert(key, value),
            final(self).current_widget_id == old(self).current_widget_id,
            final(self).state == old(self).state,
    {
        self.click_handlers.insert(key, value);
    }
}

impl<H> Default for Runtime<H> {
    fn default() -> (runtime: Runtime<H>)
        ensures
            runtime.current_widget_id == 0,
            runtime.state@ == Map::<u64, StateModel>::empty(),
            runtime.click_handlers@ == Map::<u64, H>::empty(),
    {
        Runtime::new()
    }
}

} // verus!
