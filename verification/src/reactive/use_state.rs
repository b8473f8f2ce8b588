use vstd::prelude::*;
use crate::components::props::StateValue;
use crate::reactive::reactive::Runtime;

verus! {

/// The two ends of one widget's state: what `use_state` hands back in place
/// of a getter and a setter.
#[derive(Clone, Copy, Debug, PartialEq, Eq, Structural)]
pub struct StateHandle {
    pub widget_id: u64,
}

impl StateHandle {
    /// A copy of the widget's state.
    pub fn get<H>(&self, runtime: &Runtime<H>) -> (value: StateValue)
        requires
            runtime.state@.contains_key(self.widget_id),
        ensures
            value@ == runtime.state@[self.widget_id],
    {
        match runtime.get_state(self.widget_id) {
            Some(v) => v,
            None => StateValue::Unit,
        }
    }

    /// Replaces the widget's state.
    pub fn set<H>(&self, runtime: &mut Runtime<H>, value: StateValue)
        ensures
            final(runtime).state@ == old(runtime).state@.insert(self.widget_id, value@),
            final(runtime).current_widget_id == old(runtime).current_widget_id,
            final(runtime).click_handlers == old(runtime).click_handlers,
    {
        runtime.set_state(self.widget_id, value);
    }
}

/// The state of the widget being rendered: `value` on the widget's first
/// render, what is stored on every later one.
pub fn use_state<H>(runtime: &mut Runtime<H>, value: StateValue) -> (handle: StateHandle)
    ensures
        handle.widget_id == old(runtime).current_widget_id,
        final(runtime).state@ == (if old(runtime).state@.contains_key(handle.widget_id) {
            old(runtime).state@
        } else {
            old(runtime).state@.insert(handle.widget_id, value@)
        }),
        final(runtime).current_widget_id == old(runtime).current_widget_id,
        final(runtime).click_handlers == old(runtime).click_handlers,
{
    let scoped_widget_id = runtime.get_current_widget_id();
    if !runtime.has_state(scoped_widget_id) {
        runtime.set_state(scoped_widget_id, value);
    }
    StateHandle { widget_id: scoped_widget_id }
}

/// Registers `handler` for clicks, under widget 0.
pub fn use_click<H>(runtime: &mut Runtime<H>, handler: H)
    ensures
        final(runtime).click_handlers@ == old(runtime).click_handlers@.insert(0, handler),
        final(runtime).current_widget_id == old(runtime).current_widget_id,
        final(runtime).state == old(runtime).state,
{
    let scoped_widget_id: u64 = 0;
    runtime.set_click_handler(scoped_widget_id, handler);
}

} // verus!
