use vstd::prelude::*;

verus! {

/// One pending update: the handler `U` of the component that an event
/// reached, with what the handler returned, `R`.
pub struct UpdateQueueEntry<U, R> {
    pub source_component: u64,
    pub source_element: Option<String>,
    pub update_function: U,
    pub update_result: R,
}

impl<U, R> UpdateQueueEntry<U, R> {
    pub fn new(
        source_component: u64,
        source_element: Option<String>,
        update_function: U,
        update_result: R,
    ) -> (entry: UpdateQueueEntry<U, R>)
        ensures
            entry.source_component == source_component,
            entry.source_element == source_element,
            entry.update_function == update_function,
            entry.update_result == update_result,
    {
        UpdateQueueEntry { source_component, source_element, update_function, update_result }
    }
}

} // verus!
