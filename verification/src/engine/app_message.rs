use vstd::prelude::*;
use crate::engine::events::internal::InternalMessage;

verus! {

/// A message with its number, and whether its sender waits for the answer.
#[derive(Clone, Copy, Debug, PartialEq, Eq)]
pub struct AppMessage {
    pub id: u64,
    pub blocking: bool,
    pub data: InternalMessage,
}

impl AppMessage {
    pub fn new(id: u64, content: InternalMessage) -> (message: AppMessage)
        ensures
            message == (AppMessage { id, blocking: false, data: content }),
    {
        AppMessage { id, blocking: false, data: content }
    }

    pub fn new_blocking(id: u64, content: InternalMessage) -> (message: AppMessage)
        ensures
            message == (AppMessage { id, blocking: true, data: content }),
    {
        AppMessage { id, blocking: true, data: content }
    }
}

} // verus!
