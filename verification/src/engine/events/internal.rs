use vstd::prelude::*;
use crate::engine::events::pointer_moved::PointerMoved;
use crate::engine::events::PointerButton;

verus! {

/// What the window side tells the application side, and `Confirmation`, with
/// which the application side answers. The window and the renderer that a
/// `Resume` is about stay with the code that owns them.
#[derive(Clone, Copy, Debug, PartialEq, Eq)]
pub enum InternalMessage {
    RequestRedraw,
    Close,
    Confirmation,
    Resume,
    Resize { width: u32, height: u32 },
    PointerButton(PointerButton),
    PointerMoved(PointerMoved),
}

} // verus!
