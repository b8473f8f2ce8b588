use vstd::prelude::*;

pub mod internal;
pub mod pointer_moved;
pub mod resource_event;
pub mod update_queue_entry;

pub use pointer_moved::PointerMoved;
use winit::event::DeviceId;

verus! {

/// Whether an event goes on to the next handler.
#[derive(Clone, Copy, Debug, PartialEq, Eq, Structural)]
pub enum EventResult {
    Stop,
    Continue,
}

/// A button of a pointing device.
#[derive(Clone, Copy, Debug, PartialEq, Eq, Structural)]
pub enum MouseButton {
    Left,
    Right,
    Middle,
    Other(u16),
}

/// Whether a button went down or up.
#[derive(Clone, Copy, Debug, PartialEq, Eq, Structural)]
pub enum ElementState {
    Pressed,
    Released,
}

/// A button of a pointing device that went down or up.
#[derive(Clone, Copy, Debug, PartialEq, Eq)]
pub struct PointerButton {
    pub device_id: Option<DeviceId>,
    pub state: ElementState,
    pub button: MouseButton,
}

/// An event of the framework.
#[derive(Clone, Copy, Debug, PartialEq, Eq)]
pub enum OkuEvent {
    PointerButtonEvent(PointerButton),
    PointerMovedEvent(PointerMoved),
}

/// What an update handler is handed: an event of the framework, or a message
/// `M` of the application's own.
#[derive(Debug)]
pub enum Message<M> {
    OkuMessage(OkuEvent),
    UserMessage(M),
}

} // verus!
