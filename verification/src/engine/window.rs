//! The window side of the event loop: what to tell the application about an
//! event of the window, and when to wait or to leave.

use vstd::prelude::*;
use winit::event::DeviceId;
use crate::engine::app_message::AppMessage;
use crate::engine::events::internal::InternalMessage;
use crate::engine::events::pointer_moved::{PointerMoved, PointerSource};
use crate::engine::events::{ElementState, MouseButton, PointerButton};

verus! {

/// Why the event loop woke up.
#[derive(Clone, Copy, Debug, PartialEq, Eq, Structural)]
pub enum StartCause {
    Init,
    Poll,
    ResumeTimeReached,
    WaitCancelled,
}

/// An event of the window, as far as the framework reads it.
#[derive(Clone, Copy, Debug, PartialEq, Eq)]
pub enum WindowEvent {
    CloseRequested,
    MouseInput { device_id: Option<DeviceId>, state: ElementState, button: MouseButton },
    CursorMoved { device_id: Option<DeviceId>, x_bits: u64, y_bits: u64 },
    Resized { width: u32, height: u32 },
    /// A key went down or up; `escape` says whether it is the escape key.
    KeyboardInput { state: ElementState, escape: bool },
    RedrawRequested,
    Other,
}

/// What the event loop does before it goes to sleep.
#[derive(Clone, Copy, Debug, PartialEq, Eq, Structural)]
pub struct WaitDecision {
    /// Whether to sleep until the wait time has passed.
    pub wait: bool,
    /// Whether to leave the event loop.
    pub exit: bool,
}

/// What the window side keeps between events: the number of the next
/// message, and what the events so far ask for.
#[derive(Clone, Copy, Debug, PartialEq, Eq, Structural)]
pub struct OkuState {
    pub id: u64,
    pub request_redraw: bool,
    pub wait_cancelled: bool,
    pub close_requested: bool,
}

/// The message that a window event is passed on as, if it is passed on.
pub open spec fn message_for(event: WindowEvent) -> Option<InternalMessage> {
    match event {
        WindowEvent::CloseRequested => Some(InternalMessage::Close),
        WindowEvent::MouseInput { device_id, state, button } => if button == MouseButton::Left && state
            == ElementState::Pressed {
            Some(InternalMessage::PointerButton(PointerButton { device_id, state, button }))
        } else {
            None
        },
        WindowEvent::CursorMoved { device_id, x_bits, y_bits } => Some(
            InternalMessage::PointerMoved(
                PointerMoved { device_id, x_bits, y_bits, source: PointerSource::Mouse },
            ),
        ),
        WindowEvent::Resized { width, height } => Some(InternalMessage::Resize { width, height }),
        WindowEvent::KeyboardInput { state, escape } => None,
        WindowEvent::RedrawRequested => Some(InternalMessage::RequestRedraw),
        WindowEvent::Other => None,
    }
}

/// The number of the message after the one numbered `id`.
pub open spec fn following(id: u64) -> u64 {
    if id == u64::MAX {
        0
    } else {
        (id + 1) as u64
    }
}

impl OkuState {
    pub fn new() -> (state: OkuState)
        ensures
            state == (OkuState {
                id: 0,
                request_redraw: false,
                wait_cancelled: false,
                close_requested: false,
            }),
    {
        OkuState { id: 0, request_redraw: false, wait_cancelled: false, close_requested: false }
    }

    /// Notes why the loop woke up: whether a wait was cut short.
    pub fn new_events(&mut self, cause: StartCause)
        ensures
            *final(self) == (OkuState {
                wait_cancelled: cause == StartCause::WaitCancelled,
                ..*old(self)
            }),
    {
        self.wait_cancelled = match cause {
            StartCause::WaitCancelled => true,
            _ => false,
        };
    }

    /// Takes in one event of the window and returns the message to send to
    /// the application, numbered and to be waited for, if the event is
    /// passed on. A request to close and a pressed escape key ask to leave;
    /// the left button asks for a redraw, whether it went down or up.
    pub fn window_event(&mut self, event: WindowEvent) -> (message: Option<AppMessage>)
        ensures
            message == (match message_for(event) {
                Some(data) => Some(AppMessage { id: old(self).id, blocking: true, data }),
                None => None,
            }),
            final(self).id == old(self).id,
            final(self).wait_cancelled == old(self).wait_cancelled,
            final(self).close_requested == (old(self).close_requested || event
                == WindowEvent::CloseRequested || (event matches WindowEvent::KeyboardInput {
                state,
                escape,
            } && state == ElementState::Pressed && escape)),
            final(self).request_redraw == (old(self).request_redraw || (event
                matches WindowEvent::MouseInput { button, .. } && button == MouseButton::Left)),
    {
        match event {
            WindowEvent::CloseRequested => {
                self.close_requested = true;
                Some(AppMessage::new_blocking(self.id, InternalMessage::Close))
            },
            WindowEvent::MouseInput { device_id, state, button } => {
                match button {
                    MouseButton::Left => {
                        self.request_redraw = true;
                        match state {
                            ElementState::Pressed => Some(
                                AppMessage::new_blocking(
                                    self.id,
                                    InternalMessage::PointerButton(
                                        PointerButton { device_id, state, button },
                                    ),
                                ),
                            ),
                            ElementState::Released => None,
                        }
                    },
                    _ => None,
                }
            },
            WindowEvent::CursorMoved { device_id, x_bits, y_bits } => Some(
                AppMessage::new_blocking(
                    self.id,
                    InternalMessage::PointerMoved(
                        PointerMoved::new(device_id, x_bits, y_bits, PointerSource::Mouse),
                    ),
                ),
            ),
            WindowEvent::Resized { width, height } => Some(
                AppMessage::new_blocking(self.id, InternalMessage::Resize { width, height }),
            ),
            WindowEvent::KeyboardInput { state, escape } => {
                match state {
                    ElementState::Pressed => {
                        if escape {
                            self.close_requested = true;
                        }
                    },
                    ElementState::Released => {},
                }
                None
            },
            WindowEvent::RedrawRequested => Some(
                AppMessage::new_blocking(self.id, InternalMessage::RequestRedraw),
            ),
            WindowEvent::Other => None,
        }
    }

    /// Whether `answer` is what the message just sent is owed: anything if
    /// the message is not waited for; a confirmation under the message's
    /// number if it is.
    pub open spec fn answered_by(&self, waited: bool, answer: Option<AppMessage>) -> bool {
        waited ==> answer is Some && answer->0.data == InternalMessage::Confirmation && answer->0.id
            == self.id
    }

    /// Whether `answer` is what the message just sent is owed.
    pub fn is_answered_by(&self, waited: bool, answer: &Option<AppMessage>) -> (owed: bool)
        ensures
            owed == self.answered_by(waited, *answer),
    {
        if !waited {
            return true;
        }
        match answer {
            Some(a) => match a.data {
                InternalMessage::Confirmation => a.id == self.id,
                _ => false,
            },
            None => false,
        }
    }

    /// Takes in the answer to the message just sent, and goes on to the next
    /// number. A message that is waited for is answered by a confirmation
    /// under its number: anything else ends the program before this is
    /// called.
    pub fn message_sent(&mut self, waited: bool, answer: Option<AppMessage>)
        requires
            old(self).answered_by(waited, answer),
        ensures
            *final(self) == (OkuState { id: following(old(self).id), ..*old(self) }),
    {
        let sent = self.id;
        self.id = if sent == u64::MAX {
            0
        } else {
            sent + 1
        };
    }

    /// What to do before the loop goes to sleep: wait unless a wait was just
    /// cut short, and leave once a close was asked for.
    pub fn about_to_wait(&self) -> (decision: WaitDecision)
        ensures
            decision == (WaitDecision { wait: !self.wait_cancelled, exit: self.close_requested }),
    {
        WaitDecision { wait: !self.wait_cancelled, exit: self.close_requested }
    }
}

} // verus!
