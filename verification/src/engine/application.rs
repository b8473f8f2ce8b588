//! The application side of the event loop: what to do on each message from
//! the window.

use vstd::prelude::*;
use crate::elements::element::{Element, ElementModel};
use crate::elements::trees::{forest_size, lemma_top_counts};
use crate::engine::app_message::AppMessage;
use crate::engine::events::internal::InternalMessage;
use crate::vectors::{reversed, turned};

verus! {

/// A position of the pointer, each coordinate as the bits of a 64-bit
/// floating-point number.
#[derive(Clone, Copy, Debug, PartialEq, Eq, Structural)]
pub struct PointerPosition {
    pub x_bits: u64,
    pub y_bits: u64,
}

/// The size of a surface, in pixels.
#[derive(Clone, Copy, Debug, PartialEq, Eq, Structural)]
pub struct SurfaceSize {
    pub width: u32,
    pub height: u32,
}

/// What the application side keeps between messages.
#[derive(Clone, Copy, Debug, PartialEq, Eq, Structural)]
pub struct AppState {
    /// Whether a window and a renderer have been handed over.
    pub resumed: bool,
    /// Whether the fonts and caches that drawing needs have been set up.
    pub has_render_context: bool,
    /// Whether a render has produced an element tree.
    pub has_element_tree: bool,
    /// The last position of the pointer.
    pub pointer: PointerPosition,
}

/// What one message asks of the application side, in the order in which the
/// steps are to be taken.
#[derive(Clone, Copy, Debug, PartialEq, Eq, Structural)]
pub struct Plan {
    /// Start the identifiers over before anything else. Only the resume
    /// before the first render asks for it: identifiers are never started
    /// over while trees that carry them are alive.
    pub reset_ids: bool,
    /// Set up fonts and caches.
    pub create_render_context: bool,
    /// Resize the surface to this width and height.
    pub resize_to: Option<SurfaceSize>,
    /// Reconcile, lay out, draw and submit.
    pub render: bool,
    /// Go through the elements under the pointer.
    pub dispatch_pointer: bool,
    /// Ask the window for a redraw.
    pub request_redraw: bool,
    /// Send the confirmation back.
    pub confirm: bool,
    /// Leave the loop.
    pub stop: bool,
}

/// The plan that asks for nothing.
pub open spec fn idle() -> Plan {
    Plan {
        reset_ids: false,
        create_render_context: false,
        resize_to: None,
        render: false,
        dispatch_pointer: false,
        request_redraw: false,
        confirm: false,
        stop: false,
    }
}

/// The larger of `side` and 1: a surface has no side of length 0.
pub open spec fn at_least_one(side: u32) -> u32 {
    if side == 0 {
        1
    } else {
        side
    }
}

/// What `message` asks for in state `state`.
pub open spec fn plan_for(state: AppState, message: AppMessage) -> Plan {
    let confirm = message.blocking;
    match message.data {
        InternalMessage::RequestRedraw => Plan { render: true, confirm, ..idle() },
        InternalMessage::Close => Plan { confirm, stop: true, ..idle() },
        InternalMessage::Confirmation => idle(),
        InternalMessage::Resume => Plan {
            reset_ids: !state.has_element_tree,
            create_render_context: !state.has_render_context,
            confirm,
            ..idle()
        },
        InternalMessage::Resize { width, height } => Plan {
            resize_to: Some(SurfaceSize { width: at_least_one(width), height: at_least_one(height) }),
            request_redraw: true,
            confirm,
            ..idle()
        },
        InternalMessage::PointerButton(_) => Plan { dispatch_pointer: true, confirm, ..idle() },
        InternalMessage::PointerMoved(_) => Plan { confirm, ..idle() },
    }
}

/// The state after `message` was handled.
pub open spec fn state_after(state: AppState, message: AppMessage) -> AppState {
    match message.data {
        InternalMessage::RequestRedraw => AppState { has_element_tree: true, ..state },
        InternalMessage::Resume => AppState { resumed: true, has_render_context: true, ..state },
        InternalMessage::PointerMoved(moved) => AppState {
            pointer: PointerPosition { x_bits: moved.x_bits, y_bits: moved.y_bits },
            ..state
        },
        _ => state,
    }
}

impl AppState {
    pub fn new() -> (state: AppState)
        ensures
            state == (AppState {
                resumed: false,
                has_render_context: false,
                has_element_tree: false,
                pointer: PointerPosition { x_bits: 0, y_bits: 0 },
            }),
    {
        AppState {
            resumed: false,
            has_render_context: false,
            has_element_tree: false,
            pointer: PointerPosition { x_bits: 0, y_bits: 0 },
        }
    }

    /// Takes in one message from the window, and says what is to be done.
    /// A redraw and a resize need a renderer: before a resume they are
    /// refused, and the state stays as it is.
    pub fn handle_message(&mut self, message: AppMessage) -> (plan: Option<Plan>)
        ensures
            needs_renderer(message.data) && !old(self).resumed ==> plan.is_none() && *final(self)
                == *old(self),
            !(needs_renderer(message.data) && !old(self).resumed) ==> plan == Some(
                plan_for(*old(self), message),
            ) && *final(self) == state_after(*old(self), message),
    {
        let confirm = message.blocking;
        let idle = Plan {
            reset_ids: false,
            create_render_context: false,
            resize_to: None,
            render: false,
            dispatch_pointer: false,
            request_redraw: false,
            confirm: false,
            stop: false,
        };
        match message.data {
            InternalMessage::RequestRedraw => {
                if !self.resumed {
                    return None;
                }
                self.has_element_tree = true;
                Some(Plan { render: true, confirm, ..idle })
            },
            InternalMessage::Close => Some(Plan { confirm, stop: true, ..idle }),
            InternalMessage::Confirmation => Some(idle),
            InternalMessage::Resume => {
                let plan = Plan {
                    reset_ids: !self.has_element_tree,
                    create_render_context: !self.has_render_context,
                    confirm,
                    ..idle
                };
                self.resumed = true;
                self.has_render_context = true;
                Some(plan)
            },
            InternalMessage::Resize { width, height } => {
                if !self.resumed {
                    return None;
                }
                let width = if width == 0 {
                    1
                } else {
                    width
                };
                let height = if height == 0 {
                    1
                } else {
                    height
                };
                Some(
                    Plan {
                        resize_to: Some(SurfaceSize { width, height }),
                        request_redraw: true,
                        confirm,
                        ..idle
                    },
                )
            },
            InternalMessage::PointerButton(_) => Some(Plan { dispatch_pointer: true, confirm, ..idle }),
            InternalMessage::PointerMoved(moved) => {
                self.pointer = PointerPosition { x_bits: moved.x_bits, y_bits: moved.y_bits };
                Some(Plan { confirm, ..idle })
            },
        }
    }
}

/// Whether a message can only be handled once a renderer is there.
pub open spec fn needs_renderer(message: InternalMessage) -> bool {
    message == InternalMessage::RequestRedraw || message matches InternalMessage::Resize { .. }
}

/// The identifiers of the elements in the order in which a walk with a stack
/// comes by them: the top of the stack is taken off and its children, in
/// order, are noted and put on the stack.
pub open spec fn walk(stack: Seq<ElementModel>, noted: Seq<u64>) -> Seq<u64>
    decreases forest_size(stack),
{
    if stack.len() == 0 {
        noted
    } else {
        proof {
            lemma_top_counts(stack);
        }
        walk(stack.drop_last() + stack.last().children, noted + identifiers(stack.last().children))
    }
}

/// The stable identifiers of `elements`, in order.
pub open spec fn identifiers(elements: Seq<ElementModel>) -> Seq<u64> {
    Seq::new(elements.len(), |i: int| elements[i].component_id)
}

/// The order in which a pointer event is offered to the elements of a tree:
/// the elements as [`walk`] comes by them from the root, last first.
pub open spec fn dispatch_order(root: ElementModel) -> Seq<u64> {
    turned(walk(seq![root], seq![root.component_id]))
}

/// The models of the elements behind a sequence of references.
pub open spec fn stack_model(elements: Seq<&Element>) -> Seq<ElementModel> {
    Seq::new(elements.len(), |i: int| elements[i]@)
}

/// The stable identifiers of the elements of the tree under `root`, in the
/// order in which a pointer event is offered to them.
pub fn pointer_dispatch_order(root: &Element) -> (order: Vec<u64>)
    ensures
        order@ == dispatch_order(root@),
{
    let mut to_visit: Vec<&Element> = Vec::new();
    to_visit.push(root);
    let mut history: Vec<u64> = Vec::new();
    history.push(root.component_id);
    while to_visit.len() > 0
        invariant
            walk(seq![root@], seq![root@.component_id]) == walk(stack_model(to_visit@), history@),
        decreases forest_size(stack_model(to_visit@)),
    {
        let ghost stack = stack_model(to_visit@);
        let ghost noted = history@;
        proof {
            lemma_top_counts(stack);
        }
        match to_visit.pop() {
            Some(element) => {
                let mut i: usize = 0;
                while i < element.children.len()
                    invariant
                        i <= element.children@.len(),
                        stack.len() > 0,
                        element@.children.len() == element.children@.len(),
                        stack_model(to_visit@) == stack.drop_last() + element@.children.subrange(
                            0,
                            i as int,
                        ),
                        history@ == noted + identifiers(element@.children.subrange(0, i as int)),
                    decreases element.children@.len() - i,
                {
                    let ghost before = stack_model(to_visit@);
                    assert(element.children@[i as int]@ == element@.children[i as int]);
                    to_visit.push(&element.children[i]);
                    history.push(element.children[i].component_id);
                    assert(stack_model(to_visit@) =~= before.push(element@.children[i as int]));
                    i += 1;
                }
                assert(element@.children.subrange(0, i as int) =~= element@.children);
            },
            None => {},
        }
    }
    reversed(history)
}

} // verus!
