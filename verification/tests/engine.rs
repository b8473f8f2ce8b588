use oku_core::elements::element::{Element, ElementKind};
use oku_core::engine::app_message::AppMessage;
use oku_core::engine::application::{
    pointer_dispatch_order, AppState, Plan, PointerPosition, SurfaceSize,
};
use oku_core::engine::events::internal::InternalMessage;
use oku_core::engine::events::pointer_moved::{PointerMoved, PointerSource};
use oku_core::engine::events::resource_event::{ResourcEvent, ResourceIdentifier};
use oku_core::engine::events::update_queue_entry::UpdateQueueEntry;
use oku_core::engine::events::{ElementState, Message, MouseButton, OkuEvent, PointerButton};
use oku_core::engine::window::{OkuState, StartCause, WaitDecision, WindowEvent};

const IDLE: Plan = Plan {
    reset_ids: false,
    create_render_context: false,
    resize_to: None,
    render: false,
    dispatch_pointer: false,
    request_redraw: false,
    confirm: false,
    stop: false,
};

#[test]
fn close_request_is_passed_on_and_asks_to_leave() {
    let mut state = OkuState::new();
    assert_eq!(
        state.window_event(WindowEvent::CloseRequested),
        Some(AppMessage { id: 0, blocking: true, data: InternalMessage::Close })
    );
    assert!(state.close_requested);
    assert_eq!(state.about_to_wait(), WaitDecision { wait: true, exit: true });
}

#[test]
fn left_button_asks_for_a_redraw_and_is_passed_on_when_pressed() {
    let mut state = OkuState::new();
    let pressed = WindowEvent::MouseInput {
        device_id: None,
        state: ElementState::Pressed,
        button: MouseButton::Left,
    };
    assert_eq!(
        state.window_event(pressed),
        Some(AppMessage::new_blocking(
            0,
            InternalMessage::PointerButton(PointerButton {
                device_id: None,
                state: ElementState::Pressed,
                button: MouseButton::Left,
            })
        ))
    );
    assert!(state.request_redraw);

    let mut state = OkuState::new();
    let released = WindowEvent::MouseInput {
        device_id: None,
        state: ElementState::Released,
        button: MouseButton::Left,
    };
    assert_eq!(state.window_event(released), None);
    assert!(state.request_redraw);

    let mut state = OkuState::new();
    let right = WindowEvent::MouseInput {
        device_id: None,
        state: ElementState::Pressed,
        button: MouseButton::Right,
    };
    assert_eq!(state.window_event(right), None);
    assert!(!state.request_redraw);
    assert!(!state.close_requested);
}

#[test]
fn moves_resizes_and_redraws_are_passed_on() {
    let mut state = OkuState::new();
    state.id = 12;
    assert_eq!(
        state.window_event(WindowEvent::CursorMoved { device_id: None, x_bits: 7, y_bits: 9 }),
        Some(AppMessage::new_blocking(
            12,
            InternalMessage::PointerMoved(PointerMoved::new(None, 7, 9, PointerSource::Mouse))
        ))
    );
    assert_eq!(
        state.window_event(WindowEvent::Resized { width: 640, height: 0 }),
        Some(AppMessage::new_blocking(12, InternalMessage::Resize { width: 640, height: 0 }))
    );
    assert_eq!(
        state.window_event(WindowEvent::RedrawRequested),
        Some(AppMessage::new_blocking(12, InternalMessage::RequestRedraw))
    );
    assert_eq!(state.window_event(WindowEvent::Other), None);
    assert_eq!(
        state,
        OkuState { id: 12, request_redraw: false, wait_cancelled: false, close_requested: false }
    );
}

#[test]
fn pressed_escape_asks_to_leave_without_a_message() {
    let mut state = OkuState::new();
    assert_eq!(
        state.window_event(WindowEvent::KeyboardInput { state: ElementState::Released, escape: true }),
        None
    );
    assert_eq!(
        state.window_event(WindowEvent::KeyboardInput { state: ElementState::Pressed, escape: false }),
        None
    );
    assert!(!state.close_requested);
    assert_eq!(
        state.window_event(WindowEvent::KeyboardInput { state: ElementState::Pressed, escape: true }),
        None
    );
    assert!(state.close_requested);
}

#[test]
fn cancelled_wait_is_not_started_again() {
    let mut state = OkuState::new();
    state.new_events(StartCause::WaitCancelled);
    assert!(state.wait_cancelled);
    assert_eq!(state.about_to_wait(), WaitDecision { wait: false, exit: false });
    state.new_events(StartCause::ResumeTimeReached);
    assert!(!state.wait_cancelled);
    assert_eq!(state.about_to_wait(), WaitDecision { wait: true, exit: false });
    state.new_events(StartCause::Init);
    state.new_events(StartCause::Poll);
    assert!(!state.wait_cancelled);
}

#[test]
fn answers_are_held_against_the_number_of_the_message() {
    let mut state = OkuState::new();
    let confirmed = Some(AppMessage::new(0, InternalMessage::Confirmation));
    assert!(state.is_answered_by(true, &confirmed));
    state.message_sent(true, confirmed);
    assert_eq!(state.id, 1);
    assert!(!state.is_answered_by(true, &confirmed));
    assert!(!state.is_answered_by(true, &Some(AppMessage::new(1, InternalMessage::Close))));
    assert!(!state.is_answered_by(true, &None));
    assert!(state.is_answered_by(true, &Some(AppMessage::new_blocking(1, InternalMessage::Confirmation))));
    assert!(state.is_answered_by(false, &None));
    assert!(state.is_answered_by(false, &confirmed));
    state.message_sent(false, None);
    assert_eq!(state.id, 2);
    state.id = u64::MAX;
    assert!(state.is_answered_by(true, &Some(AppMessage::new(u64::MAX, InternalMessage::Confirmation))));
    state.message_sent(false, None);
    assert_eq!(state.id, 0);
    assert_eq!(
        state,
        OkuState { id: 0, request_redraw: false, wait_cancelled: false, close_requested: false }
    );
}

#[test]
fn application_plans_each_message() {
    let mut app = AppState::new();
    assert_eq!(app.handle_message(AppMessage::new_blocking(0, InternalMessage::RequestRedraw)), None);
    assert_eq!(
        app.handle_message(AppMessage::new(1, InternalMessage::Resize { width: 1, height: 1 })),
        None
    );
    assert_eq!(app, AppState::new());

    assert_eq!(
        app.handle_message(AppMessage::new_blocking(2, InternalMessage::Resume)),
        Some(Plan { reset_ids: true, create_render_context: true, confirm: true, ..IDLE })
    );
    assert!(app.resumed && app.has_render_context && !app.has_element_tree);

    assert_eq!(
        app.handle_message(AppMessage::new_blocking(3, InternalMessage::RequestRedraw)),
        Some(Plan { render: true, confirm: true, ..IDLE })
    );
    assert!(app.has_element_tree);

    assert_eq!(
        app.handle_message(AppMessage::new(4, InternalMessage::Resume)),
        Some(IDLE)
    );

    assert_eq!(
        app.handle_message(AppMessage::new_blocking(5, InternalMessage::Resize { width: 0, height: 480 })),
        Some(Plan {
            resize_to: Some(SurfaceSize { width: 1, height: 480 }),
            request_redraw: true,
            confirm: true,
            ..IDLE
        })
    );

    let moved = PointerMoved::new(None, 100, 200, PointerSource::Mouse);
    assert_eq!(
        app.handle_message(AppMessage::new_blocking(6, InternalMessage::PointerMoved(moved))),
        Some(Plan { confirm: true, ..IDLE })
    );
    assert_eq!(app.pointer, PointerPosition { x_bits: 100, y_bits: 200 });

    let button =
        PointerButton { device_id: None, state: ElementState::Pressed, button: MouseButton::Left };
    assert_eq!(
        app.handle_message(AppMessage::new(7, InternalMessage::PointerButton(button))),
        Some(Plan { dispatch_pointer: true, ..IDLE })
    );
    assert_eq!(app.handle_message(AppMessage::new_blocking(8, InternalMessage::Confirmation)), Some(IDLE));
    assert_eq!(
        app.handle_message(AppMessage::new_blocking(9, InternalMessage::Close)),
        Some(Plan { confirm: true, stop: true, ..IDLE })
    );
}

fn leaf(id: u64) -> Element {
    let mut element = Element::new(ElementKind::Text, String::new());
    element.set_component_id(id);
    element
}

fn branch(id: u64, children: Vec<Element>) -> Element {
    let mut element = Element::new(ElementKind::Container, String::new());
    element.set_component_id(id);
    for child in children {
        element = element.add_child(child);
    }
    element
}

#[test]
fn pointer_events_go_to_the_elements_noted_last_first() {
    assert_eq!(pointer_dispatch_order(&leaf(1)), vec![1]);
    let tree = branch(
        1,
        vec![branch(2, vec![leaf(3), leaf(4)]), leaf(5), branch(6, vec![leaf(7)])],
    );
    // noted: 1, then 2 5 6, then below 6: 7, then below 2: 3 4
    assert_eq!(pointer_dispatch_order(&tree), vec![4, 3, 7, 6, 5, 2, 1]);
}

#[test]
fn events_and_queue_entries_hold_what_they_are_given() {
    let entry = UpdateQueueEntry::new(5, Some("increment".to_string()), "update", 7u8);
    assert_eq!(entry.source_component, 5);
    assert_eq!(entry.source_element, Some("increment".to_string()));
    assert_eq!(entry.update_function, "update");
    assert_eq!(entry.update_result, 7);
    let event = ResourcEvent::Loaded(ResourceIdentifier::Url("https://example.org/a.png".to_string()));
    assert!(matches!(event.resource(), ResourceIdentifier::Url(url) if url == "https://example.org/a.png"));
    assert!(matches!(
        ResourcEvent::Added(ResourceIdentifier::File("a.png".to_string())).resource(),
        ResourceIdentifier::File(_)
    ));
    assert!(matches!(
        ResourcEvent::UnLoaded(ResourceIdentifier::File("a.png".to_string())).resource(),
        ResourceIdentifier::File(path) if path == "a.png"
    ));
    let moved = PointerMoved::new(None, 1, 2, PointerSource::Touch);
    let message: Message<i32> = Message::OkuMessage(OkuEvent::PointerMovedEvent(moved));
    assert!(matches!(message, Message::OkuMessage(OkuEvent::PointerMovedEvent(m)) if m == moved));
    assert!(matches!(Message::UserMessage(3), Message::UserMessage(3)));
}
