use oku_core::components::props::{Props, StateError, StateValue};
use oku_core::engine::events::EventResult;
use oku_core::options::{options_or_default, OkuOptions, RendererType};
use oku_core::platform::resource_manager::{ImageResource, Resource, ResourceData, ResourceManager};
use oku_core::reactive::element_id::IdAllocator;
use oku_core::reactive::reactive::Runtime;
use oku_core::reactive::state_store::StateStore;
use oku_core::reactive::use_state::{use_click, use_state, StateHandle};
use oku_core::renderer::softbuffer::{copy_pixels, rgb_to_encoded_u32, Pixel};

#[test]
fn typed_accessors_fail_on_another_variant() {
    assert_eq!(StateValue::Bool(true).as_bool(), Ok(true));
    assert_eq!(StateValue::Int(-3).as_int(), Ok(-3));
    assert_eq!(StateValue::UInt(3).as_uint(), Ok(3));
    assert_eq!(StateValue::Text("t".to_string()).as_text(), Ok("t".to_string()));
    assert!(StateValue::Unit.is_unit());
    assert!(!StateValue::UInt(0).is_unit());
    assert_eq!(StateValue::Int(1).as_bool(), Err(StateError::TypeMismatch));
    assert_eq!(StateValue::UInt(1).as_int(), Err(StateError::TypeMismatch));
    assert_eq!(StateValue::Text("1".to_string()).as_uint(), Err(StateError::TypeMismatch));
    assert_eq!(StateValue::Unit.as_text(), Err(StateError::TypeMismatch));
    assert_eq!(Props::new(StateValue::UInt(12)).clone().data.as_uint(), Ok(12));
    assert_eq!(StateValue::Text("copy".to_string()).clone().as_text(), Ok("copy".to_string()));
}

#[test]
fn identifiers_grow_by_one_from_one() {
    let mut ids = IdAllocator::new();
    assert_eq!(ids.peek(), 1);
    assert_eq!(ids.allocate_id(), Some(1));
    assert_eq!(ids.allocate_id(), Some(2));
    assert_eq!(ids.allocate_id(), Some(3));
    assert_eq!(ids.peek(), 4);
    ids.reset();
    assert_eq!(ids.allocate_id(), Some(1));
    assert_eq!(IdAllocator::starting_at(0).peek(), 1);
    assert_eq!(IdAllocator::starting_at(41).allocate_id(), Some(41));
    let mut last = IdAllocator::starting_at(u64::MAX - 1);
    assert_eq!(last.allocate_id(), Some(u64::MAX - 1));
    assert_eq!(last.allocate_id(), None);
    assert_eq!(last.peek(), u64::MAX);
}

#[test]
fn state_store_keeps_what_was_set_last() {
    let mut store = StateStore::new();
    assert!(!store.contains(4));
    assert!(store.get(4).is_none());
    store.set(4, StateValue::UInt(1));
    store.set(5, StateValue::Bool(false));
    store.set(4, StateValue::UInt(2));
    assert!(store.contains(4));
    assert_eq!(store.get(4).unwrap().as_uint(), Ok(2));
    assert_eq!(store.get(5).unwrap().as_bool(), Ok(false));
    store.remove(4);
    assert!(!store.contains(4));
    assert!(store.contains(5));
    store.remove(4);
    assert!(!store.contains(4));
}

#[test]
fn typed_reads_tell_a_missing_entry_from_a_wrong_one() {
    let mut store = StateStore::new();
    store.set(1, StateValue::Bool(true));
    store.set(2, StateValue::Int(-7));
    store.set(3, StateValue::UInt(7));
    store.set(4, StateValue::Text("seven".to_string()));
    assert_eq!(store.read_bool(1), Ok(true));
    assert_eq!(store.read_int(2), Ok(-7));
    assert_eq!(store.read_uint(3), Ok(7));
    assert_eq!(store.read_text(4), Ok("seven".to_string()));
    assert_eq!(store.read_bool(2), Err(StateError::TypeMismatch));
    assert_eq!(store.read_int(3), Err(StateError::TypeMismatch));
    assert_eq!(store.read_uint(4), Err(StateError::TypeMismatch));
    assert_eq!(store.read_text(1), Err(StateError::TypeMismatch));
    assert_eq!(store.read_bool(9), Err(StateError::Missing));
    assert_eq!(store.read_int(9), Err(StateError::Missing));
    assert_eq!(store.read_uint(9), Err(StateError::Missing));
    assert_eq!(store.read_text(9), Err(StateError::Missing));
}

#[test]
fn use_state_seeds_once_and_then_reads_what_is_stored() {
    let mut runtime: Runtime<u8> = Runtime::new();
    assert_eq!(runtime.get_current_widget_id(), 0);
    runtime.current_widget_id = 8;
    assert!(!runtime.has_state(8));
    let handle = use_state(&mut runtime, StateValue::Int(123));
    assert_eq!(handle, StateHandle { widget_id: 8 });
    assert_eq!(handle.get(&runtime).as_int(), Ok(123));
    handle.set(&mut runtime, StateValue::Int(45));
    assert_eq!(handle.get(&runtime).as_int(), Ok(45));
    let again = use_state(&mut runtime, StateValue::Int(123));
    assert_eq!(again.get(&runtime).as_int(), Ok(45));
    assert!(runtime.has_state(8));
    assert!(runtime.get_state(9).is_none());
    runtime.set_state(9, StateValue::Unit);
    assert!(runtime.get_state(9).unwrap().is_unit());
}

#[test]
fn click_handler_is_taken_out_when_it_is_read() {
    let mut runtime: Runtime<fn((u32, u32)) -> EventResult> = Runtime::default();
    fn stop(_: (u32, u32)) -> EventResult {
        EventResult::Stop
    }
    fn go_on(_: (u32, u32)) -> EventResult {
        EventResult::Continue
    }
    assert!(runtime.get_click_handler(0).is_none());
    use_click(&mut runtime, stop);
    use_click(&mut runtime, go_on);
    runtime.set_click_handler(3, stop);
    let handler = runtime.get_click_handler(0).unwrap();
    assert_eq!(handler((2, 2)), EventResult::Continue);
    assert!(runtime.get_click_handler(0).is_none());
    assert_eq!(runtime.get_click_handler(3).unwrap()((0, 0)), EventResult::Stop);
}

#[test]
fn options_default_to_the_gpu_renderer() {
    assert_eq!(RendererType::default(), RendererType::Wgpu);
    assert_eq!(OkuOptions::default().renderer, RendererType::Wgpu);
    assert_eq!(options_or_default(None).renderer, RendererType::Wgpu);
    assert_eq!(
        options_or_default(Some(OkuOptions { renderer: RendererType::Software })).renderer,
        RendererType::Software
    );
}

#[test]
fn pixel_words_hold_blue_low_and_red_high() {
    assert_eq!(rgb_to_encoded_u32(0x12, 0x34, 0x56), 0x123456);
    assert_eq!(rgb_to_encoded_u32(255, 0, 0), 0xff0000);
    assert_eq!(rgb_to_encoded_u32(0, 255, 0), 0x00ff00);
    assert_eq!(rgb_to_encoded_u32(0, 0, 255), 0x0000ff);
}

#[test]
fn copying_pixels_fills_the_rows_and_leaves_the_rest() {
    let framebuffer: Vec<Pixel> = (0..7u8)
        .map(|i| Pixel { red: i, green: 2 * i, blue: 3 * i, alpha: 255 })
        .collect();
    let mut buffer = vec![0xdead_beefu32; 8];
    copy_pixels(&framebuffer, &mut buffer, 3, 2);
    assert_eq!(
        buffer,
        vec![0x000000, 0x010203, 0x020406, 0x030609, 0x04080c, 0x050a0f, 0xdead_beef, 0xdead_beef]
    );
    copy_pixels(&framebuffer, &mut buffer, 0, 5);
    assert_eq!(buffer[0], 0);
    assert_eq!(buffer[6], 0xdead_beef);
}

#[test]
fn resources_hand_out_what_they_hold() {
    let image = Resource::Image(ImageResource {
        common_data: ResourceData {
            path: Some("cat.jpg".to_string()),
            expiration_time: Some(1_700_000_000),
            data: Some(vec![1, 2, 3]),
        },
    });
    assert_eq!(image.path(), Some("cat.jpg".to_string()));
    assert_eq!(image.expiration_time(), Some(1_700_000_000));
    assert_eq!(image.data(), Some(&vec![1u8, 2, 3]));
    let pending = Resource::Image(ImageResource {
        common_data: ResourceData { path: None, expiration_time: None, data: None },
    });
    assert_eq!(pending.path(), None);
    assert_eq!(pending.data(), None);
    assert!(ResourceManager::new().resources.is_empty());
}
