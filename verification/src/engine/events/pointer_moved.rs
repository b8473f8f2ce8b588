use vstd::prelude::*;
use winit::event::DeviceId;

verus! {

/// `winit::event::DeviceId`: the device an event came from, held as it is
/// and never looked into.
#[verifier::external_type_specification]
#[verifier::external_body]
pub struct ExDeviceId(winit::event::DeviceId);

/// What kind of device moved the pointer.
#[derive(Clone, Copy, Debug, PartialEq, Eq, Structural)]
pub enum PointerSource {
    Mouse,
    Touch,
    Unknown,
}

/// A pointer that moved. The position is relative to the top-left corner of
/// the window, in pixels, each coordinate held as the bits of the 64-bit
/// floating-point number the window system reported.
#[derive(Clone, Copy, Debug, PartialEq, Eq)]
pub struct PointerMoved {
    pub device_id: Option<DeviceId>,
    pub x_bits: u64,
    pub y_bits: u64,
    pub source: PointerSource,
}

impl PointerMoved {
    pub fn new(device_id: Option<DeviceId>, x_bits: u64, y_bits: u64, source: PointerSource) -> (moved:
        PointerMoved)
        ensures
            moved == (PointerMoved { device_id, x_bits, y_bits, source }),
    {
        PointerMoved { device_id, x_bits, y_bits, source }
    }
}

} // verus!
