//! Choosing the keyboard among the session's input devices.
use vstd::prelude::*;

verus! {

/// The device use that marks the session's core keyboard.
pub const IS_X_KEYBOARD: u8 = 1;

/// Reads `x11rb::protocol::xinput::DeviceUse::IS_X_KEYBOARD` as a number.
/// The constant wraps 1, and the conversion to `u8` hands out the wrapped
/// number.
#[verifier::external_body]
fn keyboard_use() -> (device_use: u8)
    ensures
        device_use == IS_X_KEYBOARD,
{
    u8::from(x11rb::protocol::xinput::DeviceUse::IS_X_KEYBOARD)
}

/// What the resolver needs to know of one input device.
#[derive(Clone, Copy, Debug, PartialEq, Eq, Structural)]
pub struct DeviceInfo {
    pub device_id: u8,
    /// The role the session gives the device, as the input extension
    /// numbers it.
    pub device_use: u8,
}

/// Why no keymap snapshot can be built.
#[derive(Clone, Copy, Debug, PartialEq, Eq, Structural)]
pub enum Error {
    /// The session lists no device that is its keyboard.
    NoKeyboard,
}

/// Device `i` is the first of `devices` that is the keyboard.
pub open spec fn first_keyboard(devices: Seq<DeviceInfo>, i: int) -> bool {
    &&& 0 <= i < devices.len()
    &&& devices[i].device_use == IS_X_KEYBOARD
    &&& forall|j: int| 0 <= j < i ==> (#[trigger] devices[j]).device_use != IS_X_KEYBOARD
}

/// Picks the first device that is the session's keyboard and returns its id.
/// Fails if the list holds no keyboard.
pub fn find_keyboard(devices: &Vec<DeviceInfo>) -> (r: Result<u8, Error>)
    ensures
        match r {
            Ok(id) => exists|i: int| #[trigger]
                first_keyboard(devices@, i) && id == devices@[i].device_id,
            Err(e) => e == Error::NoKeyboard && forall|i: int|
                0 <= i < devices@.len() ==> (#[trigger] devices@[i]).device_use != IS_X_KEYBOARD,
        },
{
    let wanted = keyboard_use();
    let mut i: usize = 0;
    while i < devices.len()
        invariant
            i <= devices@.len(),
            wanted == IS_X_KEYBOARD,
            forall|j: int| 0 <= j < i ==> (#[trigger] devices@[j]).device_use != IS_X_KEYBOARD,
        decreases devices@.len() - i,
    {
        if devices[i].device_use == wanted {
            assert(first_keyboard(devices@, i as int));
            return Ok(devices[i].device_id);
        }
        i = i + 1;
    }
    Err(Error::NoKeyboard)
}

} // verus!
