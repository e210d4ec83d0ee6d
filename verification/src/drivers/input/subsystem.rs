//! The input device table: /dev/input/eventN numbers and what serves
//! them.

use vstd::prelude::*;
use super::event::{InputEvent, InputId, InputDeviceInfo};
use super::keyboard::{KeyboardInput, keyboard_id};
use super::mouse::{MouseInput, mouse_id};
use super::keyboard;
use super::mouse;

verus! {

/// Maximum number of input devices
pub const MAX_INPUT_DEVICES: usize = 16;

/// Input device trait for device drivers
pub trait InputDevice {
    /// Get device name
    fn name(&self) -> &str;

    /// Get device ID
    fn id(&self) -> InputId;

    /// Get supported event types bitmap
    fn event_types(&self) -> u32;

    /// Check if device has pending events
    fn has_events(&self) -> bool;

    /// Read next event (non-blocking)
    fn read_event(&mut self) -> Option<InputEvent>;
}

/// Input device type
#[derive(Debug, Clone, Copy, PartialEq, Eq, Structural)]
pub enum InputDeviceType {
    Keyboard,
    Mouse,
    CombinedMice,
}

/// A registered input device.
#[derive(Clone, Copy)]
pub struct InputDeviceHandle {
    pub device_type: InputDeviceType,
    pub index: usize,
    pub name: &'static str,
}

/// Registered devices among the first `n` event numbers.
pub open spec fn registered(devs: Seq<Option<InputDeviceHandle>>, n: int) -> int
    decreases n,
{
    if n <= 0 {
        0
    } else {
        registered(devs, n - 1) + if devs[n - 1] is Some {
            1int
        } else {
            0int
        }
    }
}

proof fn lemma_registered_none(devs: Seq<Option<InputDeviceHandle>>, from: int, n: int)
    requires
        0 <= from <= n,
        forall|i: int| from <= i < n ==> (#[trigger] devs[i]) is None,
    ensures
        registered(devs, n) == registered(devs, from),
    decreases n - from,
{
    if n > from {
        lemma_registered_none(devs, from, n - 1);
    }
}

/// The input subsystem: devices by event number.
pub struct InputSubsystem {
    devices: Vec<Option<InputDeviceHandle>>,
    device_count: usize,
    initialized: bool,
}

impl InputSubsystem {
    pub closed spec fn devices(&self) -> Seq<Option<InputDeviceHandle>> {
        self.devices@
    }

    pub closed spec fn count(&self) -> usize {
        self.device_count
    }

    pub closed spec fn initialized(&self) -> bool {
        self.initialized
    }

    /// One slot per event number; the count is the number of registered
    /// devices; nothing is registered before initialization.
    pub closed spec fn wf(&self) -> bool {
        &&& self.devices@.len() == MAX_INPUT_DEVICES
        &&& self.device_count == registered(self.devices@, MAX_INPUT_DEVICES as int)
        &&& !self.initialized ==> forall|i: int| 0 <= i < MAX_INPUT_DEVICES ==> (#[trigger] self.devices@[i]) is None
    }

    /// No device registered.
    pub fn new() -> (r: Self)
        ensures
            r.wf(),
            forall|i: int| 0 <= i < MAX_INPUT_DEVICES ==> (#[trigger] r.devices()[i]) is None,
            r.count() == 0,
            !r.initialized(),
    {
        let mut devices: Vec<Option<InputDeviceHandle>> = Vec::new();
        let mut i: usize = 0;
        while i < MAX_INPUT_DEVICES
            invariant
                i <= MAX_INPUT_DEVICES,
                devices@.len() == i,
                forall|k: int| 0 <= k < i ==> (#[trigger] devices@[k]) is None,
            decreases MAX_INPUT_DEVICES - i,
        {
            devices.push(None);
            i = i + 1;
        }
        proof {
            lemma_registered_none(devices@, 0, MAX_INPUT_DEVICES as int);
        }
        InputSubsystem { devices, device_count: 0, initialized: false }
    }
}

/// Initialize the input subsystem: the keyboard is event0 and the mouse
/// event1.  Does nothing once initialized.
pub fn init(sub: &mut InputSubsystem)
    requires
        old(sub).wf(),
    ensures
        final(sub).wf(),
        final(sub).initialized(),
        old(sub).initialized() ==> final(sub).devices() == old(sub).devices() && final(sub).count()
            == old(sub).count(),
        !old(sub).initialized() ==> {
            &&& final(sub).count() == 2
            &&& final(sub).devices()[0] matches Some(h) && h.device_type
                == InputDeviceType::Keyboard && h.index == 0 && h.name@ == "AT Translated Set 2 keyboard"@
            &&& final(sub).devices()[1] matches Some(h) && h.device_type == InputDeviceType::Mouse
                && h.index == 0 && h.name@ == "PS/2 Generic Mouse"@
            &&& forall|i: int| 2 <= i < MAX_INPUT_DEVICES ==> (#[trigger] final(sub).devices()[i]) is None
        },
{
    if sub.initialized {
        return;
    }
    sub.initialized = true;
    sub.devices.set(
        0,
        Some(
            InputDeviceHandle {
                device_type: InputDeviceType::Keyboard,
                index: 0,
                name: "AT Translated Set 2 keyboard",
            },
        ),
    );
    sub.device_count = 1;
    sub.devices.set(
        1,
        Some(
            InputDeviceHandle {
                device_type: InputDeviceType::Mouse,
                index: 0,
                name: "PS/2 Generic Mouse",
            },
        ),
    );
    sub.device_count = 2;
    proof {
        let d = sub.devices@;
        lemma_registered_none(d, 2, MAX_INPUT_DEVICES as int);
        assert(d[0] is Some && d[1] is Some);
        assert(registered(d, 0) == 0);
        assert(registered(d, 1) == 1);
        assert(registered(d, 2) == 2);
    }
}

/// Get number of registered input devices
pub fn device_count(sub: &InputSubsystem) -> (r: usize)
    ensures
        r == sub.count(),
{
    sub.device_count
}

/// Check if an input device exists
pub fn device_exists(sub: &InputSubsystem, event_num: usize) -> (r: bool)
    requires
        sub.wf(),
    ensures
        r == (event_num < MAX_INPUT_DEVICES && sub.devices()[event_num as int] is Some),
{
    if event_num >= MAX_INPUT_DEVICES {
        return false;
    }
    sub.devices[event_num].is_some()
}

/// The type of the device at an event number.
pub open spec fn type_at(sub: Seq<Option<InputDeviceHandle>>, event_num: usize) -> Option<InputDeviceType> {
    if event_num >= MAX_INPUT_DEVICES {
        None
    } else {
        match sub[event_num as int] {
            Some(h) => Some(h.device_type),
            None => None,
        }
    }
}

/// Get device type for an event device number
pub fn get_device_type(sub: &InputSubsystem, event_num: usize) -> (r: Option<InputDeviceType>)
    requires
        sub.wf(),
    ensures
        r == type_at(sub.devices(), event_num),
{
    if event_num >= MAX_INPUT_DEVICES {
        return None;
    }
    match &sub.devices[event_num] {
        Some(h) => Some(h.device_type),
        None => None,
    }
}

/// Get device name
pub fn get_device_name(sub: &InputSubsystem, event_num: usize) -> (r: Option<&'static str>)
    requires
        sub.wf(),
    ensures
        event_num >= MAX_INPUT_DEVICES ==> r is None,
        event_num < MAX_INPUT_DEVICES ==> r == match sub.devices()[event_num as int] {
            Some(h) => Some(h.name),
            None => None::<&'static str>,
        },
{
    if event_num >= MAX_INPUT_DEVICES {
        return None;
    }
    match &sub.devices[event_num] {
        Some(h) => Some(h.name),
        None => None,
    }
}

/// Check if device has pending events: the keyboard's for the keyboard,
/// the mouse's for the mouse devices.
pub fn has_events(sub: &InputSubsystem, kbd: &KeyboardInput, mouse: &MouseInput, event_num: usize) -> (r: bool)
    requires
        sub.wf(),
        kbd.wf(),
        mouse.wf(),
    ensures
        r == match type_at(sub.devices(), event_num) {
            None => false,
            Some(InputDeviceType::Keyboard) => kbd.events().len() > 0,
            Some(_) => mouse.view().events.len() > 0,
        },
{
    match get_device_type(sub, event_num) {
        None => false,
        Some(InputDeviceType::Keyboard) => kbd.has_events(),
        Some(_) => mouse.has_events(),
    }
}

/// Read events from a device into `buf`; the count read (0 for no
/// device).
pub fn read_events(sub: &InputSubsystem, kbd: &mut KeyboardInput, mouse: &mut MouseInput, event_num: usize, buf: &mut Vec<InputEvent>) -> (count: usize)
    requires
        sub.wf(),
        old(kbd).wf(),
        old(mouse).wf(),
    ensures
        final(kbd).wf(),
        final(mouse).wf(),
        match type_at(sub.devices(), event_num) {
            None => count == 0 && final(buf)@ == old(buf)@ && final(kbd).events() == old(kbd).events()
                && final(mouse).view() == old(mouse).view(),
            Some(InputDeviceType::Keyboard) => {
                &&& final(buf)@ == old(kbd).events().take(count as int) + old(buf)@.skip(count as int)
                &&& final(kbd).events() == old(kbd).events().skip(count as int)
                &&& final(mouse).view() == old(mouse).view()
                &&& count == if old(kbd).events().len() < old(buf)@.len() {
                    old(kbd).events().len() as int
                } else {
                    old(buf)@.len() as int
                }
            },
            Some(_) => {
                &&& final(buf)@ == old(mouse).view().events.take(count as int) + old(buf)@.skip(count as int)
                &&& final(mouse).view().events == old(mouse).view().events.skip(count as int)
                &&& final(kbd).events() == old(kbd).events()
                &&& count == if old(mouse).view().events.len() < old(buf)@.len() {
                    old(mouse).view().events.len() as int
                } else {
                    old(buf)@.len() as int
                }
            },
        },
{
    match get_device_type(sub, event_num) {
        None => 0,
        Some(InputDeviceType::Keyboard) => kbd.read_events(buf),
        Some(_) => mouse.read_events(buf),
    }
}

/// Get device ID for an event device number
pub fn get_device_id(sub: &InputSubsystem, event_num: usize) -> (r: Option<InputId>)
    requires
        sub.wf(),
    ensures
        r == match type_at(sub.devices(), event_num) {
            None => None,
            Some(InputDeviceType::Keyboard) => Some(keyboard_id()),
            Some(_) => Some(mouse_id()),
        },
{
    match get_device_type(sub, event_num) {
        None => None,
        Some(InputDeviceType::Keyboard) => Some(keyboard::get_id()),
        Some(_) => Some(mouse::get_id()),
    }
}

/// Get device info for an event device number
pub fn get_device_info(sub: &InputSubsystem, event_num: usize) -> (r: Option<InputDeviceInfo>)
    requires
        sub.wf(),
    ensures
        type_at(sub.devices(), event_num) is None <==> r is None,
        type_at(sub.devices(), event_num) == Some(InputDeviceType::Keyboard) ==> (r matches Some(i)
            && i.id == keyboard_id() && i.evbit == 0x13),
        type_at(sub.devices(), event_num) == Some(InputDeviceType::Mouse) || type_at(sub.devices(), event_num)
            == Some(InputDeviceType::CombinedMice) ==> (r matches Some(i) && i.id == mouse_id()
            && i.evbit == 0x7 && i.relbit == 0x103),
{
    match get_device_type(sub, event_num) {
        None => None,
        Some(InputDeviceType::Keyboard) => Some(keyboard::get_info()),
        Some(_) => Some(mouse::get_info()),
    }
}

/// List all registered input devices: event number, name and type.
pub fn list_devices(sub: &InputSubsystem) -> (r: Vec<(usize, &'static str, InputDeviceType)>)
    requires
        sub.wf(),
    ensures
        forall|k: int|
            0 <= k < r@.len() ==> {
                let (i, n, t) = #[trigger] r@[k];
                &&& i < MAX_INPUT_DEVICES
                &&& sub.devices()[i as int] matches Some(h) && h.name == n && h.device_type == t
            },
        forall|i: int|
            0 <= i < MAX_INPUT_DEVICES && (#[trigger] sub.devices()[i]) is Some ==> exists|k: int|
                0 <= k < r@.len() && r@[k].0 == i,
        forall|k1: int, k2: int| 0 <= k1 < k2 < r@.len() ==> #[trigger] r@[k1].0 < #[trigger] r@[k2].0,
        r@.len() == sub.count(),
{
    let mut result: Vec<(usize, &'static str, InputDeviceType)> = Vec::new();
    let mut i: usize = 0;
    while i < MAX_INPUT_DEVICES
        invariant
            i <= MAX_INPUT_DEVICES,
            sub.wf(),
            forall|k: int|
                0 <= k < result@.len() ==> {
                    let (j, n, t) = #[trigger] result@[k];
                    &&& j < i
                    &&& sub.devices()[j as int] matches Some(h) && h.name == n && h.device_type == t
                },
            forall|j: int|
                0 <= j < i && (#[trigger] sub.devices()[j]) is Some ==> exists|k: int|
                    0 <= k < result@.len() && result@[k].0 == j,
            forall|k1: int, k2: int| 0 <= k1 < k2 < result@.len() ==> #[trigger] result@[k1].0 < #[trigger] result@[k2].0,
            result@.len() == registered(sub.devices(), i as int),
        decreases MAX_INPUT_DEVICES - i,
    {
        match &sub.devices[i] {
            Some(h) => {
                let ghost old_res = result@;
                result.push((i, h.name, h.device_type));
                proof {
                    assert forall|j: int|
                        0 <= j < i + 1 && (#[trigger] sub.devices()[j]) is Some implies exists|k: int|
                        0 <= k < result@.len() && result@[k].0 == j by {
                        if j < i {
                            let k = choose|k: int| 0 <= k < old_res.len() && old_res[k].0 == j;
                            assert(result@[k] == old_res[k]);
                        } else {
                            assert(result@[result@.len() - 1].0 == j);
                        }
                    }
                }
            },
            None => {},
        }
        i = i + 1;
    }
    result
}

} // verus!
