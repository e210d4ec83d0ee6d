//! Input Event Types and Structures
//!
//! The Linux-compatible input event structures of the
//! /dev/input/event* interface.

use vstd::prelude::*;

verus! {

/// Input event structure (compatible with Linux struct input_event)
#[derive(Debug, Clone, Copy, PartialEq, Eq, Structural)]
pub struct InputEvent {
    /// Timestamp seconds
    pub time_sec: u64,
    /// Timestamp microseconds
    pub time_usec: u64,
    /// Event type (EV_*)
    pub event_type: u16,
    /// Event code (KEY_*, REL_*, ABS_*, etc.)
    pub code: u16,
    /// Event value
    pub value: i32,
}

/// The time of a TSC reading, taking the TSC to run at about 2 GHz:
/// seconds and microseconds.
pub open spec fn timestamp_of(tsc: u64) -> (u64, u64) {
    let usec_total = tsc / 2000;
    ((usec_total / 1_000_000) as u64, (usec_total % 1_000_000) as u64)
}

/// An event stamped with the time of a TSC reading.
pub open spec fn stamped(event_type: u16, code: u16, value: i32, tsc: u64) -> InputEvent {
    InputEvent {
        time_sec: timestamp_of(tsc).0,
        time_usec: timestamp_of(tsc).1,
        event_type,
        code,
        value,
    }
}

/// Seconds and microseconds of a TSC reading.
pub fn get_timestamp(tsc: u64) -> (r: (u64, u64))
    ensures
        r == timestamp_of(tsc),
{
    let usec_total = tsc / 2000;
    (usec_total / 1_000_000, usec_total % 1_000_000)
}

impl InputEvent {
    /// Create a new input event with zero timestamp
    pub fn new(event_type: u16, code: u16, value: i32) -> (r: Self)
        ensures
            r == (InputEvent { time_sec: 0, time_usec: 0, event_type, code, value }),
    {
        Self { time_sec: 0, time_usec: 0, event_type, code, value }
    }

    /// Create an input event stamped with the time of the TSC reading
    /// `tsc`.
    pub fn with_timestamp(event_type: u16, code: u16, value: i32, tsc: u64) -> (r: Self)
        ensures
            r == stamped(event_type, code, value, tsc),
    {
        let (sec, usec) = get_timestamp(tsc);
        Self { time_sec: sec, time_usec: usec, event_type, code, value }
    }

    /// Create a SYN_REPORT event
    pub fn sync(tsc: u64) -> (r: Self)
        ensures
            r == stamped(EV_SYN, SYN_REPORT, 0, tsc),
    {
        Self::with_timestamp(EV_SYN, SYN_REPORT, 0, tsc)
    }
}

pub const EV_SYN: u16 = 0x00;
pub const EV_KEY: u16 = 0x01;
pub const EV_REL: u16 = 0x02;
pub const EV_ABS: u16 = 0x03;
pub const EV_MSC: u16 = 0x04;
pub const EV_SW: u16 = 0x05;
pub const EV_LED: u16 = 0x11;
pub const EV_SND: u16 = 0x12;
pub const EV_REP: u16 = 0x14;
pub const EV_FF: u16 = 0x15;
pub const EV_PWR: u16 = 0x16;
pub const EV_FF_STATUS: u16 = 0x17;
pub const SYN_REPORT: u16 = 0;
pub const SYN_CONFIG: u16 = 1;
pub const SYN_MT_REPORT: u16 = 2;
pub const SYN_DROPPED: u16 = 3;
pub const REL_X: u16 = 0x00;
pub const REL_Y: u16 = 0x01;
pub const REL_Z: u16 = 0x02;
pub const REL_RX: u16 = 0x03;
pub const REL_RY: u16 = 0x04;
pub const REL_RZ: u16 = 0x05;
pub const REL_HWHEEL: u16 = 0x06;
pub const REL_DIAL: u16 = 0x07;
pub const REL_WHEEL: u16 = 0x08;
pub const REL_MISC: u16 = 0x09;
pub const ABS_X: u16 = 0x00;
pub const ABS_Y: u16 = 0x01;
pub const ABS_Z: u16 = 0x02;
pub const ABS_RX: u16 = 0x03;
pub const ABS_RY: u16 = 0x04;
pub const ABS_RZ: u16 = 0x05;
pub const ABS_THROTTLE: u16 = 0x06;
pub const ABS_RUDDER: u16 = 0x07;
pub const ABS_WHEEL: u16 = 0x08;
pub const ABS_GAS: u16 = 0x09;
pub const ABS_BRAKE: u16 = 0x0a;
pub const ABS_PRESSURE: u16 = 0x18;
pub const ABS_DISTANCE: u16 = 0x19;
pub const ABS_TOOL_WIDTH: u16 = 0x1c;
pub const KEY_RESERVED: u16 = 0;
pub const KEY_ESC: u16 = 1;
pub const KEY_1: u16 = 2;
pub const KEY_2: u16 = 3;
pub const KEY_3: u16 = 4;
pub const KEY_4: u16 = 5;
pub const KEY_5: u16 = 6;
pub const KEY_6: u16 = 7;
pub const KEY_7: u16 = 8;
pub const KEY_8: u16 = 9;
pub const KEY_9: u16 = 10;
pub const KEY_0: u16 = 11;
pub const KEY_MINUS: u16 = 12;
pub const KEY_EQUAL: u16 = 13;
pub const KEY_BACKSPACE: u16 = 14;
pub const KEY_TAB: u16 = 15;
pub const KEY_Q: u16 = 16;
pub const KEY_W: u16 = 17;
pub const KEY_E: u16 = 18;
pub const KEY_R: u16 = 19;
pub const KEY_T: u16 = 20;
pub const KEY_Y: u16 = 21;
pub const KEY_U: u16 = 22;
pub const KEY_I: u16 = 23;
pub const KEY_O: u16 = 24;
pub const KEY_P: u16 = 25;
pub const KEY_LEFTBRACE: u16 = 26;
pub const KEY_RIGHTBRACE: u16 = 27;
pub const KEY_ENTER: u16 = 28;
pub const KEY_LEFTCTRL: u16 = 29;
pub const KEY_A: u16 = 30;
pub const KEY_S: u16 = 31;
pub const KEY_D: u16 = 32;
pub const KEY_F: u16 = 33;
pub const KEY_G: u16 = 34;
pub const KEY_H: u16 = 35;
pub const KEY_J: u16 = 36;
pub const KEY_K: u16 = 37;
pub const KEY_L: u16 = 38;
pub const KEY_SEMICOLON: u16 = 39;
pub const KEY_APOSTROPHE: u16 = 40;
pub const KEY_GRAVE: u16 = 41;
pub const KEY_LEFTSHIFT: u16 = 42;
pub const KEY_BACKSLASH: u16 = 43;
pub const KEY_Z: u16 = 44;
pub const KEY_X: u16 = 45;
pub const KEY_C: u16 = 46;
pub const KEY_V: u16 = 47;
pub const KEY_B: u16 = 48;
pub const KEY_N: u16 = 49;
pub const KEY_M: u16 = 50;
pub const KEY_COMMA: u16 = 51;
pub const KEY_DOT: u16 = 52;
pub const KEY_SLASH: u16 = 53;
pub const KEY_RIGHTSHIFT: u16 = 54;
pub const KEY_KPASTERISK: u16 = 55;
pub const KEY_LEFTALT: u16 = 56;
pub const KEY_SPACE: u16 = 57;
pub const KEY_CAPSLOCK: u16 = 58;
pub const KEY_F1: u16 = 59;
pub const KEY_F2: u16 = 60;
pub const KEY_F3: u16 = 61;
pub const KEY_F4: u16 = 62;
pub const KEY_F5: u16 = 63;
pub const KEY_F6: u16 = 64;
pub const KEY_F7: u16 = 65;
pub const KEY_F8: u16 = 66;
pub const KEY_F9: u16 = 67;
pub const KEY_F10: u16 = 68;
pub const KEY_NUMLOCK: u16 = 69;
pub const KEY_SCROLLLOCK: u16 = 70;
pub const KEY_F11: u16 = 87;
pub const KEY_F12: u16 = 88;
pub const KEY_UP: u16 = 103;
pub const KEY_LEFT: u16 = 105;
pub const KEY_RIGHT: u16 = 106;
pub const KEY_DOWN: u16 = 108;
pub const KEY_HOME: u16 = 102;
pub const KEY_END: u16 = 107;
pub const KEY_PAGEUP: u16 = 104;
pub const KEY_PAGEDOWN: u16 = 109;
pub const KEY_INSERT: u16 = 110;
pub const KEY_DELETE: u16 = 111;
pub const BTN_MISC: u16 = 0x100;
pub const BTN_0: u16 = 0x100;
pub const BTN_1: u16 = 0x101;
pub const BTN_2: u16 = 0x102;
pub const BTN_3: u16 = 0x103;
pub const BTN_4: u16 = 0x104;
pub const BTN_5: u16 = 0x105;
pub const BTN_6: u16 = 0x106;
pub const BTN_7: u16 = 0x107;
pub const BTN_8: u16 = 0x108;
pub const BTN_9: u16 = 0x109;
pub const BTN_MOUSE: u16 = 0x110;
pub const BTN_LEFT: u16 = 0x110;
pub const BTN_RIGHT: u16 = 0x111;
pub const BTN_MIDDLE: u16 = 0x112;
pub const BTN_SIDE: u16 = 0x113;
pub const BTN_EXTRA: u16 = 0x114;
pub const BTN_FORWARD: u16 = 0x115;
pub const BTN_BACK: u16 = 0x116;
pub const BTN_TASK: u16 = 0x117;
pub const MSC_SERIAL: u16 = 0x00;
pub const MSC_PULSELED: u16 = 0x01;
pub const MSC_GESTURE: u16 = 0x02;
pub const MSC_RAW: u16 = 0x03;
pub const MSC_SCAN: u16 = 0x04;
pub const MSC_TIMESTAMP: u16 = 0x05;
pub const LED_NUML: u16 = 0x00;
pub const LED_CAPSL: u16 = 0x01;
pub const LED_SCROLLL: u16 = 0x02;
pub const LED_COMPOSE: u16 = 0x03;
pub const LED_KANA: u16 = 0x04;
pub const BUS_PCI: u16 = 0x01;
pub const BUS_ISAPNP: u16 = 0x02;
pub const BUS_USB: u16 = 0x03;
pub const BUS_HIL: u16 = 0x04;
pub const BUS_BLUETOOTH: u16 = 0x05;
pub const BUS_VIRTUAL: u16 = 0x06;
pub const BUS_ISA: u16 = 0x10;
pub const BUS_I8042: u16 = 0x11;
pub const BUS_XTKBD: u16 = 0x12;
pub const BUS_RS232: u16 = 0x13;
pub const BUS_GAMEPORT: u16 = 0x14;
pub const BUS_PARPORT: u16 = 0x15;
pub const BUS_AMIGA: u16 = 0x16;
pub const BUS_ADB: u16 = 0x17;
pub const BUS_I2C: u16 = 0x18;
pub const BUS_HOST: u16 = 0x19;
pub const BUS_GSC: u16 = 0x1A;
pub const BUS_ATARI: u16 = 0x1B;
pub const BUS_SPI: u16 = 0x1C;

/// Input device ID (struct input_id)
#[derive(Debug, Clone, Copy, PartialEq, Eq, Structural)]
pub struct InputId {
    pub bustype: u16,
    pub vendor: u16,
    pub product: u16,
    pub version: u16,
}

/// Input event type
#[derive(Debug, Clone, Copy, PartialEq, Eq, Structural)]
pub enum InputEventType {
    Sync,
    Key,
    Rel,
    Abs,
    Msc,
    Led,
    Unknown(u16),
}

/// The event type of a code.
pub open spec fn event_type_of(val: u16) -> InputEventType {
    if val == EV_SYN {
        InputEventType::Sync
    } else if val == EV_KEY {
        InputEventType::Key
    } else if val == EV_REL {
        InputEventType::Rel
    } else if val == EV_ABS {
        InputEventType::Abs
    } else if val == EV_MSC {
        InputEventType::Msc
    } else if val == EV_LED {
        InputEventType::Led
    } else {
        InputEventType::Unknown(val)
    }
}

/// The code of an event type.
pub open spec fn code_of_type(t: InputEventType) -> u16 {
    match t {
        InputEventType::Sync => EV_SYN,
        InputEventType::Key => EV_KEY,
        InputEventType::Rel => EV_REL,
        InputEventType::Abs => EV_ABS,
        InputEventType::Msc => EV_MSC,
        InputEventType::Led => EV_LED,
        InputEventType::Unknown(v) => v,
    }
}

impl From<u16> for InputEventType {
    fn from(val: u16) -> (r: Self) {
        if val == EV_SYN {
            InputEventType::Sync
        } else if val == EV_KEY {
            InputEventType::Key
        } else if val == EV_REL {
            InputEventType::Rel
        } else if val == EV_ABS {
            InputEventType::Abs
        } else if val == EV_MSC {
            InputEventType::Msc
        } else if val == EV_LED {
            InputEventType::Led
        } else {
            InputEventType::Unknown(val)
        }
    }
}

impl vstd::std_specs::convert::FromSpecImpl<u16> for InputEventType {
    open spec fn obeys_from_spec() -> bool {
        true
    }

    open spec fn from_spec(v: u16) -> Self {
        event_type_of(v)
    }
}

impl From<InputEventType> for u16 {
    fn from(val: InputEventType) -> (r: Self) {
        match val {
            InputEventType::Sync => EV_SYN,
            InputEventType::Key => EV_KEY,
            InputEventType::Rel => EV_REL,
            InputEventType::Abs => EV_ABS,
            InputEventType::Msc => EV_MSC,
            InputEventType::Led => EV_LED,
            InputEventType::Unknown(v) => v,
        }
    }
}

impl vstd::std_specs::convert::FromSpecImpl<InputEventType> for u16 {
    open spec fn obeys_from_spec() -> bool {
        true
    }

    open spec fn from_spec(v: InputEventType) -> Self {
        code_of_type(v)
    }
}

/// A code turned into an event type and back is the same code.
pub proof fn lemma_event_type_round_trip(val: u16)
    ensures
        code_of_type(event_type_of(val)) == val,
{
}

/// Input device information
#[derive(Debug, Clone)]
pub struct InputDeviceInfo {
    pub name: &'static str,
    pub phys: &'static str,
    pub uniq: &'static str,
    pub id: InputId,
    pub evbit: u32,
    pub keybit: [u64; 12],
    pub relbit: u32,
    pub absbit: u32,
}

impl InputDeviceInfo {
    /// Information with empty names and no capabilities.
    pub fn empty() -> (r: Self)
        ensures
            r.name@ == ""@ && r.phys@ == ""@ && r.uniq@ == ""@,
            r.id == (InputId { bustype: 0, vendor: 0, product: 0, version: 0 }),
            r.evbit == 0 && r.relbit == 0 && r.absbit == 0,
            forall|i: int| 0 <= i < 12 ==> r.keybit@[i] == 0,
    {
        Self {
            name: "",
            phys: "",
            uniq: "",
            id: InputId { bustype: 0, vendor: 0, product: 0, version: 0 },
            evbit: 0,
            keybit: [0u64; 12],
            relbit: 0,
            absbit: 0,
        }
    }
}

} // verus!
