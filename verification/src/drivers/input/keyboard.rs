//! Keyboard Input Device
//!
//! The keyboard's input event interface (/dev/input/event0): PS/2
//! scancodes become Linux input events.

use vstd::prelude::*;
use super::event::{BUS_I8042, EV_KEY, EV_MSC, EV_SYN, InputDeviceInfo, InputEvent, InputId, KEY_0, KEY_1, KEY_2, KEY_3, KEY_4, KEY_5, KEY_6, KEY_7, KEY_8, KEY_9, KEY_A, KEY_APOSTROPHE, KEY_B, KEY_BACKSLASH, KEY_BACKSPACE, KEY_C, KEY_CAPSLOCK, KEY_COMMA, KEY_D, KEY_DELETE, KEY_DOT, KEY_DOWN, KEY_E, KEY_END, KEY_ENTER, KEY_EQUAL, KEY_ESC, KEY_F, KEY_F1, KEY_F10, KEY_F11, KEY_F12, KEY_F2, KEY_F3, KEY_F4, KEY_F5, KEY_F6, KEY_F7, KEY_F8, KEY_F9, KEY_G, KEY_GRAVE, KEY_H, KEY_HOME, KEY_I, KEY_INSERT, KEY_J, KEY_K, KEY_KPASTERISK, KEY_L, KEY_LEFT, KEY_LEFTALT, KEY_LEFTBRACE, KEY_LEFTCTRL, KEY_LEFTSHIFT, KEY_M, KEY_MINUS, KEY_N, KEY_NUMLOCK, KEY_O, KEY_P, KEY_PAGEDOWN, KEY_PAGEUP, KEY_Q, KEY_R, KEY_RIGHT, KEY_RIGHTBRACE, KEY_RIGHTSHIFT, KEY_S, KEY_SCROLLLOCK, KEY_SEMICOLON, KEY_SLASH, KEY_SPACE, KEY_T, KEY_TAB, KEY_U, KEY_UP, KEY_V, KEY_W, KEY_X, KEY_Y, KEY_Z, MSC_SCAN, SYN_REPORT, stamped};
use super::ring::EventRing;

verus! {

/// Keyboard input: pending events and whether an extended (0xE0)
/// scancode prefix was seen.
pub struct KeyboardInput {
    buffer: EventRing,
    extended: bool,
}

/// Keyboard device
pub struct KeyboardDevice {
    pub id: InputId,
}

/// The keyboard's device id.
pub open spec fn keyboard_id() -> InputId {
    InputId { bustype: BUS_I8042, vendor: 0x0001, product: 0x0001, version: 0xAB41 }
}

impl KeyboardDevice {
    pub fn new() -> (r: Self)
        ensures
            r.id == keyboard_id(),
    {
        Self { id: get_id() }
    }
}

/// Get keyboard device ID
pub fn get_id() -> (r: InputId)
    ensures
        r == keyboard_id(),
{
    InputId { bustype: BUS_I8042, vendor: 0x0001, product: 0x0001, version: 0xAB41 }
}

/// Get keyboard device info: sync, key and miscellaneous events, every
/// key code.
pub fn get_info() -> (r: InputDeviceInfo)
    ensures
        r.name@ == "AT Translated Set 2 keyboard"@,
        r.phys@ == "isa0060/serio0/input0"@,
        r.uniq@ == ""@,
        r.id == keyboard_id(),
        r.evbit == 0x13,
        forall|i: int| 0 <= i < 12 ==> r.keybit@[i] == 0xFFFF_FFFFu64,
        r.relbit == 0 && r.absbit == 0,
{
    let evbit = (1u32 << EV_SYN) | (1u32 << EV_KEY) | (1u32 << EV_MSC);
    assert(evbit == 0x13) by (bit_vector)
        requires
            evbit == (1u32 << 0u16) | (1u32 << 1u16) | (1u32 << 4u16),
    ;
    InputDeviceInfo {
        name: "AT Translated Set 2 keyboard",
        phys: "isa0060/serio0/input0",
        uniq: "",
        id: get_id(),
        evbit,
        keybit: [0xFFFF_FFFFu64; 12],
        relbit: 0,
        absbit: 0,
    }
}

/// The key code of a (non-extended) scancode, 0 for none.
pub open spec fn scancode_key(code: u8) -> u16 {
    match code {
        1 => KEY_ESC,
        2 => KEY_1,
        3 => KEY_2,
        4 => KEY_3,
        5 => KEY_4,
        6 => KEY_5,
        7 => KEY_6,
        8 => KEY_7,
        9 => KEY_8,
        10 => KEY_9,
        11 => KEY_0,
        12 => KEY_MINUS,
        13 => KEY_EQUAL,
        14 => KEY_BACKSPACE,
        15 => KEY_TAB,
        16 => KEY_Q,
        17 => KEY_W,
        18 => KEY_E,
        19 => KEY_R,
        20 => KEY_T,
        21 => KEY_Y,
        22 => KEY_U,
        23 => KEY_I,
        24 => KEY_O,
        25 => KEY_P,
        26 => KEY_LEFTBRACE,
        27 => KEY_RIGHTBRACE,
        28 => KEY_ENTER,
        29 => KEY_LEFTCTRL,
        30 => KEY_A,
        31 => KEY_S,
        32 => KEY_D,
        33 => KEY_F,
        34 => KEY_G,
        35 => KEY_H,
        36 => KEY_J,
        37 => KEY_K,
        38 => KEY_L,
        39 => KEY_SEMICOLON,
        40 => KEY_APOSTROPHE,
        41 => KEY_GRAVE,
        42 => KEY_LEFTSHIFT,
        43 => KEY_BACKSLASH,
        44 => KEY_Z,
        45 => KEY_X,
        46 => KEY_C,
        47 => KEY_V,
        48 => KEY_B,
        49 => KEY_N,
        50 => KEY_M,
        51 => KEY_COMMA,
        52 => KEY_DOT,
        53 => KEY_SLASH,
        54 => KEY_RIGHTSHIFT,
        55 => KEY_KPASTERISK,
        56 => KEY_LEFTALT,
        57 => KEY_SPACE,
        58 => KEY_CAPSLOCK,
        59 => KEY_F1,
        60 => KEY_F2,
        61 => KEY_F3,
        62 => KEY_F4,
        63 => KEY_F5,
        64 => KEY_F6,
        65 => KEY_F7,
        66 => KEY_F8,
        67 => KEY_F9,
        68 => KEY_F10,
        69 => KEY_NUMLOCK,
        70 => KEY_SCROLLLOCK,
        87 => KEY_F11,
        88 => KEY_F12,
        _ => 0,
    }
}

/// The key code of an extended (0xE0-prefixed) scancode, 0 for none.
pub open spec fn extended_key(code: u8) -> u16 {
    match code {
        0x48 => KEY_UP,
        0x50 => KEY_DOWN,
        0x4B => KEY_LEFT,
        0x4D => KEY_RIGHT,
        0x47 => KEY_HOME,
        0x4F => KEY_END,
        0x49 => KEY_PAGEUP,
        0x51 => KEY_PAGEDOWN,
        0x52 => KEY_INSERT,
        0x53 => KEY_DELETE,
        _ => 0,
    }
}

/// Scancode to Linux key code (scancode set 1)
pub fn scancode_to_keycode(code: u8) -> (r: u16)
    ensures
        r == scancode_key(code),
{
    match code {
        1 => KEY_ESC,
        2 => KEY_1,
        3 => KEY_2,
        4 => KEY_3,
        5 => KEY_4,
        6 => KEY_5,
        7 => KEY_6,
        8 => KEY_7,
        9 => KEY_8,
        10 => KEY_9,
        11 => KEY_0,
        12 => KEY_MINUS,
        13 => KEY_EQUAL,
        14 => KEY_BACKSPACE,
        15 => KEY_TAB,
        16 => KEY_Q,
        17 => KEY_W,
        18 => KEY_E,
        19 => KEY_R,
        20 => KEY_T,
        21 => KEY_Y,
        22 => KEY_U,
        23 => KEY_I,
        24 => KEY_O,
        25 => KEY_P,
        26 => KEY_LEFTBRACE,
        27 => KEY_RIGHTBRACE,
        28 => KEY_ENTER,
        29 => KEY_LEFTCTRL,
        30 => KEY_A,
        31 => KEY_S,
        32 => KEY_D,
        33 => KEY_F,
        34 => KEY_G,
        35 => KEY_H,
        36 => KEY_J,
        37 => KEY_K,
        38 => KEY_L,
        39 => KEY_SEMICOLON,
        40 => KEY_APOSTROPHE,
        41 => KEY_GRAVE,
        42 => KEY_LEFTSHIFT,
        43 => KEY_BACKSLASH,
        44 => KEY_Z,
        45 => KEY_X,
        46 => KEY_C,
        47 => KEY_V,
        48 => KEY_B,
        49 => KEY_N,
        50 => KEY_M,
        51 => KEY_COMMA,
        52 => KEY_DOT,
        53 => KEY_SLASH,
        54 => KEY_RIGHTSHIFT,
        55 => KEY_KPASTERISK,
        56 => KEY_LEFTALT,
        57 => KEY_SPACE,
        58 => KEY_CAPSLOCK,
        59 => KEY_F1,
        60 => KEY_F2,
        61 => KEY_F3,
        62 => KEY_F4,
        63 => KEY_F5,
        64 => KEY_F6,
        65 => KEY_F7,
        66 => KEY_F8,
        67 => KEY_F9,
        68 => KEY_F10,
        69 => KEY_NUMLOCK,
        70 => KEY_SCROLLLOCK,
        87 => KEY_F11,
        88 => KEY_F12,
        _ => 0,
    }
}

/// Extended scancode to Linux key code
pub fn extended_scancode_to_keycode(scancode: u8) -> (r: u16)
    ensures
        r == extended_key(scancode),
{
    match scancode {
        0x48 => KEY_UP,
        0x50 => KEY_DOWN,
        0x4B => KEY_LEFT,
        0x4D => KEY_RIGHT,
        0x47 => KEY_HOME,
        0x4F => KEY_END,
        0x49 => KEY_PAGEUP,
        0x51 => KEY_PAGEDOWN,
        0x52 => KEY_INSERT,
        0x53 => KEY_DELETE,
        _ => 0,
    }
}

/// `q` after pushing `e` into a ring of that content.
pub open spec fn pushed(q: Seq<InputEvent>, e: InputEvent) -> Seq<InputEvent> {
    if q.len() < 63 {
        q.push(e)
    } else {
        q
    }
}

impl KeyboardInput {
    pub closed spec fn events(&self) -> Seq<InputEvent> {
        self.buffer@
    }

    pub closed spec fn extended(&self) -> bool {
        self.extended
    }

    pub closed spec fn wf(&self) -> bool {
        self.buffer.wf()
    }

    /// No pending event, no prefix seen.
    pub fn new() -> (r: Self)
        ensures
            r.wf(),
            r.events() == Seq::<InputEvent>::empty(),
            !r.extended(),
    {
        KeyboardInput { buffer: EventRing::new(), extended: false }
    }

    /// Whether events are pending
    pub fn has_events(&self) -> (r: bool)
        requires
            self.wf(),
        ensures
            r == (self.events().len() > 0),
    {
        !self.buffer.is_empty()
    }

    /// Read pending events into `buf`, oldest first, as many as fit; the
    /// count read.
    pub fn read_events(&mut self, buf: &mut Vec<InputEvent>) -> (count: usize)
        requires
            old(self).wf(),
        ensures
            final(self).wf(),
            count == if old(self).events().len() < old(buf)@.len() {
                old(self).events().len() as int
            } else {
                old(buf)@.len() as int
            },
            final(buf)@ == old(self).events().take(count as int) + old(buf)@.skip(count as int),
            final(self).events() == old(self).events().skip(count as int),
            final(self).extended() == old(self).extended(),
    {
        self.buffer.drain_into(buf)
    }

    /// Process a PS/2 scancode read at TSC time `tsc`
    ///
    /// 0xE0 marks the next scancode as extended.  A known key yields a
    /// raw scan event, a key event (1 pressed, 0 released; bit 7 marks a
    /// release) and a sync report; an unknown key yields nothing.
    pub fn process_scancode(&mut self, scancode: u8, tsc: u64)
        requires
            old(self).wf(),
        ensures
            final(self).wf(),
            scancode == 0xE0 ==> final(self).extended() && final(self).events() == old(self).events(),
            scancode != 0xE0 ==> {
                let code = scancode & 0x7F;
                let keycode = if old(self).extended() {
                    extended_key(code)
                } else {
                    scancode_key(code)
                };
                let value: i32 = if scancode & 0x80 != 0 {
                    0
                } else {
                    1
                };
                &&& !final(self).extended()
                &&& keycode == 0 ==> final(self).events() == old(self).events()
                &&& keycode != 0 ==> final(self).events() == pushed(
                    pushed(
                        pushed(old(self).events(), stamped(EV_MSC, MSC_SCAN, code as i32, tsc)),
                        stamped(EV_KEY, keycode, value, tsc),
                    ),
                    stamped(EV_SYN, SYN_REPORT, 0, tsc),
                )
            },
    {
        if scancode == 0xE0 {
            self.extended = true;
            return;
        }
        let extended = self.extended;
        self.extended = false;
        let released = (scancode & 0x80) != 0;
        let code = scancode & 0x7F;
        let keycode = if extended {
            extended_scancode_to_keycode(code)
        } else {
            scancode_to_keycode(code)
        };
        if keycode == 0 {
            return;
        }
        let value: i32 = if released {
            0
        } else {
            1
        };
        self.buffer.push(InputEvent::with_timestamp(EV_MSC, MSC_SCAN, code as i32, tsc));
        self.buffer.push(InputEvent::with_timestamp(EV_KEY, keycode, value, tsc));
        self.buffer.push(InputEvent::sync(tsc));
    }

    /// Inject a key event (for testing or virtual keyboards)
    pub fn inject_key(&mut self, keycode: u16, pressed: bool, tsc: u64)
        requires
            old(self).wf(),
        ensures
            final(self).wf(),
            final(self).extended() == old(self).extended(),
            final(self).events() == pushed(
                pushed(
                    old(self).events(),
                    stamped(
                        EV_KEY,
                        keycode,
                        if pressed {
                            1i32
                        } else {
                            0i32
                        },
                        tsc,
                    ),
                ),
                stamped(EV_SYN, SYN_REPORT, 0, tsc),
            ),
    {
        let value: i32 = if pressed {
            1
        } else {
            0
        };
        self.buffer.push(InputEvent::with_timestamp(EV_KEY, keycode, value, tsc));
        self.buffer.push(InputEvent::sync(tsc));
    }
}

} // verus!
