//! Mouse Input Device
//!
//! The mouse's input event interface (/dev/input/event1 and the combined
//! /dev/input/mice): PS/2 packets become Linux input events.

use vstd::prelude::*;
use super::event::{
    InputEvent, InputId, InputDeviceInfo, stamped, EV_KEY, EV_REL, EV_SYN, SYN_REPORT, REL_X, REL_Y,
    REL_WHEEL, BTN_LEFT, BTN_RIGHT, BTN_MIDDLE, BUS_I8042,
};
use super::ring::EventRing;
use super::keyboard::pushed;

verus! {

/// Mouse device
pub struct MouseDevice {
    pub id: InputId,
}

/// The mouse's device id.
pub open spec fn mouse_id() -> InputId {
    InputId { bustype: BUS_I8042, vendor: 0x0002, product: 0x0001, version: 0x0000 }
}

impl MouseDevice {
    pub fn new() -> (r: Self)
        ensures
            r.id == mouse_id(),
    {
        Self { id: get_id() }
    }
}

/// Get mouse device ID
pub fn get_id() -> (r: InputId)
    ensures
        r == mouse_id(),
{
    InputId { bustype: BUS_I8042, vendor: 0x0002, product: 0x0001, version: 0x0000 }
}

/// Get mouse device info: sync, key and relative events; X, Y and wheel
/// axes.
pub fn get_info() -> (r: InputDeviceInfo)
    ensures
        r.name@ == "PS/2 Generic Mouse"@,
        r.phys@ == "isa0060/serio1/input0"@,
        r.uniq@ == ""@,
        r.id == mouse_id(),
        r.evbit == 0x7,
        r.relbit == 0x103,
        r.absbit == 0,
        forall|i: int| 0 <= i < 12 ==> r.keybit@[i] == 0,
{
    let evbit = (1u32 << EV_SYN) | (1u32 << EV_KEY) | (1u32 << EV_REL);
    let relbit = (1u32 << REL_X) | (1u32 << REL_Y) | (1u32 << REL_WHEEL);
    assert(evbit == 0x7 && relbit == 0x103) by (bit_vector)
        requires
            evbit == (1u32 << 0u16) | (1u32 << 1u16) | (1u32 << 2u16),
            relbit == (1u32 << 0u16) | (1u32 << 1u16) | (1u32 << 8u16),
    ;
    InputDeviceInfo {
        name: "PS/2 Generic Mouse",
        phys: "isa0060/serio1/input0",
        uniq: "",
        id: get_id(),
        evbit,
        keybit: [0u64; 12],
        relbit,
        absbit: 0,
    }
}

/// Mouse input: pending events, button states and the packet being
/// received.
pub struct MouseInput {
    buffer: EventRing,
    left: bool,
    right: bool,
    middle: bool,
    bytes: [u8; 4],
    count: usize,
    has_wheel: bool,
}

/// What the mouse input holds.
pub struct MouseView {
    pub events: Seq<InputEvent>,
    pub left: bool,
    pub right: bool,
    pub middle: bool,
    pub bytes: Seq<u8>,
    pub count: nat,
    pub has_wheel: bool,
}

/// Events for a button change: one key event if the state changed.
pub open spec fn button_events(q: Seq<InputEvent>, prev: bool, now: bool, button: u16, tsc: u64) -> Seq<InputEvent> {
    if now != prev {
        pushed(
            q,
            stamped(
                EV_KEY,
                button,
                if now {
                    1i32
                } else {
                    0i32
                },
                tsc,
            ),
        )
    } else {
        q
    }
}

/// Events for a movement on one axis: one relative event if it moved.
pub open spec fn axis_events(q: Seq<InputEvent>, d: i32, axis: u16, tsc: u64) -> Seq<InputEvent> {
    if d != 0 {
        pushed(q, stamped(EV_REL, axis, d, tsc))
    } else {
        q
    }
}

/// The events of a packet: button changes, movement, and a sync report if
/// any of them happened.
pub open spec fn packet_events(
    q: Seq<InputEvent>,
    prev: (bool, bool, bool),
    now: (bool, bool, bool),
    dx: i32,
    dy: i32,
    dz: i32,
    tsc: u64,
) -> Seq<InputEvent> {
    let q1 = button_events(q, prev.0, now.0, BTN_LEFT, tsc);
    let q2 = button_events(q1, prev.1, now.1, BTN_RIGHT, tsc);
    let q3 = button_events(q2, prev.2, now.2, BTN_MIDDLE, tsc);
    let q4 = axis_events(q3, dx, REL_X, tsc);
    let q5 = axis_events(q4, dy, REL_Y, tsc);
    let q6 = axis_events(q5, dz, REL_WHEEL, tsc);
    let any = now.0 != prev.0 || now.1 != prev.1 || now.2 != prev.2 || dx != 0 || dy != 0 || dz
        != 0;
    if any {
        pushed(q6, stamped(EV_SYN, SYN_REPORT, 0, tsc))
    } else {
        q6
    }
}

/// A movement of a packet: the 9-bit two's complement value whose low
/// eight bits are the byte and whose sign bit is the status byte's sign
/// bit for that axis.
pub open spec fn packet_delta(b: u8, sign: bool) -> i32 {
    if sign {
        (b as i32 - 256) as i32
    } else {
        b as i32
    }
}

/// Push `e` into the ring when `cond` holds.
fn push_when(ring: &mut EventRing, cond: bool, e: InputEvent)
    requires
        old(ring).wf(),
    ensures
        final(ring).wf(),
        final(ring)@ == if cond {
            pushed(old(ring)@, e)
        } else {
            old(ring)@
        },
{
    if cond {
        ring.push(e);
    }
}

impl MouseInput {
    pub closed spec fn view(&self) -> MouseView {
        MouseView {
            events: self.buffer@,
            left: self.left,
            right: self.right,
            middle: self.middle,
            bytes: self.bytes@,
            count: self.count as nat,
            has_wheel: self.has_wheel,
        }
    }

    pub closed spec fn wf(&self) -> bool {
        &&& self.buffer.wf()
        &&& self.count < if self.has_wheel {
            4usize
        } else {
            3usize
        }
    }

    /// No pending event, no button down, no packet started.
    pub fn new() -> (r: Self)
        ensures
            r.wf(),
            r.view().events == Seq::<InputEvent>::empty(),
            !r.view().left && !r.view().right && !r.view().middle,
            r.view().count == 0,
            !r.view().has_wheel,
    {
        MouseInput {
            buffer: EventRing::new(),
            left: false,
            right: false,
            middle: false,
            bytes: [0u8; 4],
            count: 0,
            has_wheel: false,
        }
    }

    /// Whether events are pending
    pub fn has_events(&self) -> (r: bool)
        requires
            self.wf(),
        ensures
            r == (self.view().events.len() > 0),
    {
        !self.buffer.is_empty()
    }

    /// Read pending events into `buf`, oldest first, as many as fit.
    pub fn read_events(&mut self, buf: &mut Vec<InputEvent>) -> (count: usize)
        requires
            old(self).wf(),
        ensures
            final(self).wf(),
            count == if old(self).view().events.len() < old(buf)@.len() {
                old(self).view().events.len() as int
            } else {
                old(buf)@.len() as int
            },
            final(buf)@ == old(self).view().events.take(count as int) + old(buf)@.skip(count as int),
            final(self).view() == (MouseView { events: old(self).view().events.skip(count as int), ..old(self).view() }),
    {
        self.buffer.drain_into(buf)
    }

    /// Generate input events from a mouse packet.
    fn generate_events(&mut self, left: bool, right: bool, middle: bool, dx: i32, dy: i32, dz: i32, tsc: u64)
        requires
            old(self).wf(),
        ensures
            final(self).wf(),
            final(self).view() == (MouseView {
                events: packet_events(
                    old(self).view().events,
                    (old(self).view().left, old(self).view().right, old(self).view().middle),
                    (left, right, middle),
                    dx,
                    dy,
                    dz,
                    tsc,
                ),
                left,
                right,
                middle,
                ..old(self).view()
            }),
    {
        let prev_left = self.left;
        let prev_right = self.right;
        let prev_middle = self.middle;
        self.left = left;
        self.right = right;
        self.middle = middle;
        let vl: i32 = if left { 1 } else { 0 };
        let vr: i32 = if right { 1 } else { 0 };
        let vm: i32 = if middle { 1 } else { 0 };
        push_when(&mut self.buffer, left != prev_left, InputEvent::with_timestamp(EV_KEY, BTN_LEFT, vl, tsc));
        push_when(&mut self.buffer, right != prev_right, InputEvent::with_timestamp(EV_KEY, BTN_RIGHT, vr, tsc));
        push_when(&mut self.buffer, middle != prev_middle, InputEvent::with_timestamp(EV_KEY, BTN_MIDDLE, vm, tsc));
        push_when(&mut self.buffer, dx != 0, InputEvent::with_timestamp(EV_REL, REL_X, dx, tsc));
        push_when(&mut self.buffer, dy != 0, InputEvent::with_timestamp(EV_REL, REL_Y, dy, tsc));
        push_when(&mut self.buffer, dz != 0, InputEvent::with_timestamp(EV_REL, REL_WHEEL, dz, tsc));
        let has_events = left != prev_left || right != prev_right || middle != prev_middle || dx != 0
            || dy != 0 || dz != 0;
        push_when(&mut self.buffer, has_events, InputEvent::sync(tsc));
    }

    /// Process a byte from the PS/2 mouse, read at TSC time `tsc`
    ///
    /// A packet is 3 bytes, or 4 with a scroll wheel; its first byte must
    /// have bit 3 set, else it is dropped to resynchronize.  A complete
    /// packet gives the buttons (bits 0 to 2 of the first byte) and the
    /// movement; the Y axis is inverted.
    pub fn process_byte(&mut self, byte: u8, tsc: u64)
        requires
            old(self).wf(),
        ensures
            final(self).wf(),
            ({
                let o = old(self).view();
                let size: nat = if o.has_wheel {
                    4
                } else {
                    3
                };
                if o.count == 0 && byte & 0x08 == 0 {
                    final(self).view() == o
                } else if o.count + 1 < size {
                    final(self).view() == (MouseView {
                        bytes: o.bytes.update(o.count as int, byte),
                        count: o.count + 1,
                        ..o
                    })
                } else {
                    let b = o.bytes.update(o.count as int, byte);
                    let buttons = b[0];
                    let dx = packet_delta(b[1], buttons & 0x10 != 0);
                    let dy = packet_delta(b[2], buttons & 0x20 != 0);
                    let dz: i32 = if o.has_wheel {
                        (b[3] as i8) as i32
                    } else {
                        0
                    };
                    final(self).view() == (MouseView {
                        events: packet_events(
                            o.events,
                            (o.left, o.right, o.middle),
                            (buttons & 0x01 != 0, buttons & 0x02 != 0, buttons & 0x04 != 0),
                            dx,
                            -dy as i32,
                            dz,
                            tsc,
                        ),
                        left: buttons & 0x01 != 0,
                        right: buttons & 0x02 != 0,
                        middle: buttons & 0x04 != 0,
                        bytes: b,
                        count: 0,
                        ..o
                    })
                }
            }),
    {
        if self.count == 0 && (byte & 0x08) == 0 {
            return;
        }
        let idx = self.count;
        self.bytes[idx] = byte;
        self.count = self.count + 1;
        let packet_size: usize = if self.has_wheel {
            4
        } else {
            3
        };
        if self.count >= packet_size {
            let buttons = self.bytes[0];
            let dx0 = self.bytes[1];
            let dy0 = self.bytes[2];
            let dz: i32 = if self.has_wheel {
                (self.bytes[3] as i8) as i32
            } else {
                0
            };
            let dx: i32 = if buttons & 0x10 != 0 {
                dx0 as i32 - 256
            } else {
                dx0 as i32
            };
            let dy: i32 = if buttons & 0x20 != 0 {
                dy0 as i32 - 256
            } else {
                dy0 as i32
            };
            let dy = -dy;
            self.count = 0;
            self.generate_events(
                buttons & 0x01 != 0,
                buttons & 0x02 != 0,
                buttons & 0x04 != 0,
                dx,
                dy,
                dz,
                tsc,
            );
        }
    }

    /// Inject mouse movement (for testing or virtual mice)
    pub fn inject_movement(&mut self, dx: i32, dy: i32, tsc: u64)
        requires
            old(self).wf(),
        ensures
            final(self).wf(),
            final(self).view() == (MouseView {
                events: {
                    let q = axis_events(axis_events(old(self).view().events, dx, REL_X, tsc), dy, REL_Y, tsc);
                    if dx != 0 || dy != 0 {
                        pushed(q, stamped(EV_SYN, SYN_REPORT, 0, tsc))
                    } else {
                        q
                    }
                },
                ..old(self).view()
            }),
    {
        if dx != 0 {
            self.buffer.push(InputEvent::with_timestamp(EV_REL, REL_X, dx, tsc));
        }
        if dy != 0 {
            self.buffer.push(InputEvent::with_timestamp(EV_REL, REL_Y, dy, tsc));
        }
        if dx != 0 || dy != 0 {
            self.buffer.push(InputEvent::sync(tsc));
        }
    }

    /// Inject a button event (for testing or virtual mice)
    pub fn inject_button(&mut self, button: u16, pressed: bool, tsc: u64)
        requires
            old(self).wf(),
        ensures
            final(self).wf(),
            final(self).view() == (MouseView {
                events: pushed(
                    pushed(
                        old(self).view().events,
                        stamped(EV_KEY, button, if pressed { 1i32 } else { 0i32 }, tsc),
                    ),
                    stamped(EV_SYN, SYN_REPORT, 0, tsc),
                ),
                ..old(self).view()
            }),
    {
        self.buffer.push(InputEvent::with_timestamp(EV_KEY, button, if pressed { 1 } else { 0 }, tsc));
        self.buffer.push(InputEvent::sync(tsc));
    }

    /// Inject scroll wheel movement
    pub fn inject_scroll(&mut self, delta: i32, tsc: u64)
        requires
            old(self).wf(),
        ensures
            final(self).wf(),
            final(self).view() == (MouseView {
                events: if delta != 0 {
                    pushed(
                        pushed(old(self).view().events, stamped(EV_REL, REL_WHEEL, delta, tsc)),
                        stamped(EV_SYN, SYN_REPORT, 0, tsc),
                    )
                } else {
                    old(self).view().events
                },
                ..old(self).view()
            }),
    {
        if delta != 0 {
            self.buffer.push(InputEvent::with_timestamp(EV_REL, REL_WHEEL, delta, tsc));
            self.buffer.push(InputEvent::sync(tsc));
        }
    }

    /// Enable scroll wheel mode (4-byte packets)
    pub fn enable_wheel(&mut self)
        requires
            old(self).wf(),
        ensures
            final(self).wf(),
            final(self).view() == (MouseView { has_wheel: true, ..old(self).view() }),
    {
        self.has_wheel = true;
    }

    /// Get current button states: left, right, middle.
    pub fn get_button_states(&self) -> (r: (bool, bool, bool))
        ensures
            r == (self.view().left, self.view().right, self.view().middle),
    {
        (self.left, self.right, self.middle)
    }
}


/// Movement and buttons gathered from events: dx, dy, wheel, button
/// bits, and whether any movement or button event was seen.
pub struct Imps2Acc {
    pub dx: int,
    pub dy: int,
    pub dz: int,
    pub buttons: u8,
    pub has_data: bool,
}

/// One event's contribution.
pub open spec fn imps2_step(a: Imps2Acc, e: InputEvent) -> Imps2Acc {
    if e.event_type == EV_REL {
        Imps2Acc {
            dx: if e.code == REL_X {
                a.dx + e.value
            } else {
                a.dx
            },
            dy: if e.code == REL_Y {
                a.dy + e.value
            } else {
                a.dy
            },
            dz: if e.code == REL_WHEEL {
                a.dz + e.value
            } else {
                a.dz
            },
            has_data: true,
            ..a
        }
    } else if e.event_type == EV_KEY {
        Imps2Acc {
            buttons: if e.value != 0 && e.code == BTN_LEFT {
                a.buttons | 1
            } else if e.value != 0 && e.code == BTN_RIGHT {
                a.buttons | 2
            } else if e.value != 0 && e.code == BTN_MIDDLE {
                a.buttons | 4
            } else {
                a.buttons
            },
            has_data: true,
            ..a
        }
    } else {
        a
    }
}

/// The contributions of the first `n` events.
pub open spec fn imps2_acc(es: Seq<InputEvent>, n: int) -> Imps2Acc
    decreases n,
{
    if n <= 0 {
        Imps2Acc { dx: 0, dy: 0, dz: 0, buttons: 0, has_data: false }
    } else {
        imps2_step(imps2_acc(es, n - 1), es[n - 1])
    }
}

/// How many events a report takes: through the first sync event, or all.
pub open spec fn imps2_taken(es: Seq<InputEvent>, n: int) -> int
    decreases n,
{
    if n <= 0 {
        es.len() as int
    } else if imps2_taken(es, n - 1) < es.len() {
        imps2_taken(es, n - 1)
    } else if es[n - 1].event_type == EV_SYN {
        n
    } else {
        es.len() as int
    }
}

/// `v` limited to `[-m, m]`.
pub open spec fn clamp_to(v: int, m: int) -> int {
    if v < -m {
        -m
    } else if v > m {
        m
    } else {
        v
    }
}

fn clamp_i64(v: i64, m: i64) -> (r: i8)
    requires
        0 <= m <= 127,
    ensures
        r as int == clamp_to(v as int, m as int),
{
    if v < -m {
        (-m) as i8
    } else if v > m {
        m as i8
    } else {
        v as i8
    }
}

impl MouseInput {
    /// Read events as an ImPS/2 packet (for /dev/input/mice)
    ///
    /// Events are taken up to and including the next sync report; their
    /// movement is summed and limited to a signed byte (the wheel to
    /// [-7, 7]) and the buttons pressed in them are combined.  A buffer
    /// under 4 bytes gets nothing; taken events without movement or
    /// buttons give nothing either.
    pub fn read_imps2(&mut self, buf: &mut Vec<u8>) -> (r: usize)
        requires
            old(self).wf(),
        ensures
            final(self).wf(),
            old(buf)@.len() < 4 ==> r == 0 && final(self).view() == old(self).view() && final(buf)@
                == old(buf)@,
            old(buf)@.len() >= 4 ==> {
                let es = old(self).view().events;
                let k = imps2_taken(es, es.len() as int);
                let a = imps2_acc(es, k);
                &&& final(self).view() == (MouseView { events: es.skip(k), ..old(self).view() })
                &&& !a.has_data ==> r == 0 && final(buf)@ == old(buf)@
                &&& a.has_data ==> r == 4 && final(buf)@ == old(buf)@.update(0, a.buttons | 8).update(
                    1,
                    (clamp_to(a.dx, 127) as i8) as u8,
                ).update(2, (clamp_to(a.dy, 127) as i8) as u8).update(3, (clamp_to(a.dz, 7) as i8) as u8)
            },
    {
        if buf.len() < 4 {
            return 0;
        }
        let ghost es = self.buffer@;
        proof {
            self.buffer.lemma_len();
        }
        let mut dx: i64 = 0;
        let mut dy: i64 = 0;
        let mut dz: i64 = 0;
        let mut buttons: u8 = 0;
        let mut has_data = false;
        let mut taken: usize = 0;
        let mut done = false;
        while !done && !self.buffer.is_empty()
            invariant
                self.buffer.wf(),
                self.count == old(self).count,
                self.has_wheel == old(self).has_wheel,
                self.left == old(self).left,
                self.right == old(self).right,
                self.middle == old(self).middle,
                self.bytes == old(self).bytes,
                es == old(self).buffer@,
                taken <= es.len() <= 63,
                self.buffer@ == es.skip(taken as int),
                done ==> imps2_taken(es, es.len() as int) == taken,
                !done ==> imps2_taken(es, taken as int) == es.len(),
                ({
                    let a = imps2_acc(es, taken as int);
                    &&& a.dx == dx && a.dy == dy && a.dz == dz
                    &&& a.buttons == buttons && a.has_data == has_data
                }),
                -0x8000_0000 * taken <= dx <= 0x8000_0000 * taken,
                -0x8000_0000 * taken <= dy <= 0x8000_0000 * taken,
                -0x8000_0000 * taken <= dz <= 0x8000_0000 * taken,
            decreases es.len() - taken,
        {
            let e = self.buffer.pop().unwrap();
            proof {
                assert(e == es[taken as int]);
                assert(es.skip(taken as int).drop_first() =~= es.skip(taken + 1));
            }
            if e.event_type == EV_REL {
                if e.code == REL_X {
                    dx = dx + e.value as i64;
                } else if e.code == REL_Y {
                    dy = dy + e.value as i64;
                } else if e.code == REL_WHEEL {
                    dz = dz + e.value as i64;
                }
                has_data = true;
            } else if e.event_type == EV_KEY {
                if e.value != 0 && e.code == BTN_LEFT {
                    buttons = buttons | 1;
                } else if e.value != 0 && e.code == BTN_RIGHT {
                    buttons = buttons | 2;
                } else if e.value != 0 && e.code == BTN_MIDDLE {
                    buttons = buttons | 4;
                }
                has_data = true;
            } else if e.event_type == EV_SYN {
                done = true;
            }
            taken = taken + 1;
            proof {
                if done {
                    assert(imps2_taken(es, taken as int) == taken);
                    if taken < es.len() {
                        lemma_taken_stable(es, taken as int, es.len() as int);
                    }
                }
            }
        }
        proof {
            if !done {
                assert(taken == es.len());
            }
        }
        if !has_data {
            return 0;
        }
        let cx = clamp_i64(dx, 127);
        let cy = clamp_i64(dy, 127);
        let cz = clamp_i64(dz, 7);
        buf.set(0, buttons | 0x08);
        buf.set(1, cx as u8);
        buf.set(2, cy as u8);
        buf.set(3, cz as u8);
        4
    }
}

/// Once a sync report is among the first `n` events, further events do not
/// change where the report ends.
proof fn lemma_taken_stable(es: Seq<InputEvent>, n: int, m: int)
    requires
        0 <= n <= m,
        imps2_taken(es, n) < es.len(),
    ensures
        imps2_taken(es, m) == imps2_taken(es, n),
    decreases m - n,
{
    if n < m {
        lemma_taken_stable(es, n, m - 1);
    }
}

} // verus!
