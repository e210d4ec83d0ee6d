//! PS/2 keyboard and serial console input
//!
//! Scancodes from the keyboard interrupt wait in a queue; the decoder
//! turns them into characters, tracking shift, alt and the 0xE0 prefix,
//! and turns the arrow and editing keys into escape sequences.  Bytes
//! from the serial port are decoded too.  The kernel does the port
//! reads, the echo and the waiting.

use vstd::prelude::*;

verus! {

/// Slots of the scancode queue.
pub const QUEUE_CAPACITY: usize = 128;

/// The character of a scancode without shift ('\0' for none).
pub open spec fn plain_char(sc: u8) -> char {
    match sc {
        1 => '\x1B',
        2 => '1',
        3 => '2',
        4 => '3',
        5 => '4',
        6 => '5',
        7 => '6',
        8 => '7',
        9 => '8',
        10 => '9',
        11 => '0',
        12 => '-',
        13 => '=',
        14 => '\x08',
        15 => '\t',
        16 => 'q',
        17 => 'w',
        18 => 'e',
        19 => 'r',
        20 => 't',
        21 => 'y',
        22 => 'u',
        23 => 'i',
        24 => 'o',
        25 => 'p',
        26 => '[',
        27 => ']',
        28 => '\n',
        30 => 'a',
        31 => 's',
        32 => 'd',
        33 => 'f',
        34 => 'g',
        35 => 'h',
        36 => 'j',
        37 => 'k',
        38 => 'l',
        39 => ';',
        40 => '\'',
        41 => '`',
        43 => '\\',
        44 => 'z',
        45 => 'x',
        46 => 'c',
        47 => 'v',
        48 => 'b',
        49 => 'n',
        50 => 'm',
        51 => ',',
        52 => '.',
        53 => '/',
        55 => '*',
        57 => ' ',
        70 => '7',
        71 => '8',
        72 => '9',
        73 => '-',
        74 => '4',
        75 => '5',
        76 => '6',
        77 => '+',
        78 => '1',
        79 => '2',
        80 => '3',
        81 => '0',
        82 => '.',
        _ => '\0',
    }
}

/// The character of a scancode with shift ('\0' for none).
pub open spec fn shift_char(sc: u8) -> char {
    match sc {
        1 => '\x1B',
        2 => '!',
        3 => '@',
        4 => '#',
        5 => '$',
        6 => '%',
        7 => '^',
        8 => '&',
        9 => '*',
        10 => '(',
        11 => ')',
        12 => '_',
        13 => '+',
        14 => '\x08',
        15 => '\t',
        16 => 'Q',
        17 => 'W',
        18 => 'E',
        19 => 'R',
        20 => 'T',
        21 => 'Y',
        22 => 'U',
        23 => 'I',
        24 => 'O',
        25 => 'P',
        26 => '{',
        27 => '}',
        28 => '\n',
        30 => 'A',
        31 => 'S',
        32 => 'D',
        33 => 'F',
        34 => 'G',
        35 => 'H',
        36 => 'J',
        37 => 'K',
        38 => 'L',
        39 => ':',
        40 => '"',
        41 => '~',
        43 => '|',
        44 => 'Z',
        45 => 'X',
        46 => 'C',
        47 => 'V',
        48 => 'B',
        49 => 'N',
        50 => 'M',
        51 => '<',
        52 => '>',
        53 => '?',
        55 => '*',
        57 => ' ',
        71 => '7',
        72 => '8',
        73 => '9',
        74 => '-',
        75 => '4',
        76 => '5',
        77 => '6',
        78 => '+',
        79 => '1',
        80 => '2',
        81 => '3',
        82 => '0',
        83 => '.',
        _ => '\0',
    }
}

/// Character table lookup without shift.
fn plain_char_of(sc: u8) -> (r: char)
    requires
        sc < 128,
    ensures
        r == plain_char(sc),
{
    match sc {
        1 => '\x1B',
        2 => '1',
        3 => '2',
        4 => '3',
        5 => '4',
        6 => '5',
        7 => '6',
        8 => '7',
        9 => '8',
        10 => '9',
        11 => '0',
        12 => '-',
        13 => '=',
        14 => '\x08',
        15 => '\t',
        16 => 'q',
        17 => 'w',
        18 => 'e',
        19 => 'r',
        20 => 't',
        21 => 'y',
        22 => 'u',
        23 => 'i',
        24 => 'o',
        25 => 'p',
        26 => '[',
        27 => ']',
        28 => '\n',
        30 => 'a',
        31 => 's',
        32 => 'd',
        33 => 'f',
        34 => 'g',
        35 => 'h',
        36 => 'j',
        37 => 'k',
        38 => 'l',
        39 => ';',
        40 => '\'',
        41 => '`',
        43 => '\\',
        44 => 'z',
        45 => 'x',
        46 => 'c',
        47 => 'v',
        48 => 'b',
        49 => 'n',
        50 => 'm',
        51 => ',',
        52 => '.',
        53 => '/',
        55 => '*',
        57 => ' ',
        70 => '7',
        71 => '8',
        72 => '9',
        73 => '-',
        74 => '4',
        75 => '5',
        76 => '6',
        77 => '+',
        78 => '1',
        79 => '2',
        80 => '3',
        81 => '0',
        82 => '.',
        _ => '\0',
    }
}

/// Character table lookup with shift.
fn shift_char_of(sc: u8) -> (r: char)
    requires
        sc < 128,
    ensures
        r == shift_char(sc),
{
    match sc {
        1 => '\x1B',
        2 => '!',
        3 => '@',
        4 => '#',
        5 => '$',
        6 => '%',
        7 => '^',
        8 => '&',
        9 => '*',
        10 => '(',
        11 => ')',
        12 => '_',
        13 => '+',
        14 => '\x08',
        15 => '\t',
        16 => 'Q',
        17 => 'W',
        18 => 'E',
        19 => 'R',
        20 => 'T',
        21 => 'Y',
        22 => 'U',
        23 => 'I',
        24 => 'O',
        25 => 'P',
        26 => '{',
        27 => '}',
        28 => '\n',
        30 => 'A',
        31 => 'S',
        32 => 'D',
        33 => 'F',
        34 => 'G',
        35 => 'H',
        36 => 'J',
        37 => 'K',
        38 => 'L',
        39 => ':',
        40 => '"',
        41 => '~',
        43 => '|',
        44 => 'Z',
        45 => 'X',
        46 => 'C',
        47 => 'V',
        48 => 'B',
        49 => 'N',
        50 => 'M',
        51 => '<',
        52 => '>',
        53 => '?',
        55 => '*',
        57 => ' ',
        71 => '7',
        72 => '8',
        73 => '9',
        74 => '-',
        75 => '4',
        76 => '5',
        77 => '6',
        78 => '+',
        79 => '1',
        80 => '2',
        81 => '3',
        82 => '0',
        83 => '.',
        _ => '\0',
    }
}


/// Scancodes waiting to be decoded, oldest first.  When the queue is full
/// the oldest scancode is dropped to keep the latest input.
pub struct ScancodeQueue {
    data: Vec<u8>,
    head: usize,
    tail: usize,
}

impl ScancodeQueue {
    pub closed spec fn view(&self) -> Seq<u8> {
        let n = if self.head >= self.tail {
            self.head - self.tail
        } else {
            QUEUE_CAPACITY - self.tail + self.head
        };
        Seq::new(n as nat, |i: int| self.data@[(self.tail + i) % QUEUE_CAPACITY as int])
    }

    pub closed spec fn wf(&self) -> bool {
        &&& self.data@.len() == QUEUE_CAPACITY
        &&& self.head < QUEUE_CAPACITY
        &&& self.tail < QUEUE_CAPACITY
    }

    pub fn new() -> (r: Self)
        ensures
            r.wf(),
            r@ == Seq::<u8>::empty(),
    {
        let mut data: Vec<u8> = Vec::new();
        let mut i: usize = 0;
        while i < QUEUE_CAPACITY
            invariant
                i <= QUEUE_CAPACITY,
                data@.len() == i,
            decreases QUEUE_CAPACITY - i,
        {
            data.push(0);
            i = i + 1;
        }
        let r = ScancodeQueue { data, head: 0, tail: 0 };
        assert(r@ =~= Seq::<u8>::empty());
        r
    }

    /// Append a scancode, dropping the oldest when full.
    pub fn push(&mut self, scancode: u8)
        requires
            old(self).wf(),
        ensures
            final(self).wf(),
            old(self)@.len() < QUEUE_CAPACITY - 1 ==> final(self)@ == old(self)@.push(scancode),
            old(self)@.len() >= QUEUE_CAPACITY - 1 ==> final(self)@ == old(self)@.drop_first().push(
                scancode,
            ),
    {
        let next_head = (self.head + 1) % QUEUE_CAPACITY;
        let ghost q = self@;
        if next_head != self.tail {
            self.data.set(self.head, scancode);
            self.head = next_head;
            assert(self@ =~= q.push(scancode)) by {
                let n = q.len();
                assert forall|i: int| 0 <= i < n implies self@[i] == q[i] by {
                    assert((self.tail + i) % 128 != old(self).head as int);
                }
                assert(self@[n as int] == scancode) by {
                    assert((self.tail + n) % 128 == old(self).head as int);
                }
            }
        } else {
            self.tail = (self.tail + 1) % QUEUE_CAPACITY;
            self.data.set(self.head, scancode);
            self.head = next_head;
            assert(self@ =~= q.drop_first().push(scancode)) by {
                let n = q.len();
                assert(n == 127);
                assert forall|i: int| 0 <= i < n - 1 implies self@[i] == q[i + 1] by {
                    assert((self.tail + i) % 128 == (old(self).tail + i + 1) % 128);
                    assert((self.tail + i) % 128 != old(self).head as int);
                }
                assert(self@[n - 1] == scancode) by {
                    assert((self.tail + n - 1) % 128 == old(self).head as int);
                }
            }
        }
    }

    /// Take the oldest scancode.
    pub fn pop(&mut self) -> (r: Option<u8>)
        requires
            old(self).wf(),
        ensures
            final(self).wf(),
            old(self)@.len() == 0 ==> r is None && final(self)@ == old(self)@,
            old(self)@.len() > 0 ==> r == Some(old(self)@[0]) && final(self)@ == old(self)@.drop_first(),
    {
        if self.head == self.tail {
            return None;
        }
        let sc = self.data[self.tail];
        self.tail = (self.tail + 1) % QUEUE_CAPACITY;
        assert(self@ =~= old(self)@.drop_first()) by {
            assert forall|i: int| 0 <= i < self@.len() implies self@[i] == old(self)@.drop_first()[i] by {
                assert((self.tail + i) % 128 == (old(self).tail + (i + 1)) % 128);
            }
        }
        Some(sc)
    }
}

/// Characters of an escape sequence still to be delivered.  It holds up
/// to 8 characters; pushes past that are dropped, and it empties once
/// everything pushed has been delivered.
pub struct PendingBuffer {
    chars: [char; 8],
    count: usize,
    index: usize,
}

impl PendingBuffer {
    /// The characters still to be delivered.
    pub closed spec fn view(&self) -> Seq<char> {
        self.chars@.subrange(self.index as int, self.count as int)
    }

    /// Characters pushed since it was last empty.
    pub closed spec fn pushed_count(&self) -> nat {
        self.count as nat
    }

    pub closed spec fn wf(&self) -> bool {
        &&& self.index <= self.count <= 8
        &&& self.count > 0 ==> self.index < self.count
    }

    pub fn new() -> (r: Self)
        ensures
            r.wf(),
            r@ == Seq::<char>::empty(),
            r.pushed_count() == 0,
    {
        let r = PendingBuffer { chars: ['\0'; 8], count: 0, index: 0 };
        assert(r@ =~= Seq::<char>::empty());
        r
    }

    /// Append a character if fewer than 8 were pushed since it was empty.
    pub fn push(&mut self, c: char)
        requires
            old(self).wf(),
        ensures
            final(self).wf(),
            old(self).pushed_count() < 8 ==> final(self)@ == old(self)@.push(c)
                && final(self).pushed_count() == old(self).pushed_count() + 1,
            old(self).pushed_count() >= 8 ==> final(self)@ == old(self)@ && final(self).pushed_count()
                == old(self).pushed_count(),
    {
        if self.count < 8 {
            self.chars[self.count] = c;
            self.count = self.count + 1;
            assert(self@ =~= old(self)@.push(c));
        }
    }

    /// Deliver the next character.
    pub fn pop(&mut self) -> (r: Option<char>)
        requires
            old(self).wf(),
        ensures
            final(self).wf(),
            old(self)@.len() == 0 ==> r is None && final(self)@ == old(self)@ && final(self).pushed_count()
                == old(self).pushed_count(),
            old(self)@.len() > 0 ==> r == Some(old(self)@[0]) && final(self)@ == old(self)@.drop_first(),
            old(self)@.len() == 1 ==> final(self).pushed_count() == 0,
            old(self)@.len() > 1 ==> final(self).pushed_count() == old(self).pushed_count(),
    {
        if self.index < self.count {
            let c = self.chars[self.index];
            self.index = self.index + 1;
            if self.index == self.count {
                self.count = 0;
                self.index = 0;
            }
            assert(self@ =~= old(self)@.drop_first());
            Some(c)
        } else {
            None
        }
    }
}

/// What the console input holds.
pub struct InputView {
    pub queue: Seq<u8>,
    pub pending: Seq<char>,
    pub pending_pushed: nat,
    pub shift: bool,
    pub alt: bool,
    pub extended: bool,
    pub last_cr: bool,
}

/// What decoding `scancode` gives from input state `o`, and the state
/// after it (see `ConsoleInput::decode_scancode`).
pub open spec fn decoded(o: InputView, scancode: u8, vt_count: usize) -> (Decoded, InputView) {
    let none = Decoded { ch: None, switch_to: None };
    if scancode == 0xE0 {
        (none, InputView { extended: true, ..o })
    } else if scancode & 0x80 != 0 {
        let key = scancode & 0x7F;
        (
            none,
            InputView {
                extended: false,
                shift: if key == 0x2A || key == 0x36 {
                    false
                } else {
                    o.shift
                },
                alt: if key == 0x38 {
                    false
                } else {
                    o.alt
                },
                ..o
            },
        )
    } else if o.extended {
        match escape_tail(scancode) {
            Some(t) => (
                Decoded { ch: Some('\x1B'), switch_to: None },
                InputView {
                    extended: false,
                    pending: pend_all(o.pending, o.pending_pushed, t),
                    pending_pushed: pend_count(o.pending_pushed, t),
                    ..o
                },
            ),
            None => (none, InputView { extended: false, ..o }),
        }
    } else if scancode == 0x2A || scancode == 0x36 {
        (none, InputView { shift: true, ..o })
    } else if scancode == 0x38 {
        (none, InputView { alt: true, ..o })
    } else if o.alt && vt_key(scancode) is Some {
        let t = vt_key(scancode).unwrap();
        (
            Decoded {
                ch: None,
                switch_to: if t < vt_count {
                    Some(t)
                } else {
                    None
                },
            },
            o,
        )
    } else {
        let c = if o.shift {
            shift_char(scancode)
        } else {
            plain_char(scancode)
        };
        if c == '\r' {
            (Decoded { ch: Some('\n'), switch_to: None }, InputView { last_cr: true, ..o })
        } else if c != '\0' {
            (Decoded { ch: Some(c), switch_to: None }, InputView { last_cr: false, ..o })
        } else {
            (none, o)
        }
    }
}

/// Law: shift holds only while it is pressed.  Releasing either shift key
/// (0xAA, 0xB6) clears shift whatever the state; after a shift press a
/// character key gives its shifted character, and after the release that
/// follows it gives its plain character again.
pub proof fn law_shift_press_release(o: InputView, sc: u8, vt: usize)
    requires
        !o.extended,
        !o.alt,
        sc < 0x80,
        sc != 0x2A && sc != 0x36 && sc != 0x38,
        plain_char(sc) != '\0' && plain_char(sc) != '\r',
        shift_char(sc) != '\0' && shift_char(sc) != '\r',
    ensures
        !decoded(o, 0xAA, vt).1.shift,
        !decoded(o, 0xB6, vt).1.shift,
        ({
            let pressed = decoded(o, 0x2A, vt).1;
            let released = decoded(pressed, 0xAA, vt).1;
            let released_right = decoded(pressed, 0xB6, vt).1;
            &&& pressed.shift
            &&& decoded(pressed, sc, vt).0.ch == Some(shift_char(sc))
            &&& !released.shift
            &&& decoded(released, sc, vt).0.ch == Some(plain_char(sc))
            &&& decoded(released_right, sc, vt).0.ch == Some(plain_char(sc))
        }),
{
    assert((0xAAu8 & 0x80) != 0 && (0xAAu8 & 0x7F) == 0x2A && (0xB6u8 & 0x80) != 0 && (0xB6u8 & 0x7F) == 0x36
        && (0x2Au8 & 0x80) == 0 && sc & 0x80 == 0) by (bit_vector)
        requires
            sc < 0x80,
    ;
}

/// Law: alt holds only while it is pressed, and a key release gives no
/// character.  Pressing alt (0x38) sets it, releasing it (0xB8) clears it;
/// any release clears the extended prefix, and releasing a key other than
/// shift or alt leaves shift and alt as they were.
pub proof fn law_modifier_keys(o: InputView, sc: u8, vt: usize)
    requires
        !o.extended,
        sc >= 0x80,
        sc != 0xE0,
    ensures
        decoded(o, 0x38, vt).1.alt,
        decoded(o, 0x38, vt).0.ch is None,
        !decoded(o, 0xB8, vt).1.alt,
        decoded(o, sc, vt).0 == (Decoded { ch: None, switch_to: None }),
        !decoded(o, sc, vt).1.extended,
        sc != 0xAA && sc != 0xB6 ==> decoded(o, sc, vt).1.shift == o.shift,
        sc != 0xB8 ==> decoded(o, sc, vt).1.alt == o.alt,
{
    assert((0x38u8 & 0x80) == 0 && (0xB8u8 & 0x80) != 0 && (0xB8u8 & 0x7F) == 0x38 && sc & 0x80 != 0
        && ((sc & 0x7F) == 0x2A ==> sc == 0xAA) && ((sc & 0x7F) == 0x36 ==> sc == 0xB6) && ((sc & 0x7F)
        == 0x38 ==> sc == 0xB8)) by (bit_vector)
        requires
            sc >= 0x80,
    ;
}

/// Keyboard and serial console input state
pub struct ConsoleInput {
    queue: ScancodeQueue,
    pending: PendingBuffer,
    shift: bool,
    alt: bool,
    extended: bool,
    last_cr: bool,
}

/// The escape sequence after ESC for an extended scancode, if it is one
/// of the keys that have one: arrows, delete, home and end.
pub open spec fn escape_tail(sc: u8) -> Option<Seq<char>> {
    if sc == 0x48 {
        Some(seq!['[', 'A'])
    } else if sc == 0x4B {
        Some(seq!['[', 'D'])
    } else if sc == 0x4D {
        Some(seq!['[', 'C'])
    } else if sc == 0x50 {
        Some(seq!['[', 'B'])
    } else if sc == 0x53 {
        Some(seq!['[', '3', '~'])
    } else if sc == 0x47 {
        Some(seq!['[', 'H'])
    } else if sc == 0x4F {
        Some(seq!['[', 'F'])
    } else {
        None
    }
}

/// The pending characters after pushing `t`, one at a time, with room for
/// eight since the buffer was last empty.
pub open spec fn pend_all(p: Seq<char>, pushed: nat, t: Seq<char>) -> Seq<char>
    decreases t.len(),
{
    if t.len() == 0 {
        p
    } else if pushed < 8 {
        pend_all(p.push(t[0]), pushed + 1, t.drop_first())
    } else {
        p
    }
}

pub open spec fn pend_count(pushed: nat, t: Seq<char>) -> nat {
    if pushed + t.len() <= 8 {
        pushed + t.len()
    } else if pushed <= 8 {
        8
    } else {
        pushed
    }
}

/// The virtual terminal Alt+F1..F6 switch to.
pub open spec fn vt_key(sc: u8) -> Option<usize> {
    if 0x3B <= sc <= 0x40 {
        Some((sc - 0x3B) as usize)
    } else {
        None
    }
}

/// What decoding a scancode gives: the character, if any, and the
/// terminal to switch to, if any.
#[derive(Clone, Copy, PartialEq, Eq, Structural)]
pub struct Decoded {
    pub ch: Option<char>,
    pub switch_to: Option<usize>,
}

impl ConsoleInput {
    pub closed spec fn view(&self) -> InputView {
        InputView {
            queue: self.queue@,
            pending: self.pending@,
            pending_pushed: self.pending.pushed_count(),
            shift: self.shift,
            alt: self.alt,
            extended: self.extended,
            last_cr: self.last_cr,
        }
    }

    pub closed spec fn wf(&self) -> bool {
        self.queue.wf() && self.pending.wf()
    }

    pub fn new() -> (r: Self)
        ensures
            r.wf(),
            r.view() == (InputView {
                queue: Seq::empty(),
                pending: Seq::empty(),
                pending_pushed: 0,
                shift: false,
                alt: false,
                extended: false,
                last_cr: false,
            }),
    {
        ConsoleInput {
            queue: ScancodeQueue::new(),
            pending: PendingBuffer::new(),
            shift: false,
            alt: false,
            extended: false,
            last_cr: false,
        }
    }

    /// Queue a scancode from the keyboard interrupt
    pub fn add_scancode(&mut self, scancode: u8)
        requires
            old(self).wf(),
        ensures
            final(self).wf(),
            final(self).view() == (InputView {
                queue: if old(self).view().queue.len() < QUEUE_CAPACITY - 1 {
                    old(self).view().queue.push(scancode)
                } else {
                    old(self).view().queue.drop_first().push(scancode)
                },
                ..old(self).view()
            }),
    {
        self.queue.push(scancode);
    }

    /// Take the oldest queued scancode.
    pub fn get_scancode(&mut self) -> (r: Option<u8>)
        requires
            old(self).wf(),
        ensures
            final(self).wf(),
            old(self).view().queue.len() == 0 ==> r is None && final(self).view() == old(self).view(),
            old(self).view().queue.len() > 0 ==> r == Some(old(self).view().queue[0])
                && final(self).view() == (InputView { queue: old(self).view().queue.drop_first(), ..old(self).view() }),
    {
        self.queue.pop()
    }

    fn pend(&mut self, t: &[char])
        requires
            old(self).wf(),
        ensures
            final(self).wf(),
            final(self).view() == (InputView {
                pending: pend_all(old(self).view().pending, old(self).view().pending_pushed, t@),
                pending_pushed: pend_count(old(self).view().pending_pushed, t@),
                ..old(self).view()
            }),
    {
        let mut i: usize = 0;
        assert(t@.skip(0) =~= t@);
        while i < t.len()
            invariant
                i <= t@.len(),
                self.wf(),
                pend_all(old(self).view().pending, old(self).view().pending_pushed, t@) == pend_all(
                    self.view().pending,
                    self.view().pending_pushed,
                    t@.skip(i as int),
                ),
                pend_count(old(self).view().pending_pushed, t@) == pend_count(
                    self.view().pending_pushed,
                    t@.skip(i as int),
                ),
                self.view().pending_pushed <= 8,
                self.queue == old(self).queue,
                self.shift == old(self).shift,
                self.alt == old(self).alt,
                self.extended == old(self).extended,
                self.last_cr == old(self).last_cr,
            decreases t@.len() - i,
        {
            proof {
                assert(t@.skip(i as int).drop_first() =~= t@.skip(i + 1));
                assert(t@.skip(i as int)[0] == t@[i as int]);
            }
            self.pending.push(t[i]);
            i = i + 1;
        }
        assert(t@.skip(i as int) =~= Seq::<char>::empty());
    }

    /// Decode a scancode into a character
    ///
    /// 0xE0 marks the next scancode as extended; releases clear shift
    /// and alt; the extended arrow, delete, home and end keys give ESC
    /// and leave the rest of their escape sequence pending; Alt+F1..F6
    /// switch terminals (`vt_count` of them exist) instead of giving a
    /// character; CR gives a newline.
    pub fn decode_scancode(&mut self, scancode: u8, vt_count: usize) -> (r: Decoded)
        requires
            old(self).wf(),
        ensures
            final(self).wf(),
            final(self).view().queue == old(self).view().queue,
            (r, final(self).view()) == decoded(old(self).view(), scancode, vt_count),
    {
        let none = Decoded { ch: None, switch_to: None };
        if scancode == 0xE0 {
            self.extended = true;
            return none;
        }
        let extended = self.extended;
        self.extended = false;
        if scancode & 0x80 != 0 {
            let key = scancode & 0x7F;
            if key == 0x2A || key == 0x36 {
                self.shift = false;
            }
            if key == 0x38 {
                self.alt = false;
            }
            return none;
        }
        if extended {
            if scancode == 0x48 {
                let t: [char; 2] = ['[', 'A'];
                assert(t@ =~= seq!['[', 'A']);
                self.pend(t.as_slice());
            } else if scancode == 0x4B {
                let t: [char; 2] = ['[', 'D'];
                assert(t@ =~= seq!['[', 'D']);
                self.pend(t.as_slice());
            } else if scancode == 0x4D {
                let t: [char; 2] = ['[', 'C'];
                assert(t@ =~= seq!['[', 'C']);
                self.pend(t.as_slice());
            } else if scancode == 0x50 {
                let t: [char; 2] = ['[', 'B'];
                assert(t@ =~= seq!['[', 'B']);
                self.pend(t.as_slice());
            } else if scancode == 0x53 {
                let t: [char; 3] = ['[', '3', '~'];
                assert(t@ =~= seq!['[', '3', '~']);
                self.pend(t.as_slice());
            } else if scancode == 0x47 {
                let t: [char; 2] = ['[', 'H'];
                assert(t@ =~= seq!['[', 'H']);
                self.pend(t.as_slice());
            } else if scancode == 0x4F {
                let t: [char; 2] = ['[', 'F'];
                assert(t@ =~= seq!['[', 'F']);
                self.pend(t.as_slice());
            } else {
                return none;
            }
            return Decoded { ch: Some('\x1B'), switch_to: None };
        }
        if scancode == 0x2A || scancode == 0x36 {
            self.shift = true;
            return none;
        }
        if scancode == 0x38 {
            self.alt = true;
            return none;
        }
        if self.alt && 0x3B <= scancode && scancode <= 0x40 {
            let idx = (scancode - 0x3B) as usize;
            return Decoded {
                ch: None,
                switch_to: if idx < vt_count {
                    Some(idx)
                } else {
                    None
                },
            };
        }
        assert(scancode < 128) by (bit_vector)
            requires
                scancode & 0x80 == 0,
        ;
        let ch = if self.shift {
            shift_char_of(scancode)
        } else {
            plain_char_of(scancode)
        };
        if ch == '\r' {
            self.last_cr = true;
            Decoded { ch: Some('\n'), switch_to: None }
        } else if ch != '\0' {
            self.last_cr = false;
            Decoded { ch: Some(ch), switch_to: None }
        } else {
            none
        }
    }

    /// Decode a byte from the serial console
    ///
    /// CR gives a newline and a LF right after it is dropped; backspace
    /// and DEL give backspace; NUL and non-ASCII bytes give nothing.
    pub fn decode_serial_byte(&mut self, byte: u8) -> (r: Option<char>)
        requires
            old(self).wf(),
        ensures
            final(self).wf(),
            ({
                let o = old(self).view();
                let n = final(self).view();
                if byte == 13 {
                    r == Some('\n') && n == InputView { last_cr: true, ..o }
                } else if byte == 10 {
                    r == (if o.last_cr {
                        None
                    } else {
                        Some('\n')
                    }) && n == InputView { last_cr: false, ..o }
                } else if byte == 8 || byte == 0x7F {
                    r == Some('\x08') && n == InputView { last_cr: false, ..o }
                } else if byte == 0 {
                    r is None && n == o
                } else if byte < 128 {
                    r == Some(byte as char) && n == InputView { last_cr: false, ..o }
                } else {
                    r is None && n == InputView { last_cr: false, ..o }
                }
            }),
    {
        if byte == 13 {
            self.last_cr = true;
            Some('\n')
        } else if byte == 10 {
            let was_cr = self.last_cr;
            self.last_cr = false;
            if was_cr {
                None
            } else {
                Some('\n')
            }
        } else if byte == 8 || byte == 0x7F {
            self.last_cr = false;
            Some('\x08')
        } else if byte == 0 {
            None
        } else if byte < 128 {
            self.last_cr = false;
            Some(byte as char)
        } else {
            self.last_cr = false;
            None
        }
    }

    /// Deliver a pending escape character, else decode the next queued
    /// scancode.  `None` when neither gives a character (the kernel then
    /// tries the serial port).
    pub fn poll_keyboard(&mut self, vt_count: usize) -> (r: Decoded)
        requires
            old(self).wf(),
        ensures
            final(self).wf(),
            old(self).view().pending.len() > 0 ==> r == (Decoded {
                ch: Some(old(self).view().pending[0]),
                switch_to: None,
            }) && final(self).view().pending == old(self).view().pending.drop_first()
                && final(self).view().queue == old(self).view().queue,
            old(self).view().pending.len() == 0 && old(self).view().queue.len() == 0 ==> r == (
            Decoded { ch: None, switch_to: None }) && final(self).view() == old(self).view(),
            old(self).view().pending.len() == 0 && old(self).view().queue.len() > 0 ==> (r, final(self).view())
                == decoded(
                InputView { queue: old(self).view().queue.drop_first(), ..old(self).view() },
                old(self).view().queue[0],
                vt_count,
            ),
    {
        match self.pending.pop() {
            Some(c) => {
                return Decoded { ch: Some(c), switch_to: None };
            },
            None => {},
        }
        match self.queue.pop() {
            Some(sc) => self.decode_scancode(sc, vt_count),
            None => Decoded { ch: None, switch_to: None },
        }
    }
}

/// What a line editor does with a character.
#[derive(Clone, Copy, PartialEq, Eq, Structural)]
pub enum LineStep {
    /// The line is complete with this many bytes; echo a newline.
    Done(usize),
    /// Erase the last byte; echo a backspace.
    Erase(usize),
    /// Store the character; echo it.
    Store(usize),
    /// Ignore the character (line full, or nothing to erase).
    Ignore(usize),
}

/// Line editing: one character read into a line of `pos` bytes held in
/// `buf`.
pub fn edit_line(buf: &mut Vec<u8>, pos: usize, ch: char) -> (r: LineStep)
    requires
        pos <= old(buf)@.len(),
    ensures
        final(buf)@.len() == old(buf)@.len(),
        ch == '\n' ==> r == LineStep::Done(pos) && final(buf)@ == old(buf)@,
        ch == '\x08' ==> final(buf)@ == old(buf)@ && r == if pos > 0 {
            LineStep::Erase((pos - 1) as usize)
        } else {
            LineStep::Ignore(pos)
        },
        ch != '\n' && ch != '\x08' ==> if pos < old(buf)@.len() {
            r == LineStep::Store((pos + 1) as usize) && final(buf)@ == old(buf)@.update(
                pos as int,
                ch as u8,
            )
        } else {
            r == LineStep::Ignore(pos) && final(buf)@ == old(buf)@
        },
{
    if ch == '\n' {
        LineStep::Done(pos)
    } else if ch == '\x08' {
        if pos > 0 {
            LineStep::Erase(pos - 1)
        } else {
            LineStep::Ignore(pos)
        }
    } else if pos < buf.len() {
        buf.set(pos, ch as u8);
        LineStep::Store(pos + 1)
    } else {
        LineStep::Ignore(pos)
    }
}

/// Raw reads take at most this many bytes: the buffer's length, capped by
/// the count asked for.
pub fn read_raw_limit(buf_len: usize, count: usize) -> (r: usize)
    ensures
        r == if buf_len < count {
            buf_len
        } else {
            count
        },
{
    if buf_len < count {
        buf_len
    } else {
        count
    }
}

} // verus!
