//! Hardware watchdog timer
//!
//! Supports the Intel i6300esb (QEMU's default), the Intel ICH TCO timer
//! and Super I/O watchdogs, with a software watchdog as the fallback.  A
//! watchdog resets the machine unless it is fed in time.  This module
//! keeps the watchdog's state and computes what is written to the
//! hardware; the kernel performs the port accesses.

use vstd::prelude::*;
use crate::posix::errno::{EFAULT, EINVAL, ENODEV, ENOTTY};

verus! {

/// Watchdog type currently in use
#[derive(Clone, Copy, Debug, PartialEq, Eq, Structural)]
pub enum WatchdogType {
    NoWatchdog,
    /// Intel i6300esb (common in QEMU)
    I6300ESB,
    /// Intel ICH TCO timer
    IntelTCO,
    /// Super I/O chipset watchdog
    SuperIO,
    /// Software watchdog (timer-based fallback)
    Software,
}

/// Watchdog information structure (for userspace query)
#[derive(Clone, Copy, Debug)]
pub struct WatchdogInfo {
    /// Watchdog options (bitmask)
    pub options: u32,
    /// Firmware version (0 if not applicable)
    pub firmware_version: u32,
    /// Identity string (null-terminated, max 32 chars)
    pub identity: [u8; 32],
}

/// The timeout can be set.
pub const WDIOF_SETTIMEOUT: u32 = 0x0080;
/// The watchdog takes a magic close.
pub const WDIOF_MAGICCLOSE: u32 = 0x0100;
/// The watchdog keeps running after close.
pub const WDIOF_KEEPALIVEPING: u32 = 0x8000;

pub const WDIOC_GETSUPPORT: u64 = 0x80285700;
pub const WDIOC_GETSTATUS: u64 = 0x80045701;
pub const WDIOC_GETBOOTSTATUS: u64 = 0x80045702;
pub const WDIOC_GETTIMEOUT: u64 = 0x80045707;
pub const WDIOC_SETTIMEOUT: u64 = 0xC0045706;
pub const WDIOC_KEEPALIVE: u64 = 0x80045705;
pub const WDIOC_SETOPTIONS: u64 = 0x80045704;

pub const WDIOS_DISABLECARD: u32 = 0x0001;
pub const WDIOS_ENABLECARD: u32 = 0x0002;

/// Timeout in seconds before one is set.
pub const DEFAULT_TIMEOUT_SECS: u32 = 60;

/// i6300esb timer ticks for a timeout: one a second, at most 0xFFFF.
pub open spec fn i6300esb_ticks(timeout: u32) -> u16 {
    if timeout <= 0xFFFF {
        timeout as u16
    } else {
        0xFFFF
    }
}

/// TCO timer ticks for a timeout: 1.6 a second, at most 0x3FF.
pub open spec fn tco_ticks(timeout: u32) -> u16 {
    if timeout * 16 / 10 <= 0x3FF {
        (timeout * 16 / 10) as u16
    } else {
        0x3FF
    }
}

/// Super I/O timeout register value: the timeout, at most 255.
pub open spec fn superio_timeout(timeout: u32) -> u8 {
    if timeout <= 255 {
        timeout as u8
    } else {
        255
    }
}

/// What the hardware is told.
#[derive(Clone, Copy, Debug, PartialEq, Eq, Structural)]
pub enum WatchdogHw {
    /// Nothing.
    Idle,
    /// Load the i6300esb timer with `ticks` and set its enable bit.
    EnableI6300esb { ticks: u16 },
    /// Put `ticks` in bits 9:0 of TCO1_CNT, then clear its halt bit.
    EnableTco { ticks: u16 },
    /// Set the Super I/O timeout register and its enable bit.
    EnableSuperio { timeout: u8 },
    /// Stop the watchdog of the given type.
    Disable { kind: WatchdogType },
    /// Feed the watchdog of the given type (the Super I/O one is fed by
    /// writing `timeout` again).
    Feed { kind: WatchdogType, timeout: u8 },
}

/// The hardware step that starts a watchdog with a timeout.
pub open spec fn enable_step(kind: WatchdogType, timeout: u32) -> WatchdogHw {
    match kind {
        WatchdogType::I6300ESB => WatchdogHw::EnableI6300esb { ticks: i6300esb_ticks(timeout) },
        WatchdogType::IntelTCO => WatchdogHw::EnableTco { ticks: tco_ticks(timeout) },
        WatchdogType::SuperIO => WatchdogHw::EnableSuperio { timeout: superio_timeout(timeout) },
        _ => WatchdogHw::Idle,
    }
}

fn enable_hw(kind: WatchdogType, timeout: u32) -> (r: WatchdogHw)
    ensures
        r == enable_step(kind, timeout),
{
    match kind {
        WatchdogType::I6300ESB => WatchdogHw::EnableI6300esb {
            ticks: if timeout <= 0xFFFF {
                timeout as u16
            } else {
                0xFFFF
            },
        },
        WatchdogType::IntelTCO => {
            let t = (timeout as u64 * 16) / 10;
            WatchdogHw::EnableTco {
                ticks: if t <= 0x3FF {
                    t as u16
                } else {
                    0x3FF
                },
            }
        },
        WatchdogType::SuperIO => WatchdogHw::EnableSuperio {
            timeout: if timeout <= 255 {
                timeout as u8
            } else {
                255
            },
        },
        _ => WatchdogHw::Idle,
    }
}

/// TCO1_CNT with the timer ticks in bits 9:0.
pub fn tco_cnt_with_ticks(cnt: u16, ticks: u16) -> (r: u16)
    ensures
        r == (cnt & 0xFC00) | ticks,
{
    (cnt & 0xFC00) | ticks
}

/// TCO1_CNT with the halt bit clear (the timer runs).
pub fn tco_cnt_running(cnt: u16) -> (r: u16)
    ensures
        r == cnt & !0x0800u16,
{
    cnt & !0x0800u16
}

/// TCO1_CNT with the halt bit set (the timer stops).
pub fn tco_cnt_halted(cnt: u16) -> (r: u16)
    ensures
        r == cnt | 0x0800,
{
    cnt | 0x0800
}

/// i6300esb reload register with the reload bit set.
pub fn i6300esb_reload(current: u32) -> (r: u32)
    ensures
        r == current | 0x0100_0000,
{
    current | 0x0100_0000
}

/// The watchdog's state.
pub struct Watchdog {
    initialized: bool,
    enabled: bool,
    timeout_secs: u32,
    kind: WatchdogType,
}

/// What `watchdog_ioctl` answers: the result, the value written back to
/// the caller's buffer, and the hardware steps, in order.
#[derive(Clone, Copy, Debug)]
pub enum WatchdogWrite {
    Nothing,
    Info(WatchdogInfo),
    Word(u32),
}

impl Watchdog {
    pub closed spec fn ready(&self) -> bool {
        self.initialized
    }

    pub closed spec fn on(&self) -> bool {
        self.enabled
    }

    pub closed spec fn timeout(&self) -> u32 {
        self.timeout_secs
    }

    pub closed spec fn kind(&self) -> WatchdogType {
        self.kind
    }

    /// Not probed yet.
    pub fn new() -> (r: Self)
        ensures
            !r.ready() && !r.on(),
            r.timeout() == DEFAULT_TIMEOUT_SECS,
            r.kind() == WatchdogType::NoWatchdog,
    {
        Watchdog { initialized: false, enabled: false, timeout_secs: DEFAULT_TIMEOUT_SECS, kind: WatchdogType::NoWatchdog }
    }

    /// Take the first watchdog the probes found, in order of preference:
    /// the i6300esb (its timer register does not read all ones), the TCO
    /// timer (its status register does not read all ones), a Super I/O
    /// chip (its id is neither 0xFF nor 0), else the software watchdog.
    /// Done once.
    pub fn init(&mut self, i6300esb_timer: u32, tco_status: u16, superio_id: u8)
        ensures
            final(self).ready(),
            final(self).on() == old(self).on(),
            final(self).timeout() == old(self).timeout(),
            old(self).ready() ==> final(self).kind() == old(self).kind(),
            !old(self).ready() ==> final(self).kind() == (if i6300esb_timer != 0xFFFF_FFFF {
                WatchdogType::I6300ESB
            } else if tco_status != 0xFFFF {
                WatchdogType::IntelTCO
            } else if superio_id != 0xFF && superio_id != 0x00 {
                WatchdogType::SuperIO
            } else {
                WatchdogType::Software
            }),
    {
        if self.initialized {
            return;
        }
        self.kind = if i6300esb_timer != 0xFFFF_FFFF {
            WatchdogType::I6300ESB
        } else if tco_status != 0xFFFF {
            WatchdogType::IntelTCO
        } else if superio_id != 0xFF && superio_id != 0x00 {
            WatchdogType::SuperIO
        } else {
            WatchdogType::Software
        };
        self.initialized = true;
    }

    /// Check if watchdog is initialized
    pub fn is_initialized(&self) -> (r: bool)
        ensures
            r == self.ready(),
    {
        self.initialized
    }

    /// Get the watchdog type
    pub fn get_type(&self) -> (r: WatchdogType)
        ensures
            r == self.kind(),
    {
        self.kind
    }

    /// Check if watchdog is enabled
    pub fn is_enabled(&self) -> (r: bool)
        ensures
            r == self.on(),
    {
        self.enabled
    }

    /// Get the current timeout in seconds
    pub fn get_timeout(&self) -> (r: u32)
        ensures
            r == self.timeout(),
    {
        self.timeout_secs
    }

    /// Enable the watchdog timer: `ENODEV` before probing or without a
    /// watchdog, else it runs with the current timeout.
    pub fn enable(&mut self) -> (r: Result<WatchdogHw, i32>)
        ensures
            final(self).ready() == old(self).ready(),
            final(self).timeout() == old(self).timeout(),
            final(self).kind() == old(self).kind(),
            (!old(self).ready() || old(self).kind() == WatchdogType::NoWatchdog) ==> r == Err::<WatchdogHw, i32>(ENODEV)
                && final(self).on() == old(self).on(),
            old(self).ready() && old(self).kind() != WatchdogType::NoWatchdog ==> r == Ok::<WatchdogHw, i32>(
                enable_step(old(self).kind(), old(self).timeout()),
            ) && final(self).on(),
    {
        if !self.initialized || self.kind == WatchdogType::NoWatchdog {
            return Err(ENODEV);
        }
        let hw = enable_hw(self.kind, self.timeout_secs);
        self.enabled = true;
        Ok(hw)
    }

    /// Disable the watchdog timer: `ENODEV` before probing or without a
    /// watchdog.
    pub fn disable(&mut self) -> (r: Result<WatchdogHw, i32>)
        ensures
            final(self).ready() == old(self).ready(),
            final(self).timeout() == old(self).timeout(),
            final(self).kind() == old(self).kind(),
            (!old(self).ready() || old(self).kind() == WatchdogType::NoWatchdog) ==> r == Err::<WatchdogHw, i32>(ENODEV)
                && final(self).on() == old(self).on(),
            old(self).ready() && old(self).kind() != WatchdogType::NoWatchdog ==> !final(self).on() && r
                == Ok::<WatchdogHw, i32>(if old(self).kind() == WatchdogType::Software {
                WatchdogHw::Idle
            } else {
                WatchdogHw::Disable { kind: old(self).kind() }
            }),
    {
        if !self.initialized || self.kind == WatchdogType::NoWatchdog {
            return Err(ENODEV);
        }
        self.enabled = false;
        if self.kind == WatchdogType::Software {
            Ok(WatchdogHw::Idle)
        } else {
            Ok(WatchdogHw::Disable { kind: self.kind })
        }
    }

    /// Feed (pet) the watchdog: `ENODEV` before probing; nothing while it
    /// is off; `ENODEV` without a watchdog.
    pub fn feed(&self) -> (r: Result<WatchdogHw, i32>)
        ensures
            !self.ready() ==> r == Err::<WatchdogHw, i32>(ENODEV),
            self.ready() && !self.on() ==> r == Ok::<WatchdogHw, i32>(WatchdogHw::Idle),
            self.ready() && self.on() ==> r == (match self.kind() {
                WatchdogType::NoWatchdog => Err(ENODEV),
                WatchdogType::Software => Ok(WatchdogHw::Idle),
                k => Ok(WatchdogHw::Feed { kind: k, timeout: superio_timeout(self.timeout()) }),
            }),
    {
        if !self.initialized {
            return Err(ENODEV);
        }
        if !self.enabled {
            return Ok(WatchdogHw::Idle);
        }
        match self.kind {
            WatchdogType::NoWatchdog => Err(ENODEV),
            WatchdogType::Software => Ok(WatchdogHw::Idle),
            k => Ok(WatchdogHw::Feed {
                kind: k,
                timeout: if self.timeout_secs <= 255 {
                    self.timeout_secs as u8
                } else {
                    255
                },
            }),
        }
    }

    /// Set the watchdog timeout in seconds: `ENODEV` before probing,
    /// `EINVAL` outside 1 to 3600; a running hardware watchdog is started
    /// again with it.
    pub fn set_timeout(&mut self, seconds: u32) -> (r: Result<(u32, WatchdogHw), i32>)
        ensures
            final(self).ready() == old(self).ready(),
            final(self).on() == old(self).on(),
            final(self).kind() == old(self).kind(),
            !old(self).ready() ==> r == Err::<(u32, WatchdogHw), i32>(ENODEV) && final(self).timeout() == old(self).timeout(),
            old(self).ready() && (seconds == 0 || seconds > 3600) ==> r == Err::<(u32, WatchdogHw), i32>(EINVAL)
                && final(self).timeout() == old(self).timeout(),
            old(self).ready() && 1 <= seconds <= 3600 ==> final(self).timeout() == seconds && r == Ok::<(u32, WatchdogHw), i32>(
                (seconds, if old(self).on() {
                    enable_step(old(self).kind(), seconds)
                } else {
                    WatchdogHw::Idle
                }),
            ),
    {
        if !self.initialized {
            return Err(ENODEV);
        }
        if seconds == 0 || seconds > 3600 {
            return Err(EINVAL);
        }
        self.timeout_secs = seconds;
        let hw = if self.enabled {
            enable_hw(self.kind, seconds)
        } else {
            WatchdogHw::Idle
        };
        Ok((seconds, hw))
    }

    /// Get watchdog info: the settable-timeout and keep-alive options and
    /// the type's name (with its terminating NUL, at most 31 bytes).
    pub fn get_info(&self) -> (r: WatchdogInfo)
        ensures
            r.options == WDIOF_SETTIMEOUT | WDIOF_KEEPALIVEPING,
            r.firmware_version == 0,
            forall|i: int| 0 <= i < 32 ==> r.identity[i] == (if i < identity_of(self.kind()).len() && i < 31 {
                identity_of(self.kind())[i]
            } else {
                0
            }),
    {
        let name: &[u8] = match self.kind {
            WatchdogType::I6300ESB => &[73, 110, 116, 101, 108, 32, 105, 54, 51, 48, 48, 69, 83, 66, 0],
            WatchdogType::IntelTCO => &[73, 110, 116, 101, 108, 32, 84, 67, 79, 32, 87, 68, 84, 0],
            WatchdogType::SuperIO => &[83, 117, 112, 101, 114, 32, 73, 47, 79, 32, 87, 68, 84, 0],
            WatchdogType::Software => &[78, 101, 120, 97, 79, 83, 32, 83, 111, 102, 116, 119, 97, 114, 101, 32, 87, 68, 84, 0],
            WatchdogType::NoWatchdog => &[78, 111, 32, 87, 97, 116, 99, 104, 100, 111, 103, 0],
        };
        assert(name@ =~= identity_of(self.kind));
        let mut identity = [0u8; 32];
        let copy_len = if name.len() < 31 {
            name.len()
        } else {
            31
        };
        let mut i: usize = 0;
        while i < copy_len
            invariant
                i <= copy_len,
                copy_len <= 31,
                copy_len <= name@.len(),
                copy_len == (if name@.len() < 31 { name@.len() } else { 31 }),
                forall|j: int| 0 <= j < i ==> identity[j] == name@[j],
                forall|j: int| i <= j < 32 ==> identity[j] == 0,
            decreases copy_len - i,
        {
            identity.set(i, name[i]);
            i = i + 1;
        }
        WatchdogInfo { options: WDIOF_SETTIMEOUT | WDIOF_KEEPALIVEPING, firmware_version: 0, identity }
    }

    /// Handle watchdog ioctl for /dev/watchdog.  `arg_ok` says whether the
    /// caller's buffer `arg` (nonzero) lies in user memory; `arg_value` is
    /// the word it holds.  `EFAULT` for a bad buffer, `ENOTTY` for an
    /// unknown request, else the result of the request (options are
    /// applied disable first, then enable).
    pub fn watchdog_ioctl(&mut self, request: u64, arg: u64, arg_ok: bool, arg_value: u32) -> (r: (Result<u64, i32>, WatchdogWrite, Vec<WatchdogHw>))
        ensures
            final(self).ready() == old(self).ready(),
            final(self).kind() == old(self).kind(),
            request == WDIOC_GETSTATUS || request == WDIOC_GETBOOTSTATUS || request == WDIOC_GETTIMEOUT
                || request == WDIOC_GETSUPPORT || request == WDIOC_SETTIMEOUT || request == WDIOC_SETOPTIONS
                ==> ((arg == 0 || !arg_ok) ==> r.0 == Err::<u64, i32>(EFAULT) && r.2@.len() == 0),
            request == WDIOC_GETTIMEOUT && arg != 0 && arg_ok ==> r.0 == Ok::<u64, i32>(0) && (r.1 matches WatchdogWrite::Word(w) && w == old(self).timeout()),
            (request == WDIOC_GETSTATUS || request == WDIOC_GETBOOTSTATUS) && arg != 0 && arg_ok ==> r.0 == Ok::<u64, i32>(0) && (r.1 matches WatchdogWrite::Word(w) && w == 0),
            request == WDIOC_SETTIMEOUT && arg != 0 && arg_ok ==> (match r.0 {
                Ok(_) => old(self).ready() && 1 <= arg_value <= 3600 && final(self).timeout() == arg_value
                    && (r.1 matches WatchdogWrite::Word(w) && w == arg_value),
                Err(e) => (e == ENODEV && !old(self).ready()) || (e == EINVAL && old(self).ready() && (arg_value == 0 || arg_value > 3600)),
            }),
            request == WDIOC_KEEPALIVE ==> (!old(self).ready() ==> r.0 == Err::<u64, i32>(ENODEV)),
            !(request == WDIOC_GETSUPPORT || request == WDIOC_GETSTATUS || request == WDIOC_GETBOOTSTATUS || request
                == WDIOC_GETTIMEOUT || request == WDIOC_SETTIMEOUT || request == WDIOC_KEEPALIVE || request
                == WDIOC_SETOPTIONS) ==> r.0 == Err::<u64, i32>(ENOTTY) && r.2@.len() == 0,
    {
        let mut steps: Vec<WatchdogHw> = Vec::new();
        let needs_buffer = request == WDIOC_GETSUPPORT || request == WDIOC_GETSTATUS || request == WDIOC_GETBOOTSTATUS
            || request == WDIOC_GETTIMEOUT || request == WDIOC_SETTIMEOUT || request == WDIOC_SETOPTIONS;
        if needs_buffer && (arg == 0 || !arg_ok) {
            return (Err(EFAULT), WatchdogWrite::Nothing, steps);
        }
        if request == WDIOC_GETSUPPORT {
            return (Ok(0), WatchdogWrite::Info(self.get_info()), steps);
        }
        if request == WDIOC_GETSTATUS || request == WDIOC_GETBOOTSTATUS {
            return (Ok(0), WatchdogWrite::Word(0), steps);
        }
        if request == WDIOC_GETTIMEOUT {
            return (Ok(0), WatchdogWrite::Word(self.timeout_secs), steps);
        }
        if request == WDIOC_SETTIMEOUT {
            return match self.set_timeout(arg_value) {
                Ok((actual, hw)) => {
                    steps.push(hw);
                    (Ok(0), WatchdogWrite::Word(actual), steps)
                },
                Err(e) => (Err(e), WatchdogWrite::Nothing, steps),
            };
        }
        if request == WDIOC_KEEPALIVE {
            return match self.feed() {
                Ok(hw) => {
                    steps.push(hw);
                    (Ok(0), WatchdogWrite::Nothing, steps)
                },
                Err(e) => (Err(e), WatchdogWrite::Nothing, steps),
            };
        }
        if request == WDIOC_SETOPTIONS {
            if arg_value & WDIOS_DISABLECARD != 0 {
                match self.disable() {
                    Ok(hw) => steps.push(hw),
                    Err(e) => return (Err(e), WatchdogWrite::Nothing, steps),
                }
            }
            if arg_value & WDIOS_ENABLECARD != 0 {
                match self.enable() {
                    Ok(hw) => steps.push(hw),
                    Err(e) => return (Err(e), WatchdogWrite::Nothing, steps),
                }
            }
            return (Ok(0), WatchdogWrite::Nothing, steps);
        }
        (Err(ENOTTY), WatchdogWrite::Nothing, steps)
    }
}

/// The identity string of a watchdog type, with its terminating NUL.
pub open spec fn identity_of(kind: WatchdogType) -> Seq<u8> {
    match kind {
        WatchdogType::I6300ESB => seq![73u8, 110, 116, 101, 108, 32, 105, 54, 51, 48, 48, 69, 83, 66, 0],
        WatchdogType::IntelTCO => seq![73u8, 110, 116, 101, 108, 32, 84, 67, 79, 32, 87, 68, 84, 0],
        WatchdogType::SuperIO => seq![83u8, 117, 112, 101, 114, 32, 73, 47, 79, 32, 87, 68, 84, 0],
        WatchdogType::Software => seq![78u8, 101, 120, 97, 79, 83, 32, 83, 111, 102, 116, 119, 97, 114, 101, 32, 87, 68, 84, 0],
        WatchdogType::NoWatchdog => seq![78u8, 111, 32, 87, 97, 116, 99, 104, 100, 111, 103, 0],
    }
}

} // verus!
