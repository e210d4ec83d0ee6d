//! Boot information handed over by the UEFI loader
//!
//! The loader's handoff block is read by the kernel; this module holds the
//! checks and lookups made on what it holds, as plain values.

use vstd::prelude::*;
use vstd::slice::slice_subrange;
use vstd::utf8::{valid_utf8, decode_utf8, encode_utf8};
use crate::text::str_from_utf8;

verus! {

/// Why a handoff block is refused.
#[derive(Debug, Clone, Copy, PartialEq, Eq, Structural)]
pub enum BootInfoError {
    InvalidSignature,
    UnsupportedVersion(u16),
}

/// Size of the storage kept for the command line.
pub const CMDLINE_STORAGE_SIZE: usize = 512;

/// Check the header of a handoff block before it is registered: its
/// signature first, then its version against the supported one.
pub fn set(signature_valid: bool, version: u16, supported_version: u16) -> (r: Result<(), BootInfoError>)
    ensures
        !signature_valid ==> r == Err::<(), BootInfoError>(BootInfoError::InvalidSignature),
        signature_valid && version != supported_version ==> r == Err::<(), BootInfoError>(
            BootInfoError::UnsupportedVersion(version),
        ),
        signature_valid && version == supported_version ==> r is Ok,
{
    if !signature_valid {
        return Err(BootInfoError::InvalidSignature);
    }
    if version != supported_version {
        return Err(BootInfoError::UnsupportedVersion(version));
    }
    Ok(())
}

/// Length of `s` without its trailing NUL bytes.
pub open spec fn trimmed_len(s: Seq<u8>) -> nat
    decreases s.len(),
{
    if s.len() > 0 && s.last() == 0 {
        trimmed_len(s.drop_last())
    } else {
        s.len()
    }
}

/// The command line in the loader's region: the bytes before any
/// trailing NULs, if there are some and they are UTF-8.
pub fn cmdline_str(region: &[u8]) -> (r: Option<&str>)
    ensures
        match r {
            Some(s) => trimmed_len(region@) > 0 && valid_utf8(region@.take(trimmed_len(region@) as int))
                && s@ == decode_utf8(region@.take(trimmed_len(region@) as int)),
            None => trimmed_len(region@) == 0 || !valid_utf8(region@.take(trimmed_len(region@) as int)),
        },
{
    let mut end = region.len();
    assert(region@.take(end as int) =~= region@);
    while end > 0 && region[end - 1] == 0
        invariant
            end <= region@.len(),
            trimmed_len(region@.take(end as int)) == trimmed_len(region@),
        decreases end,
    {
        assert(region@.take(end as int).drop_last() =~= region@.take(end - 1));
        end = end - 1;
    }
    assert(trimmed_len(region@.take(end as int)) == end);
    if end == 0 {
        return None;
    }
    let bytes = slice_subrange(region, 0, end);
    assert(bytes@ =~= region@.take(end as int));
    str_from_utf8(bytes)
}

/// Storage for the command line, kept for the kernel's lifetime.
pub struct CmdlineStorage {
    used: usize,
}

impl CmdlineStorage {
    /// Bytes of the storage in use.
    pub closed spec fn used(&self) -> nat {
        self.used as nat
    }

    pub closed spec fn wf(&self) -> bool {
        self.used <= CMDLINE_STORAGE_SIZE
    }

    /// Empty storage.
    pub fn new() -> (r: Self)
        ensures
            r.wf(),
            r.used() == 0,
    {
        CmdlineStorage { used: 0 }
    }

    /// Keep a copy of the command line: the copy where its bytes fit in
    /// the space left, else the empty string.
    pub fn stash_cmdline(&mut self, cmdline: &str) -> (r: String)
        requires
            old(self).wf(),
        ensures
            final(self).wf(),
            old(self).used() + encode_utf8(cmdline@).len() <= CMDLINE_STORAGE_SIZE ==> r@ == cmdline@
                && final(self).used() == old(self).used() + encode_utf8(cmdline@).len(),
            old(self).used() + encode_utf8(cmdline@).len() > CMDLINE_STORAGE_SIZE ==> r@
                == Seq::<char>::empty() && final(self).used() == old(self).used(),
    {
        let n = cmdline.as_bytes().len();
        if n <= CMDLINE_STORAGE_SIZE - self.used {
            self.used = self.used + n;
            return cmdline.to_owned();
        }
        String::new()
    }
}

/// A base address register of a PCI device.
#[derive(Clone, Copy, Debug, PartialEq, Eq, Structural)]
pub struct PciBarInfo {
    pub base: u64,
    pub length: u64,
    pub bar_flags: u32,
    /// The register maps I/O ports rather than memory.
    pub io_space: bool,
}

/// A PCI device the firmware found.
#[derive(Clone, Debug)]
pub struct PciDeviceInfo {
    pub segment: u16,
    pub bus: u8,
    pub device: u8,
    pub function: u8,
    pub interrupt_line: u8,
    pub interrupt_pin: u8,
    pub bars: Vec<PciBarInfo>,
}

/// The device sits at the given PCI location.
pub open spec fn at_location(d: PciDeviceInfo, segment: u16, bus: u8, device: u8, function: u8) -> bool {
    d.segment == segment && d.bus == bus && d.device == device && d.function == function
}

/// Index of the first of the first `n` devices at the location.
pub open spec fn first_at(devs: Seq<PciDeviceInfo>, n: int, segment: u16, bus: u8, device: u8, function: u8) -> Option<int>
    decreases n,
{
    if n <= 0 {
        None
    } else {
        match first_at(devs, n - 1, segment, bus, device, function) {
            Some(k) => Some(k),
            None => if at_location(devs[n - 1], segment, bus, device, function) {
                Some(n - 1)
            } else {
                None
            },
        }
    }
}

/// A device found among the first `n` stays the first found.
proof fn lemma_first_at_stable(devs: Seq<PciDeviceInfo>, n: int, m: int, segment: u16, bus: u8, device: u8, function: u8)
    requires
        0 <= n <= m,
        first_at(devs, n, segment, bus, device, function) is Some,
    ensures
        first_at(devs, m, segment, bus, device, function) == first_at(devs, n, segment, bus, device, function),
    decreases m - n,
{
    if m > n {
        lemma_first_at_stable(devs, n, m - 1, segment, bus, device, function);
    }
}

/// The first PCI device at a location, by index in `devs`.
pub fn pci_device_by_location(devs: &[PciDeviceInfo], segment: u16, bus: u8, device: u8, function: u8) -> (r: Option<usize>)
    ensures
        r matches Some(k) ==> first_at(devs@, devs@.len() as int, segment, bus, device, function) == Some(k as int) && k < devs@.len(),
        r is None ==> first_at(devs@, devs@.len() as int, segment, bus, device, function) is None,
{
    let mut i: usize = 0;
    while i < devs.len()
        invariant
            i <= devs@.len(),
            first_at(devs@, i as int, segment, bus, device, function) is None,
        decreases devs@.len() - i,
    {
        let d = &devs[i];
        if d.segment == segment && d.bus == bus && d.device == device && d.function == function {
            proof {
                lemma_first_at_stable(devs@, i + 1, devs@.len() as int, segment, bus, device, function);
            }
            return Some(i);
        }
        i = i + 1;
    }
    None
}

} // verus!
