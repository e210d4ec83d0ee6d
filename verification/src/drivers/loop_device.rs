//! Loop Device Driver
//!
//! Loop devices (/dev/loop*) let regular files be mounted as block
//! devices.  This module keeps the table of loop devices and decides every
//! request on it: attaching and detaching backing files, status and
//! parameters, the byte ranges of sector reads and writes, and the ioctl
//! commands of /dev/loop-control and /dev/loopN.  The kernel performs the
//! file reads and writes themselves.

use vstd::prelude::*;
use vstd::utf8::encode_utf8;
use crate::posix::errno::{EBADF, EBUSY, EFAULT, EINVAL, ENODEV, ENOSPC, ENOTTY, ENXIO, EROFS};

verus! {

/// Maximum number of loop devices
pub const MAX_LOOP_DEVICES: usize = 8;

/// Loop device ioctl commands (Linux compatible values)
pub const LOOP_SET_FD: u64 = 0x4C00;
pub const LOOP_CLR_FD: u64 = 0x4C01;
pub const LOOP_SET_STATUS: u64 = 0x4C02;
pub const LOOP_GET_STATUS: u64 = 0x4C03;
pub const LOOP_SET_STATUS64: u64 = 0x4C04;
pub const LOOP_GET_STATUS64: u64 = 0x4C05;
pub const LOOP_CHANGE_FD: u64 = 0x4C06;
pub const LOOP_SET_CAPACITY: u64 = 0x4C07;
pub const LOOP_SET_DIRECT_IO: u64 = 0x4C08;
pub const LOOP_SET_BLOCK_SIZE: u64 = 0x4C09;
pub const LOOP_CTL_ADD: u64 = 0x4C80;
pub const LOOP_CTL_REMOVE: u64 = 0x4C81;
pub const LOOP_CTL_GET_FREE: u64 = 0x4C82;

/// Flag bit: device is read-only.
pub const LO_FLAGS_READ_ONLY: u32 = 1;

/// Flag bit: direct I/O mode.
pub const LO_FLAGS_DIRECT_IO: u32 = 16;

/// Loop device flags
#[derive(Debug, Clone, Copy, PartialEq, Eq, Structural)]
pub enum LoopFlags {
    /// Device is read-only
    ReadOnly,
    /// Automatically clear on last close
    Autoclear,
    /// Partition scan
    PartScan,
    /// Direct I/O mode
    DirectIO,
}

impl LoopFlags {
    /// The flag's bit in `lo_flags`.
    pub fn bits(self) -> (r: u32)
        ensures
            r == match self {
                LoopFlags::ReadOnly => 1u32,
                LoopFlags::Autoclear => 4u32,
                LoopFlags::PartScan => 8u32,
                LoopFlags::DirectIO => 16u32,
            },
    {
        match self {
            LoopFlags::ReadOnly => 1,
            LoopFlags::Autoclear => 4,
            LoopFlags::PartScan => 8,
            LoopFlags::DirectIO => 16,
        }
    }
}

/// Loop device status (64-bit version, compatible with Linux struct loop_info64)
#[derive(Debug, Clone, Copy)]
pub struct LoopInfo64 {
    /// Loop device number
    pub lo_device: u64,
    /// inode of backing file
    pub lo_inode: u64,
    /// rdev of loop device
    pub lo_rdev: u64,
    /// Offset into backing file
    pub lo_offset: u64,
    /// Size limit (0 = no limit)
    pub lo_sizelimit: u64,
    /// Loop device number (ino of /dev/loopN)
    pub lo_number: u32,
    /// Encryption type (deprecated)
    pub lo_encrypt_type: u32,
    /// Encryption key size (deprecated)
    pub lo_encrypt_key_size: u32,
    /// Loop device flags
    pub lo_flags: u32,
    /// Name of backing file
    pub lo_file_name: [u8; 64],
    /// Crypt name (deprecated)
    pub lo_crypt_name: [u8; 64],
    /// Encryption key (deprecated)
    pub lo_encrypt_key: [u8; 32],
    /// Initial vector offset (deprecated)
    pub lo_init: [u64; 2],
}

impl LoopInfo64 {
    /// All fields zero.
    pub fn zeroed() -> (r: Self)
        ensures
            r.lo_device == 0 && r.lo_inode == 0 && r.lo_rdev == 0,
            r.lo_offset == 0 && r.lo_sizelimit == 0,
            r.lo_number == 0 && r.lo_encrypt_type == 0 && r.lo_encrypt_key_size == 0,
            r.lo_flags == 0,
            forall|i: int| 0 <= i < 64 ==> r.lo_file_name@[i] == 0 && r.lo_crypt_name@[i] == 0,
            forall|i: int| 0 <= i < 32 ==> r.lo_encrypt_key@[i] == 0,
            r.lo_init@ == seq![0u64, 0u64],
    {
        let r = Self {
            lo_device: 0,
            lo_inode: 0,
            lo_rdev: 0,
            lo_offset: 0,
            lo_sizelimit: 0,
            lo_number: 0,
            lo_encrypt_type: 0,
            lo_encrypt_key_size: 0,
            lo_flags: 0,
            lo_file_name: [0u8; 64],
            lo_crypt_name: [0u8; 64],
            lo_encrypt_key: [0u8; 32],
            lo_init: [0u64; 2],
        };
        assert(r.lo_init@ =~= seq![0u64, 0u64]);
        r
    }
}

/// Loop device state
#[derive(Debug, Clone, Copy, PartialEq, Eq, Structural)]
pub enum LoopState {
    /// Device is not attached to any file
    Free,
    /// Device is attached to a file and ready
    Attached,
}

/// A loop device instance
pub struct LoopDevice {
    /// Device index (0-7 for loop0-loop7)
    pub index: usize,
    /// Current state
    pub state: LoopState,
    /// Backing file descriptor (if attached)
    pub backing_fd: Option<u64>,
    /// Backing file path (if attached)
    pub backing_path: Option<String>,
    /// Offset into backing file
    pub offset: u64,
    /// Size limit (0 = no limit)
    pub sizelimit: u64,
    /// Block size (default 512)
    pub block_size: u32,
    /// Flags
    pub flags: u32,
    /// Total size of the backing file in bytes
    pub total_size: u64,
}

/// The bytes a device may address: the size limit if one is set, else the
/// backing file past the offset.
pub open spec fn effective_size_of(d: LoopDevice) -> u64 {
    if d.sizelimit > 0 {
        d.sizelimit
    } else if d.total_size > d.offset {
        (d.total_size - d.offset) as u64
    } else {
        0
    }
}

/// Whole blocks in the effective size.
pub open spec fn total_sectors_of(d: LoopDevice) -> u64 {
    effective_size_of(d) / d.block_size as u64
}

/// The device after `clear`: free, with its parameters reset and its
/// index and block size kept.
pub open spec fn cleared(d: LoopDevice) -> LoopDevice {
    LoopDevice {
        state: LoopState::Free,
        backing_fd: None,
        backing_path: None,
        offset: 0,
        sizelimit: 0,
        total_size: 0,
        flags: 0,
        ..d
    }
}

impl LoopDevice {
    /// A free device with default parameters.
    pub fn new(index: usize) -> (r: Self)
        ensures
            r.index == index,
            r.state == LoopState::Free,
            r.backing_fd is None && r.backing_path is None,
            r.offset == 0 && r.sizelimit == 0 && r.total_size == 0,
            r.block_size == 512,
            r.flags == 0,
    {
        Self {
            index,
            state: LoopState::Free,
            backing_fd: None,
            backing_path: None,
            offset: 0,
            sizelimit: 0,
            block_size: 512,
            flags: 0,
            total_size: 0,
        }
    }

    /// Check if this device is free
    pub fn is_free(&self) -> (r: bool)
        ensures
            r == (self.state == LoopState::Free),
    {
        self.state == LoopState::Free
    }

    /// Check if this device is attached
    pub fn is_attached(&self) -> (r: bool)
        ensures
            r == (self.state == LoopState::Attached),
    {
        self.state == LoopState::Attached
    }

    /// Check if this device is read-only
    pub fn is_readonly(&self) -> (r: bool)
        ensures
            r == (self.flags & LO_FLAGS_READ_ONLY != 0),
    {
        self.flags & LoopFlags::ReadOnly.bits() != 0
    }

    /// Get the effective size (sizelimit or total_size - offset)
    pub fn effective_size(&self) -> (r: u64)
        ensures
            r == effective_size_of(*self),
    {
        if self.sizelimit > 0 {
            self.sizelimit
        } else if self.total_size > self.offset {
            self.total_size - self.offset
        } else {
            0
        }
    }

    /// Get total sectors
    pub fn total_sectors(&self) -> (r: u64)
        requires
            self.block_size > 0,
        ensures
            r == total_sectors_of(*self),
    {
        self.effective_size() / self.block_size as u64
    }

    /// Convert a loop device sector to a byte offset in the backing file
    pub fn sector_to_offset(&self, sector: u64) -> (r: u64)
        requires
            self.offset + sector * self.block_size <= u64::MAX,
        ensures
            r == self.offset + sector * self.block_size,
    {
        proof {
            assert(0 <= sector * self.block_size) by (nonlinear_arith);
        }
        self.offset + sector * self.block_size as u64
    }

    /// Get device info as LoopInfo64
    ///
    /// The backing file's name is copied up to 63 bytes, so that the field
    /// stays nul-terminated.
    pub fn get_info64(&self) -> (r: LoopInfo64)
        ensures
            r.lo_number == self.index as u32,
            r.lo_offset == self.offset,
            r.lo_sizelimit == self.sizelimit,
            r.lo_flags == self.flags,
            r.lo_device == 0 && r.lo_inode == 0 && r.lo_rdev == 0,
            r.lo_encrypt_type == 0 && r.lo_encrypt_key_size == 0,
            forall|i: int| 0 <= i < 64 ==> r.lo_crypt_name@[i] == 0,
            forall|i: int| 0 <= i < 32 ==> r.lo_encrypt_key@[i] == 0,
            r.lo_init@ == seq![0u64, 0u64],
            forall|i: int|
                0 <= i < 64 ==> #[trigger] r.lo_file_name@[i] == match self.backing_path {
                    Some(p) => if i < 63 && i < encode_utf8(p@).len() {
                        encode_utf8(p@)[i]
                    } else {
                        0u8
                    },
                    None => 0u8,
                },
    {
        let mut info = LoopInfo64::zeroed();
        info.lo_number = self.index as u32;
        info.lo_offset = self.offset;
        info.lo_sizelimit = self.sizelimit;
        info.lo_flags = self.flags;
        match &self.backing_path {
            Some(path) => {
                let bytes = path.as_str().as_bytes();
                let copy_len = if bytes.len() < 63 {
                    bytes.len()
                } else {
                    63
                };
                let mut i: usize = 0;
                while i < copy_len
                    invariant
                        i <= copy_len <= 63,
                        copy_len <= bytes@.len(),
                        bytes@ == encode_utf8(path@),
                        info.lo_number == self.index as u32,
                        info.lo_offset == self.offset,
                        info.lo_sizelimit == self.sizelimit,
                        info.lo_flags == self.flags,
                        info.lo_device == 0 && info.lo_inode == 0 && info.lo_rdev == 0,
                        info.lo_encrypt_type == 0 && info.lo_encrypt_key_size == 0,
                        forall|k: int| 0 <= k < 64 ==> info.lo_crypt_name@[k] == 0,
                        forall|k: int| 0 <= k < 32 ==> info.lo_encrypt_key@[k] == 0,
                        info.lo_init@ == seq![0u64, 0u64],
                        forall|k: int|
                            0 <= k < 64 ==> #[trigger] info.lo_file_name@[k] == if k < i {
                                bytes@[k]
                            } else {
                                0u8
                            },
                    decreases copy_len - i,
                {
                    info.lo_file_name[i] = bytes[i];
                    i = i + 1;
                }
            },
            None => {},
        }
        info
    }

    /// Clear/detach the device
    pub fn clear(&mut self)
        ensures
            *final(self) == cleared(*old(self)),
    {
        self.state = LoopState::Free;
        self.backing_fd = None;
        self.backing_path = None;
        self.offset = 0;
        self.sizelimit = 0;
        self.total_size = 0;
        self.flags = 0;
    }
}


/// The device with another offset.
pub open spec fn with_offset(d: LoopDevice, offset: u64) -> LoopDevice {
    LoopDevice { offset: offset, ..d }
}

/// The device with another size limit.
pub open spec fn with_sizelimit(d: LoopDevice, sizelimit: u64) -> LoopDevice {
    LoopDevice { sizelimit: sizelimit, ..d }
}

/// The device with another block size.
pub open spec fn with_block_size(d: LoopDevice, block_size: u32) -> LoopDevice {
    LoopDevice { block_size: block_size, ..d }
}

/// The device with another backing file size.
pub open spec fn with_total_size(d: LoopDevice, total_size: u64) -> LoopDevice {
    LoopDevice { total_size: total_size, ..d }
}

/// The device with the offset, size limit and flags of a status.
pub open spec fn with_status(d: LoopDevice, info: LoopInfo64) -> LoopDevice {
    LoopDevice { offset: info.lo_offset, sizelimit: info.lo_sizelimit, flags: info.lo_flags, ..d }
}

/// The first free device among the first `n`, if any.
pub open spec fn first_free(devs: Seq<LoopDevice>, n: int) -> Option<int>
    decreases n,
{
    if n <= 0 {
        None
    } else {
        match first_free(devs, n - 1) {
            Some(i) => Some(i),
            None => if devs[n - 1].state == LoopState::Free {
                Some(n - 1)
            } else {
                None
            },
        }
    }
}

/// Block sizes a device accepts: powers of two from 512 to 4096.
pub open spec fn valid_block_size(b: u32) -> bool {
    b == 512 || b == 1024 || b == 2048 || b == 4096
}

/// The devices other than `index` are unchanged.
pub open spec fn others_same(o: Seq<LoopDevice>, n: Seq<LoopDevice>, index: int) -> bool {
    &&& n.len() == o.len()
    &&& forall|j: int| 0 <= j < o.len() && j != index ==> #[trigger] n[j] == o[j]
}

/// The common outcome of a request on device `index`: `ENODEV` past the
/// table, `ENXIO` on a free device; `None` when the request goes on.
pub open spec fn attached_check(devs: Seq<LoopDevice>, index: usize) -> Option<i32> {
    if index >= MAX_LOOP_DEVICES {
        Some(ENODEV)
    } else if devs[index as int].state == LoopState::Free {
        Some(ENXIO)
    } else {
        None
    }
}

/// What `attach(index, fd, path, file_size, readonly)` does.
pub open spec fn attach_post(
    o: Seq<LoopDevice>,
    n: Seq<LoopDevice>,
    index: usize,
    fd: u64,
    path: Seq<char>,
    file_size: u64,
    readonly: bool,
    r: Result<(), i32>,
) -> bool {
    if index >= MAX_LOOP_DEVICES {
        r == Err::<(), i32>(ENODEV) && n == o
    } else if o[index as int].state == LoopState::Attached {
        r == Err::<(), i32>(EBUSY) && n == o
    } else {
        let d = o[index as int];
        let e = n[index as int];
        &&& r is Ok
        &&& others_same(o, n, index as int)
        &&& e.index == d.index
        &&& e.state == LoopState::Attached
        &&& e.backing_fd == Some(fd)
        &&& e.backing_path matches Some(p) && p@ == path
        &&& e.total_size == file_size
        &&& e.offset == 0 && e.sizelimit == 0 && e.block_size == 512
        &&& e.flags == if readonly {
            d.flags | LO_FLAGS_READ_ONLY
        } else {
            d.flags
        }
    }
}

/// What `detach(index)` does.
pub open spec fn detach_post(o: Seq<LoopDevice>, n: Seq<LoopDevice>, index: usize, r: Result<(), i32>) -> bool {
    match attached_check(o, index) {
        Some(e) => r == Err::<(), i32>(e) && n == o,
        None => r is Ok && n == o.update(index as int, cleared(o[index as int])),
    }
}

/// What a setter of device `index` does, given the error it may add
/// after the common checks and the device it makes.
pub open spec fn set_post(
    o: Seq<LoopDevice>,
    n: Seq<LoopDevice>,
    index: usize,
    err: Option<i32>,
    d: LoopDevice,
    r: Result<(), i32>,
) -> bool {
    match attached_check(o, index) {
        Some(e) => r == Err::<(), i32>(e) && n == o,
        None => match err {
            Some(e) => r == Err::<(), i32>(e) && n == o,
            None => r is Ok && n == o.update(index as int, d),
        },
    }
}

/// A sector transfer to perform on a backing file: its descriptor, the
/// byte offset in it, and the byte count.
#[derive(Debug, Clone, Copy, PartialEq, Eq, Structural)]
pub struct SectorIo {
    pub fd: u64,
    pub offset: u64,
    pub len: usize,
}

/// The byte count of a transfer of up to `count` sectors from `sector`
/// on a device with `total` sectors.
pub open spec fn transfer_bytes(d: LoopDevice, sector: u64, count: u32) -> int {
    let avail = total_sectors_of(d) - sector;
    let n = if (count as int) < avail {
        count as int
    } else {
        avail
    };
    n * d.block_size
}

/// The transfer that reads `count` sectors from `sector` into a buffer of
/// `buf_len` bytes: `None` at or past the end of the device.
pub open spec fn read_plan(devs: Seq<LoopDevice>, index: usize, sector: u64, count: u32, buf_len: usize) -> Result<Option<SectorIo>, i32> {
    match attached_check(devs, index) {
        Some(e) => Err(e),
        None => {
            let d = devs[index as int];
            match d.backing_fd {
                None => Err(ENXIO),
                Some(fd) => if sector >= total_sectors_of(d) {
                    Ok(None)
                } else if (buf_len as int) < transfer_bytes(d, sector, count) {
                    Err(EINVAL)
                } else {
                    Ok(
                        Some(
                            SectorIo {
                                fd,
                                offset: (d.offset + sector * d.block_size) as u64,
                                len: transfer_bytes(d, sector, count) as usize,
                            },
                        ),
                    )
                },
            }
        },
    }
}

/// The transfer that writes `count` sectors from `sector`; writing at or
/// past the end of the device is `ENOSPC`.
pub open spec fn write_plan(devs: Seq<LoopDevice>, index: usize, sector: u64, count: u32, buf_len: usize) -> Result<SectorIo, i32> {
    match attached_check(devs, index) {
        Some(e) => Err(e),
        None => {
            let d = devs[index as int];
            if d.flags & LO_FLAGS_READ_ONLY != 0 {
                Err(EROFS)
            } else {
                match d.backing_fd {
                    None => Err(ENXIO),
                    Some(fd) => if sector >= total_sectors_of(d) {
                        Err(ENOSPC)
                    } else if (buf_len as int) < transfer_bytes(d, sector, count) {
                        Err(EINVAL)
                    } else {
                        Ok(
                            SectorIo {
                                fd,
                                offset: (d.offset + sector * d.block_size) as u64,
                                len: transfer_bytes(d, sector, count) as usize,
                            },
                        )
                    },
                }
            }
        },
    }
}

/// The sector's byte offset fits in 64 bits on an attached device.
pub open spec fn offset_fits(devs: Seq<LoopDevice>, index: usize, sector: u64) -> bool {
    index < MAX_LOOP_DEVICES && devs[index as int].state == LoopState::Attached ==> devs[index
        as int].offset + sector * devs[index as int].block_size <= u64::MAX
}

/// Global loop device table
pub struct LoopTable {
    devices: Vec<LoopDevice>,
}

impl LoopTable {
    /// The devices, by index.
    pub closed spec fn devs(&self) -> Seq<LoopDevice> {
        self.devices@
    }

    /// One device per index, each with a block size.
    pub closed spec fn wf(&self) -> bool {
        &&& self.devices@.len() == MAX_LOOP_DEVICES
        &&& forall|i: int|
            0 <= i < MAX_LOOP_DEVICES ==> (#[trigger] self.devices@[i]).index == i
                && self.devices@[i].block_size > 0
    }

    /// The table of free devices loop0 to loop7.
    pub fn new() -> (r: Self)
        ensures
            r.wf(),
            forall|i: int|
                0 <= i < MAX_LOOP_DEVICES ==> (#[trigger] r.devs()[i]).state == LoopState::Free
                    && r.devs()[i].flags == 0 && r.devs()[i].block_size == 512
                    && r.devs()[i].backing_fd is None,
    {
        let mut devices: Vec<LoopDevice> = Vec::new();
        let mut i: usize = 0;
        while i < MAX_LOOP_DEVICES
            invariant
                i <= MAX_LOOP_DEVICES,
                devices@.len() == i,
                forall|j: int|
                    0 <= j < i ==> (#[trigger] devices@[j]).index == j && devices@[j].block_size
                        == 512 && devices@[j].state == LoopState::Free && devices@[j].flags == 0
                        && devices@[j].backing_fd is None,
            decreases MAX_LOOP_DEVICES - i,
        {
            devices.push(LoopDevice::new(i));
            i = i + 1;
        }
        LoopTable { devices }
    }
}

/// Get a free loop device index
pub fn get_free(table: &LoopTable) -> (r: Option<usize>)
    requires
        table.wf(),
    ensures
        r == match first_free(table.devs(), MAX_LOOP_DEVICES as int) {
            Some(i) => Some(i as usize),
            None => None::<usize>,
        },
{
    let mut i: usize = 0;
    while i < MAX_LOOP_DEVICES
        invariant
            i <= MAX_LOOP_DEVICES,
            table.wf(),
            first_free(table.devs(), i as int) is None,
        decreases MAX_LOOP_DEVICES - i,
    {
        if table.devices[i].is_free() {
            proof {
                lemma_first_free_stable(table.devs(), i as int + 1, MAX_LOOP_DEVICES as int);
            }
            return Some(i);
        }
        i = i + 1;
    }
    None
}

proof fn lemma_first_free_range(devs: Seq<LoopDevice>, n: int)
    ensures
        first_free(devs, n) matches Some(i) ==> 0 <= i < n && devs[i].state == LoopState::Free,
    decreases n,
{
    if n > 0 {
        lemma_first_free_range(devs, n - 1);
    }
}

proof fn lemma_first_free_stable(devs: Seq<LoopDevice>, n: int, m: int)
    requires
        n <= m,
        first_free(devs, n) is Some,
    ensures
        first_free(devs, m) == first_free(devs, n),
    decreases m - n,
{
    if n < m {
        lemma_first_free_stable(devs, n, m - 1);
    }
}

/// Check if a loop device exists
pub fn device_exists(index: usize) -> (r: bool)
    ensures
        r == (index < MAX_LOOP_DEVICES),
{
    index < MAX_LOOP_DEVICES
}

/// Check if a loop device is attached
pub fn is_attached(table: &LoopTable, index: usize) -> (r: bool)
    requires
        table.wf(),
    ensures
        r == (index < MAX_LOOP_DEVICES && table.devs()[index as int].state == LoopState::Attached),
{
    if index >= MAX_LOOP_DEVICES {
        return false;
    }
    table.devices[index].is_attached()
}

/// Attach a file to a loop device
///
/// `path` names the backing file for display; `file_size` is its size in
/// bytes.  Fails with `ENODEV` past the table and `EBUSY` on an attached
/// device.
pub fn attach(table: &mut LoopTable, index: usize, fd: u64, path: &str, file_size: u64, readonly: bool) -> (r: Result<(), i32>)
    requires
        old(table).wf(),
    ensures
        final(table).wf(),
        attach_post(old(table).devs(), final(table).devs(), index, fd, path@, file_size, readonly, r),
{
    if index >= MAX_LOOP_DEVICES {
        return Err(ENODEV);
    }
    if table.devices[index].is_attached() {
        return Err(EBUSY);
    }
    let ghost before = table.devices@;
    let flags = if readonly {
        table.devices[index].flags | LoopFlags::ReadOnly.bits()
    } else {
        table.devices[index].flags
    };
    let dev = LoopDevice {
        index: table.devices[index].index,
        state: LoopState::Attached,
        backing_fd: Some(fd),
        backing_path: Some(path.to_owned()),
        offset: 0,
        sizelimit: 0,
        block_size: 512,
        flags,
        total_size: file_size,
    };
    table.devices.set(index, dev);
    Ok(())
}

/// Detach a file from a loop device
pub fn detach(table: &mut LoopTable, index: usize) -> (r: Result<(), i32>)
    requires
        old(table).wf(),
    ensures
        final(table).wf(),
        detach_post(old(table).devs(), final(table).devs(), index, r),
{
    if index >= MAX_LOOP_DEVICES {
        return Err(ENODEV);
    }
    if table.devices[index].is_free() {
        return Err(ENXIO);
    }
    table.devices[index].clear();
    Ok(())
}

/// Set loop device offset; it must lie inside the backing file.
pub fn set_offset(table: &mut LoopTable, index: usize, offset: u64) -> (r: Result<(), i32>)
    requires
        old(table).wf(),
    ensures
        final(table).wf(),
        set_post(
            old(table).devs(),
            final(table).devs(),
            index,
            if offset >= old(table).devs()[index as int].total_size {
                Some(EINVAL)
            } else {
                None
            },
            with_offset(old(table).devs()[index as int], offset),
            r,
        ),
{
    if index >= MAX_LOOP_DEVICES {
        return Err(ENODEV);
    }
    if table.devices[index].is_free() {
        return Err(ENXIO);
    }
    if offset >= table.devices[index].total_size {
        return Err(EINVAL);
    }
    table.devices[index].offset = offset;
    Ok(())
}

/// Set loop device size limit
pub fn set_sizelimit(table: &mut LoopTable, index: usize, sizelimit: u64) -> (r: Result<(), i32>)
    requires
        old(table).wf(),
    ensures
        final(table).wf(),
        set_post(
            old(table).devs(),
            final(table).devs(),
            index,
            None,
            with_sizelimit(old(table).devs()[index as int], sizelimit),
            r,
        ),
{
    if index >= MAX_LOOP_DEVICES {
        return Err(ENODEV);
    }
    if table.devices[index].is_free() {
        return Err(ENXIO);
    }
    table.devices[index].sizelimit = sizelimit;
    Ok(())
}

/// A power of two, tested on its bits.
fn is_power_of_two(x: u32) -> (r: bool)
    ensures
        512 <= x <= 4096 ==> (r <==> valid_block_size(x)),
{
    assert(512 <= x <= 4096 ==> ((x != 0 && x & ((x - 1) as u32) == 0) <==> (x == 512 || x == 1024 || x
        == 2048 || x == 4096))) by (bit_vector);
    x != 0 && x & (x - 1) == 0
}

/// Set loop device block size (a power of two from 512 to 4096)
///
/// The block size is checked before the device: an invalid size is
/// `EINVAL` even on a free device.
pub fn set_block_size(table: &mut LoopTable, index: usize, block_size: u32) -> (r: Result<(), i32>)
    requires
        old(table).wf(),
    ensures
        final(table).wf(),
        index < MAX_LOOP_DEVICES && !valid_block_size(block_size) ==> r == Err::<(), i32>(EINVAL)
            && final(table).devs() == old(table).devs(),
        index >= MAX_LOOP_DEVICES || valid_block_size(block_size) ==> set_post(
            old(table).devs(),
            final(table).devs(),
            index,
            None,
            with_block_size(old(table).devs()[index as int], block_size),
            r,
        ),
{
    if index >= MAX_LOOP_DEVICES {
        return Err(ENODEV);
    }
    if block_size < 512 || block_size > 4096 || !is_power_of_two(block_size) {
        return Err(EINVAL);
    }
    if table.devices[index].is_free() {
        return Err(ENXIO);
    }
    table.devices[index].block_size = block_size;
    Ok(())
}

/// Get loop device status (64-bit)
pub fn get_status64(table: &LoopTable, index: usize) -> (r: Result<LoopInfo64, i32>)
    requires
        table.wf(),
    ensures
        match attached_check(table.devs(), index) {
            Some(e) => r == Err::<LoopInfo64, i32>(e),
            None => r matches Ok(info) && info.lo_number == index as u32 && info.lo_offset
                == table.devs()[index as int].offset && info.lo_sizelimit
                == table.devs()[index as int].sizelimit && info.lo_flags
                == table.devs()[index as int].flags,
        },
{
    if index >= MAX_LOOP_DEVICES {
        return Err(ENODEV);
    }
    if table.devices[index].is_free() {
        return Err(ENXIO);
    }
    Ok(table.devices[index].get_info64())
}

/// Set loop device status (64-bit): offset, size limit and flags.
pub fn set_status64(table: &mut LoopTable, index: usize, info: &LoopInfo64) -> (r: Result<(), i32>)
    requires
        old(table).wf(),
    ensures
        final(table).wf(),
        set_post(
            old(table).devs(),
            final(table).devs(),
            index,
            None,
            with_status(old(table).devs()[index as int], *info),
            r,
        ),
{
    if index >= MAX_LOOP_DEVICES {
        return Err(ENODEV);
    }
    if table.devices[index].is_free() {
        return Err(ENXIO);
    }
    table.devices[index].offset = info.lo_offset;
    table.devices[index].sizelimit = info.lo_sizelimit;
    table.devices[index].flags = info.lo_flags;
    assert(table.devs() =~= old(table).devs().update(
        index as int,
        with_status(old(table).devs()[index as int], *info),
    ));
    Ok(())
}

/// Get backing file descriptor for a loop device
pub fn get_backing_fd(table: &LoopTable, index: usize) -> (r: Option<u64>)
    requires
        table.wf(),
    ensures
        r == if index < MAX_LOOP_DEVICES {
            table.devs()[index as int].backing_fd
        } else {
            None
        },
{
    if index >= MAX_LOOP_DEVICES {
        return None;
    }
    table.devices[index].backing_fd
}

/// Get device info for block layer: sectors, block size, read-only.
pub fn get_device_info(table: &LoopTable, index: usize) -> (r: Option<(u64, u32, bool)>)
    requires
        table.wf(),
    ensures
        r == match attached_check(table.devs(), index) {
            Some(_) => None,
            None => {
                let d = table.devs()[index as int];
                Some((total_sectors_of(d), d.block_size, d.flags & LO_FLAGS_READ_ONLY != 0))
            },
        },
{
    if index >= MAX_LOOP_DEVICES {
        return None;
    }
    if table.devices[index].is_free() {
        return None;
    }
    let dev = &table.devices[index];
    Some((dev.total_sectors(), dev.block_size, dev.is_readonly()))
}

/// The bytes of a transfer, checked against the buffer.
fn transfer_len(dev: &LoopDevice, sector: u64, count: u32, total_sectors: u64, buf_len: usize) -> (r: Option<usize>)
    requires
        sector < total_sectors,
        total_sectors == total_sectors_of(*dev),
        dev.block_size > 0,
    ensures
        r == if (buf_len as int) < transfer_bytes(*dev, sector, count) {
            None::<usize>
        } else {
            Some(transfer_bytes(*dev, sector, count) as usize)
        },
{
    let available = total_sectors - sector;
    let actual = if (count as u64) < available {
        count as u64
    } else {
        available
    };
    proof {
        assert(actual <= u32::MAX);
        assert(actual * dev.block_size <= u32::MAX * u32::MAX) by (nonlinear_arith)
            requires
                actual <= u32::MAX,
                dev.block_size <= u32::MAX,
        ;
    }
    let bytes: u64 = actual * dev.block_size as u64;
    if (buf_len as u64) < bytes {
        return None;
    }
    Some(bytes as usize)
}

/// Plan a read of `count` sectors from `sector` into a buffer of
/// `buf_len` bytes: the transfer on the backing file, or `None` at or
/// past the end of the device.
pub fn plan_read(table: &LoopTable, index: usize, sector: u64, count: u32, buf_len: usize) -> (r: Result<Option<SectorIo>, i32>)
    requires
        table.wf(),
        offset_fits(table.devs(), index, sector),
    ensures
        r == read_plan(table.devs(), index, sector, count, buf_len),
{
    if index >= MAX_LOOP_DEVICES {
        return Err(ENODEV);
    }
    let dev = &table.devices[index];
    if dev.is_free() {
        return Err(ENXIO);
    }
    let fd = match dev.backing_fd {
        Some(fd) => fd,
        None => return Err(ENXIO),
    };
    let offset = dev.sector_to_offset(sector);
    let total_sectors = dev.total_sectors();
    if sector >= total_sectors {
        return Ok(None);
    }
    match transfer_len(dev, sector, count, total_sectors, buf_len) {
        None => Err(EINVAL),
        Some(len) => Ok(Some(SectorIo { fd, offset, len })),
    }
}

/// Plan a write of `count` sectors from `sector` out of a buffer of
/// `buf_len` bytes.
pub fn plan_write(table: &LoopTable, index: usize, sector: u64, count: u32, buf_len: usize) -> (r: Result<SectorIo, i32>)
    requires
        table.wf(),
        offset_fits(table.devs(), index, sector),
    ensures
        r == write_plan(table.devs(), index, sector, count, buf_len),
{
    if index >= MAX_LOOP_DEVICES {
        return Err(ENODEV);
    }
    let dev = &table.devices[index];
    if dev.is_free() {
        return Err(ENXIO);
    }
    if dev.is_readonly() {
        return Err(EROFS);
    }
    let fd = match dev.backing_fd {
        Some(fd) => fd,
        None => return Err(ENXIO),
    };
    let offset = dev.sector_to_offset(sector);
    let total_sectors = dev.total_sectors();
    if sector >= total_sectors {
        return Err(ENOSPC);
    }
    match transfer_len(dev, sector, count, total_sectors, buf_len) {
        None => Err(EINVAL),
        Some(len) => Ok(SectorIo { fd, offset, len }),
    }
}

/// Handle ioctl on /dev/loop-control
pub fn loop_control_ioctl(table: &LoopTable, cmd: u64, arg: u64) -> (r: Result<i64, i32>)
    requires
        table.wf(),
    ensures
        cmd == LOOP_CTL_GET_FREE ==> r == match first_free(table.devs(), MAX_LOOP_DEVICES as int) {
            Some(i) => Ok::<i64, i32>(i as i64),
            None => Err(ENOSPC),
        },
        cmd == LOOP_CTL_ADD ==> r == if (arg as usize) < MAX_LOOP_DEVICES {
            Ok::<i64, i32>((arg as usize) as i64)
        } else {
            Err(EINVAL)
        },
        cmd == LOOP_CTL_REMOVE ==> r == if (arg as usize) >= MAX_LOOP_DEVICES {
            Err::<i64, i32>(EINVAL)
        } else if table.devs()[(arg as usize) as int].state == LoopState::Attached {
            Err(EBUSY)
        } else {
            Ok(0)
        },
        cmd != LOOP_CTL_GET_FREE && cmd != LOOP_CTL_ADD && cmd != LOOP_CTL_REMOVE ==> r == Err::<
            i64,
            i32,
        >(ENOTTY),
{
    if cmd == LOOP_CTL_GET_FREE {
        proof {
            lemma_first_free_range(table.devs(), MAX_LOOP_DEVICES as int);
        }
        match get_free(table) {
            Some(idx) => Ok(idx as i64),
            None => Err(ENOSPC),
        }
    } else if cmd == LOOP_CTL_ADD {
        let index = arg as usize;
        if index >= MAX_LOOP_DEVICES {
            Err(EINVAL)
        } else {
            Ok(index as i64)
        }
    } else if cmd == LOOP_CTL_REMOVE {
        let index = arg as usize;
        if index >= MAX_LOOP_DEVICES {
            Err(EINVAL)
        } else if table.devices[index].is_attached() {
            Err(EBUSY)
        } else {
            Ok(0)
        }
    } else {
        Err(ENOTTY)
    }
}

/// What the kernel found out for an ioctl on /dev/loopN before deciding
/// it: the size of the file the command names (the descriptor in `arg`
/// for `LOOP_SET_FD`, the backing file for `LOOP_SET_CAPACITY`), that
/// file's path for display, whether the user buffer at `arg` is valid,
/// and the status read from it for `LOOP_SET_STATUS64`.
pub struct IoctlEnv {
    pub file_size: Option<u64>,
    pub file_path: String,
    pub user_buffer_ok: bool,
    pub user_info: LoopInfo64,
}

/// The answer of an ioctl: its return value, and the status to copy to
/// the user buffer, if any.
pub struct IoctlReply {
    pub ret: i64,
    pub copy_out: Option<LoopInfo64>,
}

/// The device after `LOOP_SET_DIRECT_IO` with argument `arg`.
pub open spec fn direct_io_set(d: LoopDevice, arg: u64) -> LoopDevice {
    LoopDevice {
        flags: if arg != 0 {
            d.flags | LO_FLAGS_DIRECT_IO
        } else {
            d.flags & !LO_FLAGS_DIRECT_IO
        },
        ..d
    }
}

/// Handle ioctl on /dev/loopN
pub fn loop_device_ioctl(table: &mut LoopTable, index: usize, cmd: u64, arg: u64, env: &IoctlEnv) -> (r: Result<IoctlReply, i32>)
    requires
        old(table).wf(),
    ensures
        final(table).wf(),
        index >= MAX_LOOP_DEVICES ==> (r matches Err(e) && e == ENODEV) && final(table).devs()
            == old(table).devs(),
        index < MAX_LOOP_DEVICES ==> {
            let o = old(table).devs();
            let n = final(table).devs();
            let d = o[index as int];
            let unit = match r {
                Ok(_) => Ok::<(), i32>(()),
                Err(e) => Err(e),
            };
            &&& r matches Ok(rep) ==> rep.ret == 0
            &&& cmd == LOOP_SET_FD ==> match env.file_size {
                None => r matches Err(e) && e == EBADF && n == o,
                Some(size) => attach_post(o, n, index, arg, env.file_path@, size, false, unit)
                    && (r matches Ok(rep) ==> rep.copy_out is None),
            }
            &&& cmd == LOOP_CLR_FD ==> detach_post(o, n, index, unit) && (r matches Ok(rep)
                ==> rep.copy_out is None)
            &&& cmd == LOOP_GET_STATUS64 ==> n == o && match attached_check(o, index) {
                Some(e) => r matches Err(x) && x == e,
                None => if !env.user_buffer_ok {
                    r matches Err(x) && x == EFAULT
                } else {
                    r matches Ok(rep) && rep.copy_out matches Some(info) && info.lo_number
                        == index as u32 && info.lo_offset == d.offset && info.lo_sizelimit
                        == d.sizelimit && info.lo_flags == d.flags
                },
            }
            &&& cmd == LOOP_SET_STATUS64 ==> if !env.user_buffer_ok {
                r matches Err(x) && x == EFAULT && n == o
            } else {
                set_post(
                    o,
                    n,
                    index,
                    None,
                    with_status(d, env.user_info),
                    unit,
                ) && (r matches Ok(rep) ==> rep.copy_out is None)
            }
            &&& cmd == LOOP_SET_CAPACITY ==> (r matches Ok(rep) && rep.copy_out is None) && n == if d.backing_fd
                is Some && env.file_size is Some {
                o.update(index as int, with_total_size(d, env.file_size.unwrap()))
            } else {
                o
            }
            &&& cmd == LOOP_SET_BLOCK_SIZE ==> (if valid_block_size(arg as u32) {
                set_post(o, n, index, None, with_block_size(d, arg as u32), unit)
            } else {
                r matches Err(x) && x == EINVAL && n == o
            }) && (r matches Ok(rep) ==> rep.copy_out is None)
            &&& cmd == LOOP_SET_DIRECT_IO ==> (r matches Ok(rep) && rep.copy_out is None) && n
                == o.update(index as int, direct_io_set(d, arg))
            &&& cmd != LOOP_SET_FD && cmd != LOOP_CLR_FD && cmd != LOOP_GET_STATUS64 && cmd
                != LOOP_SET_STATUS64 && cmd != LOOP_SET_CAPACITY && cmd != LOOP_SET_BLOCK_SIZE
                && cmd != LOOP_SET_DIRECT_IO ==> (r matches Err(x) && x == ENOTTY) && n == o
        },
{
    if index >= MAX_LOOP_DEVICES {
        return Err(ENODEV);
    }
    let none = IoctlReply { ret: 0, copy_out: None };
    if cmd == LOOP_SET_FD {
        let file_size = match env.file_size {
            Some(s) => s,
            None => return Err(EBADF),
        };
        match attach(table, index, arg, env.file_path.as_str(), file_size, false) {
            Ok(()) => Ok(none),
            Err(e) => Err(e),
        }
    } else if cmd == LOOP_CLR_FD {
        match detach(table, index) {
            Ok(()) => Ok(none),
            Err(e) => Err(e),
        }
    } else if cmd == LOOP_GET_STATUS64 {
        let info = match get_status64(table, index) {
            Ok(i) => i,
            Err(e) => return Err(e),
        };
        if !env.user_buffer_ok {
            return Err(EFAULT);
        }
        Ok(IoctlReply { ret: 0, copy_out: Some(info) })
    } else if cmd == LOOP_SET_STATUS64 {
        if !env.user_buffer_ok {
            return Err(EFAULT);
        }
        match set_status64(table, index, &env.user_info) {
            Ok(()) => Ok(none),
            Err(e) => Err(e),
        }
    } else if cmd == LOOP_SET_CAPACITY {
        if table.devices[index].backing_fd.is_some() {
            if let Some(new_size) = env.file_size {
                table.devices[index].total_size = new_size;
            }
        }
        Ok(none)
    } else if cmd == LOOP_SET_BLOCK_SIZE {
        match set_block_size(table, index, arg as u32) {
            Ok(()) => Ok(none),
            Err(e) => Err(e),
        }
    } else if cmd == LOOP_SET_DIRECT_IO {
        if arg != 0 {
            table.devices[index].flags = table.devices[index].flags | LoopFlags::DirectIO.bits();
        } else {
            table.devices[index].flags = table.devices[index].flags & !LoopFlags::DirectIO.bits();
        }
        Ok(none)
    } else {
        Err(ENOTTY)
    }
}

/// List loop devices with their status: index, attached, backing path.
pub fn list_devices(table: &LoopTable) -> (r: Vec<(usize, bool, Option<String>)>)
    requires
        table.wf(),
    ensures
        r@.len() == MAX_LOOP_DEVICES,
        forall|i: int|
            0 <= i < MAX_LOOP_DEVICES ==> {
                let d = table.devs()[i];
                &&& (#[trigger] r@[i]).0 == i
                &&& r@[i].1 == (d.state == LoopState::Attached)
                &&& r@[i].2 is Some <==> d.backing_path is Some
                &&& r@[i].2 matches Some(p) ==> p@ == d.backing_path.unwrap()@
            },
{
    let mut out: Vec<(usize, bool, Option<String>)> = Vec::new();
    let mut i: usize = 0;
    while i < MAX_LOOP_DEVICES
        invariant
            i <= MAX_LOOP_DEVICES,
            table.wf(),
            out@.len() == i,
            forall|j: int|
                0 <= j < i ==> {
                    let d = table.devs()[j];
                    &&& (#[trigger] out@[j]).0 == j
                    &&& out@[j].1 == (d.state == LoopState::Attached)
                    &&& out@[j].2 is Some <==> d.backing_path is Some
                    &&& out@[j].2 matches Some(p) ==> p@ == d.backing_path.unwrap()@
                },
        decreases MAX_LOOP_DEVICES - i,
    {
        let dev = &table.devices[i];
        let path = match &dev.backing_path {
            Some(p) => Some(p.clone()),
            None => None,
        };
        out.push((i, dev.is_attached(), path));
        i = i + 1;
    }
    out
}

} // verus!
