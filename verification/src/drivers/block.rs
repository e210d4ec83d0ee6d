//! Block Device Subsystem
//!
//! The kernel-side registry of block device drivers and devices.  Drivers
//! register an operations table; the kernel routes block I/O through it.
//! This module keeps the registry and decides each request: which driver
//! and device serve it, whether the buffer is large enough, and how a byte
//! range maps onto whole sectors.  The kernel makes the driver calls.

use vstd::prelude::*;
use vstd::utf8::valid_utf8;
use crate::text::str_from_utf8;

verus! {

/// Block device operation errors
#[derive(Debug, Copy, Clone, PartialEq, Eq, Structural)]
pub enum BlockError {
    /// Device not found
    NotFound,
    /// I/O error during read/write
    IoError,
    /// Invalid sector number
    InvalidSector,
    /// Device is read-only
    ReadOnly,
    /// Device not ready
    NotReady,
    /// Buffer alignment error
    Alignment,
    /// Device busy
    Busy,
    /// Driver not loaded
    DriverNotLoaded,
    /// Invalid operation
    InvalidOp,
}

/// The driver return code of each error.
pub open spec fn error_code(e: BlockError) -> i32 {
    match e {
        BlockError::NotFound => -1i32,
        BlockError::IoError => -2i32,
        BlockError::InvalidSector => -3i32,
        BlockError::ReadOnly => -4i32,
        BlockError::NotReady => -5i32,
        BlockError::Alignment => -6i32,
        BlockError::Busy => -7i32,
        BlockError::DriverNotLoaded => -100i32,
        BlockError::InvalidOp => -101i32,
    }
}

impl BlockError {
    /// Convert from driver return code
    pub fn from_code(code: i32) -> (r: Option<Self>)
        ensures
            r matches Some(e) ==> error_code(e) == code,
            r is None <==> (code != -1 && code != -2 && code != -3 && code != -4 && code != -5
                && code != -6 && code != -7 && code != -100 && code != -101),
    {
        match code {
            -1 => Some(Self::NotFound),
            -2 => Some(Self::IoError),
            -3 => Some(Self::InvalidSector),
            -4 => Some(Self::ReadOnly),
            -5 => Some(Self::NotReady),
            -6 => Some(Self::Alignment),
            -7 => Some(Self::Busy),
            -100 => Some(Self::DriverNotLoaded),
            -101 => Some(Self::InvalidOp),
            _ => None,
        }
    }

    /// The driver return code of this error.
    pub fn code(self) -> (r: i32)
        ensures
            r == error_code(self),
    {
        match self {
            BlockError::NotFound => -1,
            BlockError::IoError => -2,
            BlockError::InvalidSector => -3,
            BlockError::ReadOnly => -4,
            BlockError::NotReady => -5,
            BlockError::Alignment => -6,
            BlockError::Busy => -7,
            BlockError::DriverNotLoaded => -100,
            BlockError::InvalidOp => -101,
        }
    }
}

/// The error a nonzero driver return code stands for: its own error, or
/// an I/O error for a code no error has.
pub open spec fn code_error(code: i32) -> BlockError {
    if code == -1 {
        BlockError::NotFound
    } else if code == -2 {
        BlockError::IoError
    } else if code == -3 {
        BlockError::InvalidSector
    } else if code == -4 {
        BlockError::ReadOnly
    } else if code == -5 {
        BlockError::NotReady
    } else if code == -6 {
        BlockError::Alignment
    } else if code == -7 {
        BlockError::Busy
    } else if code == -100 {
        BlockError::DriverNotLoaded
    } else if code == -101 {
        BlockError::InvalidOp
    } else {
        BlockError::IoError
    }
}

/// The outcome of a driver call that returned `code`: 0 is success.
pub fn result_from_code(code: i32) -> (r: Result<(), BlockError>)
    ensures
        code == 0 ==> r is Ok,
        code != 0 ==> r == Err::<(), BlockError>(code_error(code)),
{
    if code == 0 {
        Ok(())
    } else {
        match BlockError::from_code(code) {
            Some(e) => Err(e),
            None => Err(BlockError::IoError),
        }
    }
}

/// Block device handle: the driver's instance, by address.
#[derive(Clone, Copy)]
pub struct BlockDeviceHandle(pub u64);

impl BlockDeviceHandle {
    pub fn is_null(&self) -> (r: bool)
        ensures
            r == (self.0 == 0),
    {
        self.0 == 0
    }
}

/// Block device information
#[derive(Debug, Clone, Copy)]
pub struct BlockDeviceInfo {
    /// Device name (e.g., "vda", "sda")
    pub name: [u8; 16],
    /// Sector size in bytes (typically 512)
    pub sector_size: u32,
    /// Total number of sectors
    pub total_sectors: u64,
    /// Device is read-only
    pub read_only: bool,
    /// Device is removable
    pub removable: bool,
    /// PCI address (if applicable)
    pub pci_bus: u8,
    pub pci_device: u8,
    pub pci_function: u8,
}

/// The bytes of a nul-padded name up to its first nul.
pub open spec fn name_prefix(name: Seq<u8>) -> Seq<u8> {
    match first_nul(name, 0) {
        Some(i) => name.take(i),
        None => name,
    }
}

/// The first nul byte at or after `i`.
pub open spec fn first_nul(name: Seq<u8>, i: int) -> Option<int>
    decreases name.len() - i,
{
    if i < 0 || i >= name.len() {
        None
    } else if name[i] == 0 {
        Some(i)
    } else {
        first_nul(name, i + 1)
    }
}

/// Index of the first nul byte of `name`, or its length.
fn nul_position(name: &[u8]) -> (r: usize)
    ensures
        r <= name@.len(),
        name_prefix(name@) == name@.take(r as int),
{
    let mut i: usize = 0;
    while i < name.len() && name[i] != 0
        invariant
            i <= name@.len(),
            first_nul(name@, 0) == first_nul(name@, i as int),
        decreases name@.len() - i,
    {
        i = i + 1;
    }
    proof {
        if i == name@.len() {
            assert(name@.take(i as int) =~= name@);
        }
    }
    i
}

impl BlockDeviceInfo {
    pub fn empty() -> (r: Self)
        ensures
            forall|i: int| 0 <= i < 16 ==> r.name@[i] == 0,
            r.sector_size == 512,
            r.total_sectors == 0,
            !r.read_only && !r.removable,
            r.pci_bus == 0 && r.pci_device == 0 && r.pci_function == 0,
    {
        Self {
            name: [0u8; 16],
            sector_size: 512,
            total_sectors: 0,
            read_only: false,
            removable: false,
            pci_bus: 0,
            pci_device: 0,
            pci_function: 0,
        }
    }

    /// Get device name as string: the name up to its first nul, or
    /// "unknown" if that is not UTF-8.
    pub fn name_str(&self) -> (r: &str)
        ensures
            valid_utf8(name_prefix(self.name@)) ==> r@ == vstd::utf8::decode_utf8(
                name_prefix(self.name@),
            ),
            !valid_utf8(name_prefix(self.name@)) ==> r@ == "unknown"@,
    {
        let end = nul_position(self.name.as_slice());
        let bytes = slice_prefix(self.name.as_slice(), end);
        match str_from_utf8(bytes) {
            Some(s) => s,
            None => "unknown",
        }
    }

    /// Get total capacity in bytes
    pub fn capacity(&self) -> (r: u64)
        requires
            self.total_sectors * self.sector_size <= u64::MAX,
        ensures
            r == self.total_sectors * self.sector_size,
    {
        self.total_sectors * self.sector_size as u64
    }
}

/// The first `n` bytes of a slice.
fn slice_prefix(s: &[u8], n: usize) -> (r: &[u8])
    requires
        n <= s@.len(),
    ensures
        r@ == s@.take(n as int),
{
    let (a, _b) = s.split_at(n);
    a
}

/// Block device descriptor for boot info
#[derive(Debug, Clone, Copy)]
pub struct BootBlockDevice {
    pub pci_segment: u16,
    pub pci_bus: u8,
    pub pci_device: u8,
    pub pci_function: u8,
    pub mmio_base: u64,
    pub mmio_length: u64,
    pub sector_size: u32,
    pub total_sectors: u64,
    pub features: u64,
}

impl BootBlockDevice {
    pub fn empty() -> (r: Self)
        ensures
            r.pci_segment == 0 && r.pci_bus == 0 && r.pci_device == 0 && r.pci_function == 0,
            r.mmio_base == 0 && r.mmio_length == 0,
            r.sector_size == 512 && r.total_sectors == 0 && r.features == 0,
    {
        Self {
            pci_segment: 0,
            pci_bus: 0,
            pci_device: 0,
            pci_function: 0,
            mmio_base: 0,
            mmio_length: 0,
            sector_size: 512,
            total_sectors: 0,
            features: 0,
        }
    }
}

/// Block driver operations table: the driver's name, and which of its
/// operations it provides.  The kernel keeps the entry points themselves.
#[derive(Clone, Copy)]
pub struct BlockDriverOps {
    /// Driver name (null-terminated)
    pub name: [u8; 32],
    pub probe: bool,
    pub new: bool,
    pub destroy: bool,
    pub init: bool,
    pub get_info: bool,
    pub read: bool,
    pub write: bool,
    pub flush: bool,
}

/// Active block device instance
#[derive(Clone, Copy)]
pub struct BlockDevice {
    /// Driver name
    pub driver_name: [u8; 32],
    /// Device handle from driver
    pub handle: BlockDeviceHandle,
    /// Device info
    pub info: BlockDeviceInfo,
    /// Index in device array
    pub index: usize,
}

/// Global block subsystem state
pub struct BlockSubsystem {
    /// Registered drivers
    drivers: Vec<BlockDriverOps>,
    /// Active block devices
    devices: Vec<BlockDevice>,
    /// Module is initialized
    initialized: bool,
}

/// The first of the first `n` devices at a PCI location.
pub open spec fn device_at(devs: Seq<BlockDevice>, bus: u8, device: u8, function: u8, n: int) -> Option<int>
    decreases n,
{
    if n <= 0 {
        None
    } else {
        match device_at(devs, bus, device, function, n - 1) {
            Some(i) => Some(i),
            None => if devs[n - 1].info.pci_bus == bus && devs[n - 1].info.pci_device == device
                && devs[n - 1].info.pci_function == function {
                Some(n - 1)
            } else {
                None
            },
        }
    }
}

/// The first of the first `n` drivers registered under `name`.
pub open spec fn driver_named(drvs: Seq<BlockDriverOps>, name: Seq<u8>, n: int) -> Option<int>
    decreases n,
{
    if n <= 0 {
        None
    } else {
        match driver_named(drvs, name, n - 1) {
            Some(i) => Some(i),
            None => if drvs[n - 1].name@ == name {
                Some(n - 1)
            } else {
                None
            },
        }
    }
}

/// A sector transfer to hand to a driver: which driver, and the device's
/// handle.
#[derive(Clone, Copy)]
pub struct DriverCall {
    pub driver: usize,
    pub handle: BlockDeviceHandle,
}

/// What a read or write of `count` sectors of device `index` with a
/// buffer of `buf_len` bytes is sent to.
pub open spec fn transfer_plan(
    devs: Seq<BlockDevice>,
    drvs: Seq<BlockDriverOps>,
    index: usize,
    count: u32,
    buf_len: usize,
    write: bool,
) -> Result<(int, u64), BlockError> {
    if index >= devs.len() {
        Err(BlockError::NotFound)
    } else {
        let dev = devs[index as int];
        if write && dev.info.read_only {
            Err(BlockError::ReadOnly)
        } else {
            match driver_named(drvs, dev.driver_name@, drvs.len() as int) {
                None => Err(BlockError::DriverNotLoaded),
                Some(d) => if !(if write {
                    drvs[d].write
                } else {
                    drvs[d].read
                }) {
                    Err(BlockError::InvalidOp)
                } else if (buf_len as int) < count as int * dev.info.sector_size as int {
                    Err(BlockError::Alignment)
                } else {
                    Ok((d, dev.handle.0))
                },
            }
        }
    }
}

impl BlockSubsystem {
    pub closed spec fn drivers(&self) -> Seq<BlockDriverOps> {
        self.drivers@
    }

    pub closed spec fn devices(&self) -> Seq<BlockDevice> {
        self.devices@
    }

    pub closed spec fn initialized(&self) -> bool {
        self.initialized
    }

    /// Each device records its own index.
    pub closed spec fn wf(&self) -> bool {
        forall|i: int| 0 <= i < self.devices@.len() ==> (#[trigger] self.devices@[i]).index == i
    }

    pub fn new() -> (r: Self)
        ensures
            r.wf(),
            r.drivers().len() == 0,
            r.devices().len() == 0,
            !r.initialized(),
    {
        BlockSubsystem { drivers: Vec::new(), devices: Vec::new(), initialized: false }
    }
}

/// Register a block device driver
pub fn kmod_blk_register(sub: &mut BlockSubsystem, ops: &BlockDriverOps) -> (r: i32)
    requires
        old(sub).wf(),
    ensures
        final(sub).wf(),
        r == 0,
        final(sub).drivers() == old(sub).drivers().push(*ops),
        final(sub).devices() == old(sub).devices(),
        final(sub).initialized() == old(sub).initialized(),
{
    sub.drivers.push(*ops);
    0
}

/// The name a driver is known by: its name up to the first nul if that
/// is UTF-8, else "unknown".
pub open spec fn known_name(name: Seq<u8>) -> Seq<u8> {
    if valid_utf8(name_prefix(name)) {
        name_prefix(name)
    } else {
        seq![117u8, 110u8, 107u8, 110u8, 111u8, 119u8, 110u8]
    }
}

/// The first of the first `n` drivers known by `name`.
pub open spec fn driver_known_as(drvs: Seq<BlockDriverOps>, name: Seq<u8>, n: int) -> Option<int>
    decreases n,
{
    if n <= 0 {
        None
    } else {
        match driver_known_as(drvs, name, n - 1) {
            Some(i) => Some(i),
            None => if known_name(drvs[n - 1].name@) == name {
                Some(n - 1)
            } else {
                None
            },
        }
    }
}

/// The name a driver is known by, as bytes.
fn known_name_of(name: &[u8; 32]) -> (r: Vec<u8>)
    ensures
        r@ == known_name(name@),
{
    let end = nul_position(name.as_slice());
    let bytes = slice_prefix(name.as_slice(), end);
    let mut out: Vec<u8> = Vec::new();
    if str_from_utf8(bytes).is_some() {
        let mut i: usize = 0;
        while i < end
            invariant
                i <= end <= bytes@.len(),
                bytes@.len() == end,
                out@ == bytes@.take(i as int),
            decreases end - i,
        {
            out.push(bytes[i]);
            i = i + 1;
        }
        assert(out@ =~= bytes@);
    } else {
        out.push(117u8);
        out.push(110u8);
        out.push(107u8);
        out.push(110u8);
        out.push(111u8);
        out.push(119u8);
        out.push(110u8);
        assert(out@ =~= seq![117u8, 110u8, 107u8, 110u8, 111u8, 119u8, 110u8]);
    }
    out
}

/// Byte-wise equality of two byte sequences.
fn bytes_equal(a: &[u8], b: &[u8]) -> (r: bool)
    ensures
        r == (a@ == b@),
{
    if a.len() != b.len() {
        return false;
    }
    let mut i: usize = 0;
    while i < a.len()
        invariant
            i <= a@.len() == b@.len(),
            a@.take(i as int) == b@.take(i as int),
        decreases a@.len() - i,
    {
        if a[i] != b[i] {
            assert(a@[i as int] != b@[i as int]);
            return false;
        }
        assert(a@.take(i + 1) =~= a@.take(i as int).push(a@[i as int]));
        assert(b@.take(i + 1) =~= b@.take(i as int).push(b@[i as int]));
        i = i + 1;
    }
    assert(a@ =~= a@.take(i as int));
    assert(b@ =~= b@.take(i as int));
    true
}

/// Unregister a block device driver by name
///
/// The name is matched against each driver's name as text; a name that
/// is not UTF-8 matches as the empty name.  The last driver takes the
/// removed one's place.
pub fn kmod_blk_unregister(sub: &mut BlockSubsystem, name: &[u8]) -> (r: i32)
    requires
        old(sub).wf(),
    ensures
        final(sub).wf(),
        final(sub).devices() == old(sub).devices(),
        final(sub).initialized() == old(sub).initialized(),
        ({
            let key = if valid_utf8(name@) {
                name@
            } else {
                Seq::<u8>::empty()
            };
            let d = old(sub).drivers();
            if name@.len() == 0 {
                r == -1 && final(sub).drivers() == d
            } else {
                match driver_known_as(d, key, d.len() as int) {
                    None => r == -1 && final(sub).drivers() == d,
                    Some(p) => r == 0 && final(sub).drivers() == d.update(p, d.last()).drop_last(),
                }
            }
        }),
{
    if name.len() == 0 {
        return -1;
    }
    let empty: [u8; 0] = [];
    let key: &[u8] = if str_from_utf8(name).is_some() {
        name
    } else {
        empty.as_slice()
    };
    assert(empty@ =~= Seq::<u8>::empty());
    let mut i: usize = 0;
    while i < sub.drivers.len()
        invariant
            i <= sub.drivers@.len(),
            sub.drivers@ == old(sub).drivers@,
            sub.devices@ == old(sub).devices@,
            sub.initialized == old(sub).initialized,
            sub.wf(),
            name@.len() > 0,
            key@ == (if valid_utf8(name@) {
                name@
            } else {
                Seq::<u8>::empty()
            }),
            driver_known_as(sub.drivers@, key@, i as int) is None,
        decreases sub.drivers@.len() - i,
    {
        let known = known_name_of(&sub.drivers[i].name);
        if bytes_equal(known.as_slice(), key) {
            proof {
                lemma_known_stable(sub.drivers@, key@, i + 1, sub.drivers@.len() as int);
            }
            let last = sub.drivers.len() - 1;
            let moved = sub.drivers[last];
            sub.drivers.set(i, moved);
            sub.drivers.pop();
            proof {
                assert(sub.drivers@ =~= old(sub).drivers@.update(i as int, old(sub).drivers@.last()).drop_last());
            }
            return 0;
        }
        i = i + 1;
    }
    -1
}

proof fn lemma_known_stable(d: Seq<BlockDriverOps>, key: Seq<u8>, n: int, m: int)
    requires
        n <= m,
        driver_known_as(d, key, n) is Some,
    ensures
        driver_known_as(d, key, m) == driver_known_as(d, key, n),
    decreases m - n,
{
    if n < m {
        lemma_known_stable(d, key, n, m - 1);
    }
}


/// Initialize the block device subsystem; `true` the first time, when the
/// kernel registers the module entry points.
pub fn init(sub: &mut BlockSubsystem) -> (first: bool)
    requires
        old(sub).wf(),
    ensures
        final(sub).wf(),
        first == !old(sub).initialized(),
        final(sub).initialized(),
        final(sub).drivers() == old(sub).drivers(),
        final(sub).devices() == old(sub).devices(),
{
    if sub.initialized {
        return false;
    }
    sub.initialized = true;
    true
}

/// Check if any block driver is loaded
pub fn has_driver(sub: &BlockSubsystem) -> (r: bool)
    ensures
        r == (sub.drivers().len() > 0),
{
    sub.drivers.len() > 0
}

/// What the kernel does next while probing a boot block device.
#[derive(Clone, Copy)]
pub enum ProbeAction {
    /// Ask driver `d` whether it supports the device (its `probe` with
    /// the virtio block vendor and device ids); hand the answer to
    /// `probe_driver_answered`.
    AskDriver(usize),
    /// Call driver `d`'s `new` on the descriptor; hand the handle to
    /// `probe_new_returned`.
    CallNew(usize),
    /// Call driver `d`'s `init` on the handle; hand the code to
    /// `probe_init_returned`.
    CallInit(usize, BlockDeviceHandle),
    /// Call driver `d`'s `get_info` on the handle; hand the code and the
    /// information to `probe_info_returned`.
    CallGetInfo(usize, BlockDeviceHandle),
    /// Call driver `d`'s `destroy` on the handle; the probe then fails
    /// with the error.
    Destroy(usize, BlockDeviceHandle, BlockError),
    /// The probe is over: the device's index, or why it failed.
    Done(Result<usize, BlockError>),
}

/// Vendor id a driver is asked about (virtio).
pub const PROBE_VENDOR_ID: u16 = 0x1AF4;

/// Device id a driver is asked about (legacy virtio block).
pub const PROBE_DEVICE_ID: u16 = 0x1001;

/// The first driver from `from` on that has a `probe` operation.
pub open spec fn next_probing(drvs: Seq<BlockDriverOps>, from: int) -> Option<int>
    decreases drvs.len() - from,
{
    if from < 0 || from >= drvs.len() {
        None
    } else if drvs[from].probe {
        Some(from)
    } else {
        next_probing(drvs, from + 1)
    }
}

/// The step after driver `from` on is to be asked: the next driver with
/// a `probe`, or no driver.
pub open spec fn ask_from(drvs: Seq<BlockDriverOps>, from: int) -> ProbeAction {
    match next_probing(drvs, from) {
        Some(k) => ProbeAction::AskDriver(k as usize),
        None => ProbeAction::Done(Err(BlockError::DriverNotLoaded)),
    }
}

/// The step after `init` or `get_info` of driver `d` failed with `code`.
pub open spec fn failed_call(drvs: Seq<BlockDriverOps>, d: usize, h: BlockDeviceHandle, code: i32) -> ProbeAction {
    if drvs[d as int].destroy {
        ProbeAction::Destroy(d, h, code_error(code))
    } else {
        ProbeAction::Done(Err(code_error(code)))
    }
}

/// Default name of the device at `index`.
pub open spec fn default_name(index: int) -> Seq<u8> {
    if index == 0 {
        seq![118u8, 100u8, 97u8]
    } else if index == 1 {
        seq![118u8, 100u8, 98u8]
    } else if index == 2 {
        seq![118u8, 100u8, 99u8]
    } else if index == 3 {
        seq![118u8, 100u8, 100u8]
    } else {
        seq![118u8, 100u8, 120u8]
    }
}

/// `got` is the device information `info` with a default name when the
/// driver gave none: the default name over the first bytes of the name.
pub open spec fn named_info(info: BlockDeviceInfo, index: int, got: BlockDeviceInfo) -> bool {
    &&& got.sector_size == info.sector_size
    &&& got.total_sectors == info.total_sectors
    &&& got.read_only == info.read_only
    &&& got.removable == info.removable
    &&& got.pci_bus == info.pci_bus
    &&& got.pci_device == info.pci_device
    &&& got.pci_function == info.pci_function
    &&& forall|k: int|
        0 <= k < 16 ==> #[trigger] got.name@[k] == if info.name@[0] == 0 && k
            < default_name(index).len() {
            default_name(index)[k]
        } else {
            info.name@[k]
        }
}

/// Start probing the boot device `desc`
///
/// A device already at the same PCI location keeps its index; otherwise
/// the drivers are asked in turn, from the first one with a `probe`.
pub fn probe_device(sub: &BlockSubsystem, desc: &BootBlockDevice) -> (r: ProbeAction)
    requires
        sub.wf(),
    ensures
        ({
            let devs = sub.devices();
            match device_at(devs, desc.pci_bus, desc.pci_device, desc.pci_function, devs.len() as int) {
                Some(i) => r == ProbeAction::Done(Ok(i as usize)),
                None => r == ask_from(sub.drivers(), 0),
            }
        }),
{
    match find_by_pci(sub, desc.pci_bus, desc.pci_device, desc.pci_function) {
        Some(i) => ProbeAction::Done(Ok(i)),
        None => ask_drivers_from(sub, 0),
    }
}

/// Ask the next driver from `from` on that has a `probe`.
fn ask_drivers_from(sub: &BlockSubsystem, from: usize) -> (r: ProbeAction)
    ensures
        r == ask_from(sub.drivers(), from as int),
{
    let mut k = from;
    while k < sub.drivers.len()
        invariant
            from <= k,
            next_probing(sub.drivers(), from as int) == next_probing(sub.drivers(), k as int),
        decreases sub.drivers@.len() - k,
    {
        if sub.drivers[k].probe {
            return ProbeAction::AskDriver(k);
        }
        k = k + 1;
    }
    ProbeAction::Done(Err(BlockError::DriverNotLoaded))
}

/// Driver `d` answered `code` to whether it supports the device: `0`
/// means yes, and then it must provide `new`, `init` and `get_info`;
/// otherwise the next driver is asked.
pub fn probe_driver_answered(sub: &BlockSubsystem, d: usize, code: i32) -> (r: ProbeAction)
    requires
        d < sub.drivers().len(),
    ensures
        code != 0 ==> r == ask_from(sub.drivers(), d + 1),
        code == 0 ==> r == if !sub.drivers()[d as int].new || !sub.drivers()[d as int].init
            || !sub.drivers()[d as int].get_info {
            ProbeAction::Done(Err(BlockError::InvalidOp))
        } else {
            ProbeAction::CallNew(d)
        },
{
    if code != 0 {
        let n = sub.drivers.len();
        assert(d < n);
        return ask_drivers_from(sub, d + 1);
    }
    let ops = &sub.drivers[d];
    if !ops.new || !ops.init || !ops.get_info {
        return ProbeAction::Done(Err(BlockError::InvalidOp));
    }
    ProbeAction::CallNew(d)
}

/// Driver `d`'s `new` returned `handle`: a null handle means the device
/// is not ready, else the device is initialized next.
pub fn probe_new_returned(d: usize, handle: BlockDeviceHandle) -> (r: ProbeAction)
    ensures
        r == if handle.0 == 0 {
            ProbeAction::Done(Err(BlockError::NotReady))
        } else {
            ProbeAction::CallInit(d, handle)
        },
{
    if handle.is_null() {
        return ProbeAction::Done(Err(BlockError::NotReady));
    }
    ProbeAction::CallInit(d, handle)
}

/// The step after a call failed with `code`: destroy the instance if the
/// driver can, and fail with the code's error.
fn failed_probe_call(sub: &BlockSubsystem, d: usize, handle: BlockDeviceHandle, code: i32) -> (r: ProbeAction)
    requires
        d < sub.drivers().len(),
        code != 0,
    ensures
        r == failed_call(sub.drivers(), d, handle, code),
{
    let err = match result_from_code(code) {
        Err(e) => e,
        Ok(_) => BlockError::IoError,
    };
    if sub.drivers[d].destroy {
        ProbeAction::Destroy(d, handle, err)
    } else {
        ProbeAction::Done(Err(err))
    }
}

/// Driver `d`'s `init` on `handle` returned `code`: on failure the
/// instance is destroyed (if the driver can) and the probe fails with
/// the code's error; else the device information is asked for.
pub fn probe_init_returned(sub: &BlockSubsystem, d: usize, handle: BlockDeviceHandle, code: i32) -> (r: ProbeAction)
    requires
        d < sub.drivers().len(),
    ensures
        r == if code != 0 {
            failed_call(sub.drivers(), d, handle, code)
        } else {
            ProbeAction::CallGetInfo(d, handle)
        },
{
    if code != 0 {
        return failed_probe_call(sub, d, handle, code);
    }
    ProbeAction::CallGetInfo(d, handle)
}

/// Driver `d`'s `get_info` on `handle` returned `code` and `info`: on
/// failure as for `init`; else the device is registered under the next
/// index, named "vda", "vdb", ... by that index when the driver gave no
/// name.
pub fn probe_info_returned(
    sub: &mut BlockSubsystem,
    d: usize,
    handle: BlockDeviceHandle,
    code: i32,
    info: BlockDeviceInfo,
) -> (r: ProbeAction)
    requires
        old(sub).wf(),
        d < old(sub).drivers().len(),
        old(sub).devices().len() < usize::MAX,
    ensures
        final(sub).wf(),
        final(sub).drivers() == old(sub).drivers(),
        final(sub).initialized() == old(sub).initialized(),
        devices_step(old(sub).devices(), final(sub).devices()),
        code != 0 ==> r == failed_call(old(sub).drivers(), d, handle, code) && final(sub).devices()
            == old(sub).devices(),
        code == 0 ==> {
            let devs = old(sub).devices();
            &&& r == ProbeAction::Done(Ok(devs.len() as usize))
            &&& final(sub).devices().len() == devs.len() + 1
            &&& final(sub).devices().drop_last() == devs
            &&& final(sub).devices().last().driver_name == old(sub).drivers()[d as int].name
            &&& final(sub).devices().last().handle == handle
            &&& final(sub).devices().last().index == devs.len()
            &&& named_info(info, devs.len() as int, final(sub).devices().last().info)
        },
{
    if code != 0 {
        return failed_probe_call(sub, d, handle, code);
    }
    let ops_name = sub.drivers[d].name;
    let index = sub.devices.len();
    let mut named = info;
    if named.name[0] == 0 {
        let name = default_device_name(index);
        let mut i: usize = 0;
        while i < 3
            invariant
                i <= 3,
                name@ == default_name(index as int),
                name@.len() == 3,
                forall|k: int| 0 <= k < 16 ==> #[trigger] named.name@[k] == if k < i {
                    name@[k]
                } else {
                    info.name@[k]
                },
                named.sector_size == info.sector_size,
                named.total_sectors == info.total_sectors,
                named.read_only == info.read_only,
                named.removable == info.removable,
                named.pci_bus == info.pci_bus,
                named.pci_device == info.pci_device,
                named.pci_function == info.pci_function,
            decreases 3 - i,
        {
            named.name[i] = name[i];
            i = i + 1;
        }
    }
    sub.devices.push(BlockDevice { driver_name: ops_name, handle, info: named, index });
    proof {
        assert(sub.devices@.drop_last() =~= old(sub).devices@);
    }
    ProbeAction::Done(Ok(index))
}

/// The default name of the device at `index`, as bytes.
fn default_device_name(index: usize) -> (r: [u8; 3])
    ensures
        r@ == default_name(index as int),
{
    let last: u8 = match index {
        0 => 97,
        1 => 98,
        2 => 99,
        3 => 100,
        _ => 120,
    };
    let r = [118u8, 100u8, last];
    assert(r@ =~= default_name(index as int));
    r
}

/// Get device count
pub fn device_count(sub: &BlockSubsystem) -> (r: usize)
    ensures
        r == sub.devices().len(),
{
    sub.devices.len()
}

/// Get device info by index
pub fn get_device_info(sub: &BlockSubsystem, index: usize) -> (r: Option<BlockDeviceInfo>)
    ensures
        r == if index < sub.devices().len() {
            Some(sub.devices()[index as int].info)
        } else {
            None
        },
{
    if index < sub.devices.len() {
        Some(sub.devices[index].info)
    } else {
        None
    }
}

/// The first registered driver whose name is `name`.
fn find_driver(sub: &BlockSubsystem, name: &[u8; 32]) -> (r: Option<usize>)
    ensures
        r is None <==> driver_named(sub.drivers(), name@, sub.drivers().len() as int) is None,
        r matches Some(i) ==> driver_named(sub.drivers(), name@, sub.drivers().len() as int)
            == Some(i as int) && i < sub.drivers().len(),
{
    proof {
        lemma_named_range(sub.drivers@, name@, sub.drivers@.len() as int);
    }
    let mut i: usize = 0;
    while i < sub.drivers.len()
        invariant
            i <= sub.drivers@.len(),
            driver_named(sub.drivers@, name@, i as int) is None,
        decreases sub.drivers@.len() - i,
    {
        if bytes_equal(sub.drivers[i].name.as_slice(), name.as_slice()) {
            proof {
                lemma_named_stable(sub.drivers@, name@, i + 1, sub.drivers@.len() as int);
            }
            return Some(i);
        }
        i = i + 1;
    }
    None
}

proof fn lemma_named_range(d: Seq<BlockDriverOps>, key: Seq<u8>, n: int)
    ensures
        driver_named(d, key, n) matches Some(i) ==> 0 <= i < n,
    decreases n,
{
    if n > 0 {
        lemma_named_range(d, key, n - 1);
    }
}

proof fn lemma_named_stable(d: Seq<BlockDriverOps>, key: Seq<u8>, n: int, m: int)
    requires
        n <= m,
        driver_named(d, key, n) is Some,
    ensures
        driver_named(d, key, m) == driver_named(d, key, n),
    decreases m - n,
{
    if n < m {
        lemma_named_stable(d, key, n, m - 1);
    }
}

/// Route a transfer of `count` sectors of device `index`.
fn route(sub: &BlockSubsystem, index: usize, count: u32, buf_len: usize, write: bool) -> (r: Result<DriverCall, BlockError>)
    ensures
        match transfer_plan(sub.devices(), sub.drivers(), index, count, buf_len, write) {
            Ok((d, h)) => r matches Ok(c) && c.driver == d && c.handle.0 == h,
            Err(e) => r matches Err(x) && x == e,
        },
{
    if index >= sub.devices.len() {
        return Err(BlockError::NotFound);
    }
    let device = &sub.devices[index];
    if write && device.info.read_only {
        return Err(BlockError::ReadOnly);
    }
    let d = match find_driver(sub, &device.driver_name) {
        Some(d) => d,
        None => return Err(BlockError::DriverNotLoaded),
    };
    let has_op = if write {
        sub.drivers[d].write
    } else {
        sub.drivers[d].read
    };
    if !has_op {
        return Err(BlockError::InvalidOp);
    }
    proof {
        assert(count as u64 * device.info.sector_size as u64 <= u32::MAX * u32::MAX) by (nonlinear_arith)
            requires
                count <= u32::MAX,
                device.info.sector_size <= u32::MAX,
        ;
    }
    let required: u64 = count as u64 * device.info.sector_size as u64;
    if (buf_len as u64) < required {
        return Err(BlockError::Alignment);
    }
    Ok(DriverCall { driver: d, handle: device.handle })
}

/// Read sectors from a block device: the driver call that reads `count`
/// sectors into a buffer of `buf_len` bytes.
pub fn read_sectors(sub: &BlockSubsystem, index: usize, count: u32, buf_len: usize) -> (r: Result<DriverCall, BlockError>)
    ensures
        match transfer_plan(sub.devices(), sub.drivers(), index, count, buf_len, false) {
            Ok((d, h)) => r matches Ok(c) && c.driver == d && c.handle.0 == h,
            Err(e) => r matches Err(x) && x == e,
        },
{
    route(sub, index, count, buf_len, false)
}

/// Write sectors to a block device: the driver call that writes `count`
/// sectors from a buffer of `buf_len` bytes; a read-only device refuses.
pub fn write_sectors(sub: &BlockSubsystem, index: usize, count: u32, buf_len: usize) -> (r: Result<DriverCall, BlockError>)
    ensures
        match transfer_plan(sub.devices(), sub.drivers(), index, count, buf_len, true) {
            Ok((d, h)) => r matches Ok(c) && c.driver == d && c.handle.0 == h,
            Err(e) => r matches Err(x) && x == e,
        },
{
    route(sub, index, count, buf_len, true)
}

/// Whole sectors covering a byte range: the first sector, the count, the
/// bytes they hold, where the range starts in them, and how many of its
/// bytes they hold.
#[derive(Clone, Copy)]
pub struct ByteSpan {
    pub start_sector: u64,
    pub sector_count: u32,
    pub temp_size: u64,
    pub start_in_temp: usize,
    pub copy_len: usize,
}

/// The sectors that cover `len` bytes from `offset`.
pub open spec fn span_of(offset: u64, len: usize, ss: u64) -> ByteSpan {
    let start = offset / ss;
    let end_sector = (offset + len + ss - 1) / (ss as int);
    let count = (end_sector - start) as u32;
    let temp = count * ss;
    let sit = offset % ss;
    ByteSpan {
        start_sector: start,
        sector_count: count,
        temp_size: temp as u64,
        start_in_temp: sit as usize,
        copy_len: if (len as int) < temp - sit {
            len
        } else {
            (temp - sit) as usize
        },
    }
}

/// The inputs on which a byte range maps onto sectors without overflow.
pub open spec fn span_ok(offset: u64, len: usize, ss: u64) -> bool {
    &&& 0 < ss <= u32::MAX
    &&& offset + len + ss - 1 <= u64::MAX
    &&& (offset + len + ss - 1) / (ss as int) - offset / ss <= u32::MAX
}

/// Map `len > 0` bytes from `offset` onto whole sectors of `ss` bytes.
pub fn byte_span(offset: u64, len: usize, ss: u64) -> (r: ByteSpan)
    requires
        len > 0,
        span_ok(offset, len, ss),
    ensures
        r == span_of(offset, len, ss),
        r.start_in_temp as int + r.copy_len <= r.temp_size,
        r.copy_len <= len,
{
    let start = offset / ss;
    let end_offset = offset + len as u64;
    let end_sector = (end_offset + (ss - 1)) / ss;
    proof {
        assert(end_sector > start) by (nonlinear_arith)
            requires
                start == offset / ss,
                end_sector == (offset + len + ss - 1) / (ss as int),
                len > 0,
                ss > 0,
        ;
    }
    let count = (end_sector - start) as u32;
    proof {
        assert(count as int * ss <= u32::MAX * u64::MAX) by (nonlinear_arith)
            requires
                count <= u32::MAX,
                ss <= u64::MAX,
        ;
    }
    let temp: u128 = count as u128 * ss as u128;
    let sit: u64 = offset % ss;
    proof {
        assert(temp >= ss) by (nonlinear_arith)
            requires
                temp == count * ss,
                count >= 1,
                ss > 0,
        ;
        assert(temp <= u64::MAX) by (nonlinear_arith)
            requires
                temp == count * ss,
                count == end_sector - start,
                start == offset / ss,
                end_sector == (offset + len + ss - 1) / (ss as int),
                offset + len + ss - 1 <= u64::MAX,
                ss > 0,
        ;
    }
    let room: u64 = (temp - sit as u128) as u64;
    let copy_len: usize = if (len as u64) < room {
        len
    } else {
        room as usize
    };
    ByteSpan {
        start_sector: start,
        sector_count: count,
        temp_size: temp as u64,
        start_in_temp: sit as usize,
        copy_len,
    }
}

/// Read bytes at arbitrary offset: the sectors to read for `len` bytes
/// from `offset` of device `index`, or `None` for an empty read.
pub fn read_bytes(sub: &BlockSubsystem, index: usize, offset: u64, len: usize) -> (r: Result<Option<ByteSpan>, BlockError>)
    requires
        index < sub.devices().len() && len > 0 ==> span_ok(
            offset,
            len,
            sub.devices()[index as int].info.sector_size as u64,
        ),
    ensures
        r == if index >= sub.devices().len() {
            Err::<Option<ByteSpan>, BlockError>(BlockError::NotFound)
        } else if len == 0 {
            Ok(None)
        } else {
            Ok(Some(span_of(offset, len, sub.devices()[index as int].info.sector_size as u64)))
        },
{
    let info = match get_device_info(sub, index) {
        Some(i) => i,
        None => return Err(BlockError::NotFound),
    };
    if len == 0 {
        return Ok(None);
    }
    Ok(Some(byte_span(offset, len, info.sector_size as u64)))
}

/// Copy the bytes of a span out of the sectors read for it.
pub fn copy_from_sectors(temp: &[u8], span: &ByteSpan, buf: &mut Vec<u8>)
    requires
        span.start_in_temp + span.copy_len <= temp@.len(),
        span.copy_len <= old(buf)@.len(),
    ensures
        final(buf)@ == temp@.subrange(
            span.start_in_temp as int,
            span.start_in_temp + span.copy_len,
        ) + old(buf)@.skip(span.copy_len as int),
{
    let tl = temp.len();
    let mut i: usize = 0;
    while i < span.copy_len
        invariant
            tl == temp@.len(),
            i <= span.copy_len,
            span.start_in_temp + span.copy_len <= temp@.len(),
            buf@.len() == old(buf)@.len(),
            span.copy_len <= buf@.len(),
            forall|k: int| 0 <= k < i ==> #[trigger] buf@[k] == temp@[span.start_in_temp + k],
            forall|k: int| i <= k < buf@.len() ==> #[trigger] buf@[k] == old(buf)@[k],
        decreases span.copy_len - i,
    {
        buf.set(i, temp[span.start_in_temp + i]);
        i = i + 1;
    }
    assert(buf@ =~= temp@.subrange(
        span.start_in_temp as int,
        span.start_in_temp + span.copy_len,
    ) + old(buf)@.skip(span.copy_len as int));
}

/// How a write of bytes goes to sectors: whole sectors straight from the
/// buffer, or a read-modify-write of the covering sectors.
#[derive(Clone, Copy)]
pub enum WritePlan {
    Aligned { start_sector: u64, sector_count: u32 },
    Patch { span: ByteSpan },
}

/// The plan for writing `len` bytes at `offset` on sectors of `ss` bytes.
pub open spec fn write_plan_of(offset: u64, len: usize, ss: u64) -> WritePlan {
    if offset % ss != 0 || len as int % ss as int != 0 {
        WritePlan::Patch { span: span_of(offset, len, ss) }
    } else {
        WritePlan::Aligned { start_sector: offset / ss, sector_count: (len as int / ss as int) as u32 }
    }
}

/// Write bytes at arbitrary offset (callable from modules): the plan for
/// writing `len` bytes at `offset` on device `index`, or `None` for an
/// empty write.
pub fn kmod_blk_write_bytes(sub: &BlockSubsystem, index: usize, offset: u64, len: usize) -> (r: Result<Option<WritePlan>, BlockError>)
    requires
        index < sub.devices().len() && len > 0 ==> span_ok(
            offset,
            len,
            sub.devices()[index as int].info.sector_size as u64,
        ),
    ensures
        r == if len == 0 {
            Ok::<Option<WritePlan>, BlockError>(None)
        } else if index >= sub.devices().len() {
            Err(BlockError::NotFound)
        } else {
            Ok(Some(write_plan_of(offset, len, sub.devices()[index as int].info.sector_size as u64)))
        },
{
    if len == 0 {
        return Ok(None);
    }
    let info = match get_device_info(sub, index) {
        Some(i) => i,
        None => return Err(BlockError::NotFound),
    };
    let ss = info.sector_size as u64;
    let offset_in_sector = offset % ss;
    if offset_in_sector != 0 || (len as u64) % ss != 0 {
        Ok(Some(WritePlan::Patch { span: byte_span(offset, len, ss) }))
    } else {
        Ok(Some(WritePlan::Aligned { start_sector: offset / ss, sector_count: ((len as u64) / ss) as u32 }))
    }
}

/// Put the bytes of a write into the sectors read for it.
pub fn patch_sectors(temp: &mut Vec<u8>, start: usize, data: &[u8])
    requires
        start + data@.len() <= old(temp)@.len(),
    ensures
        final(temp)@ == old(temp)@.take(start as int) + data@ + old(temp)@.skip(
            start + data@.len(),
        ),
{
    let tl = temp.len();
    let mut i: usize = 0;
    while i < data.len()
        invariant
            tl == old(temp)@.len(),
            i <= data@.len(),
            start + data@.len() <= old(temp)@.len(),
            temp@.len() == old(temp)@.len(),
            forall|k: int| 0 <= k < start ==> #[trigger] temp@[k] == old(temp)@[k],
            forall|k: int| 0 <= k < i ==> #[trigger] temp@[start + k] == data@[k],
            forall|k: int| start + i <= k < temp@.len() ==> #[trigger] temp@[k] == old(temp)@[k],
        decreases data@.len() - i,
    {
        temp.set(start + i, data[i]);
        i = i + 1;
    }
    let ghost target = old(temp)@.take(start as int) + data@ + old(temp)@.skip(
        start + data@.len(),
    );
    assert forall|k: int| 0 <= k < temp@.len() implies temp@[k] == target[k] by {
        if start <= k < start + data@.len() {
            assert(temp@[start + (k - start)] == data@[k - start]);
        }
    }
    assert(temp@ =~= target);
}

/// Find block device by PCI address
pub fn find_by_pci(sub: &BlockSubsystem, bus: u8, device: u8, function: u8) -> (r: Option<usize>)
    requires
        sub.wf(),
    ensures
        r == match device_at(sub.devices(), bus, device, function, sub.devices().len() as int) {
            Some(i) => Some(i as usize),
            None => None::<usize>,
        },
{
    let mut i: usize = 0;
    while i < sub.devices.len()
        invariant
            i <= sub.devices@.len(),
            sub.wf(),
            device_at(sub.devices@, bus, device, function, i as int) is None,
        decreases sub.devices@.len() - i,
    {
        let d = &sub.devices[i];
        if d.info.pci_bus == bus && d.info.pci_device == device && d.info.pci_function == function {
            proof {
                lemma_at_stable(sub.devices@, bus, device, function, i + 1, sub.devices@.len() as int);
            }
            return Some(d.index);
        }
        i = i + 1;
    }
    None
}

proof fn lemma_at_stable(d: Seq<BlockDevice>, bus: u8, device: u8, function: u8, n: int, m: int)
    requires
        n <= m,
        device_at(d, bus, device, function, n) is Some,
    ensures
        device_at(d, bus, device, function, m) == device_at(d, bus, device, function, n),
    decreases m - n,
{
    if n < m {
        lemma_at_stable(d, bus, device, function, n, m - 1);
    }
}

/// Get block device count (callable from modules)
pub fn kmod_blk_device_count(sub: &BlockSubsystem) -> (r: usize)
    ensures
        r == sub.devices().len(),
{
    device_count(sub)
}

/// Find the first block device (for rootfs mount): device 0, or -1 when
/// there is none.
pub fn kmod_blk_find_rootfs(sub: &BlockSubsystem) -> (r: i32)
    ensures
        r == if sub.devices().len() > 0 {
            0i32
        } else {
            -1i32
        },
{
    if device_count(sub) > 0 {
        0
    } else {
        -1
    }
}


/// A read of bytes `[start, start + data.len())` from sectors just patched
/// with `data` there gives `data` back, as `patch_sectors` and
/// `copy_from_sectors` state it.
pub proof fn law_read_after_patch(temp: Seq<u8>, start: int, data: Seq<u8>, buf: Seq<u8>)
    requires
        0 <= start,
        start + data.len() <= temp.len(),
        data.len() <= buf.len(),
    ensures
        ({
            let patched = temp.take(start) + data + temp.skip(start + data.len());
            (patched.subrange(start, start + data.len()) + buf.skip(data.len() as int)).take(data.len() as int) == data
        }),
{
    let patched = temp.take(start) + data + temp.skip(start + data.len());
    assert(patched.subrange(start, start + data.len()) =~= data);
    assert((data + buf.skip(data.len() as int)).take(data.len() as int) =~= data);
}

/// `n` holds the devices of `o`, each unchanged, at the same indices, and
/// maybe more after them.
pub open spec fn devices_kept(o: Seq<BlockDevice>, n: Seq<BlockDevice>) -> bool {
    &&& o.len() <= n.len()
    &&& forall|i: int| 0 <= i < o.len() ==> #[trigger] n[i] == o[i]
}

/// What one call does to the devices: registering and unregistering
/// drivers, `init` and every probe step leave them as they are; a
/// successful `probe_info_returned` appends one.
pub open spec fn devices_step(o: Seq<BlockDevice>, n: Seq<BlockDevice>) -> bool {
    n == o || (n.len() == o.len() + 1 && n.drop_last() == o)
}

/// Law: devices are never dropped or changed.  After any call the devices
/// registered before are still there with the information captured when
/// they were probed, the count never goes down and grows by at most one,
/// and a device added is at the next index.
pub proof fn law_devices_kept(o: Seq<BlockDevice>, n: Seq<BlockDevice>)
    requires
        devices_step(o, n),
    ensures
        devices_kept(o, n),
        n.len() == o.len() || n.len() == o.len() + 1,
        n.len() == o.len() + 1 ==> n.drop_last() == o,
{
    if n != o {
        assert forall|i: int| 0 <= i < o.len() implies #[trigger] n[i] == o[i] by {
            assert(n.drop_last()[i] == n[i]);
        }
    }
}

/// Law: keeping the devices carries over any number of calls.
pub proof fn law_devices_kept_chain(a: Seq<BlockDevice>, b: Seq<BlockDevice>, c: Seq<BlockDevice>)
    requires
        devices_kept(a, b),
        devices_kept(b, c),
    ensures
        devices_kept(a, c),
{
    assert forall|i: int| 0 <= i < a.len() implies #[trigger] c[i] == a[i] by {
        assert(c[i] == b[i]);
    }
}

} // verus!
