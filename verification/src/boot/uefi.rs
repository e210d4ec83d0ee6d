//! Devices handed over by the UEFI loader
//!
//! The loader describes the framebuffer and the network, block, USB host
//! and HID devices it found.  Up to eight of each kind are kept in fixed
//! tables, slot `i` for the `i`-th device the loader listed; device nodes
//! and devfs entries are then made for them.

use vstd::prelude::*;
use crate::bootinfo::{PciBarInfo, PciDeviceInfo, first_at, pci_device_by_location};

verus! {

pub const MAX_NETWORK_DEVICES: usize = 8;
pub const MAX_BLOCK_DEVICES: usize = 8;
pub const MAX_USB_HOSTS: usize = 8;
pub const MAX_HID_DEVICES: usize = 8;

/// Access mode of the device nodes made for boot devices.
pub const DEVICE_NODE_MODE: u16 = 0o660;

/// The framebuffer the loader set up.
#[derive(Clone, Copy, Debug, PartialEq, Eq, Structural)]
pub struct FramebufferInfo {
    pub address: u64,
    pub pitch: u32,
    pub width: u32,
    pub height: u32,
    pub bpp: u8,
}

/// A network device the loader found, by PCI location.
#[derive(Clone, Copy, Debug, PartialEq, Eq, Structural)]
pub struct NetworkDeviceInfo {
    pub pci_segment: u16,
    pub pci_bus: u8,
    pub pci_device: u8,
    pub pci_function: u8,
}

/// A block device the loader found.
#[derive(Clone, Copy, Debug, PartialEq, Eq, Structural)]
pub struct BlockDeviceInfo {
    pub pci_segment: u16,
    pub pci_bus: u8,
    pub pci_device: u8,
    pub pci_function: u8,
    pub block_size: u32,
    pub last_block: u64,
}

/// A USB host controller the loader found.
#[derive(Clone, Copy, Debug, PartialEq, Eq, Structural)]
pub struct UsbHostInfo {
    pub controller_type: u8,
    pub mmio_base: u64,
    pub mmio_size: u64,
    pub interrupt_line: u8,
}

/// A HID input device the loader found.
#[derive(Clone, Copy, Debug, PartialEq, Eq, Structural)]
pub struct HidInputInfo {
    pub device_type: u8,
    pub protocol: u8,
}

#[derive(Clone, Copy, Debug, PartialEq, Eq, Structural)]
pub struct NetworkDescriptor {
    pub info: NetworkDeviceInfo,
    pub mmio_base: u64,
    pub mmio_length: u64,
    pub bar_flags: u32,
    pub interrupt_line: u8,
    pub interrupt_pin: u8,
}

#[derive(Clone, Copy, Debug, PartialEq, Eq, Structural)]
pub struct BlockDescriptor {
    pub info: BlockDeviceInfo,
    pub mmio_base: u64,
    pub mmio_length: u64,
    pub bar_flags: u32,
    pub interrupt_line: u8,
    pub interrupt_pin: u8,
}

#[derive(Clone, Copy, Debug, PartialEq, Eq, Structural)]
pub struct UsbHostDescriptor {
    pub info: UsbHostInfo,
    pub mmio_base: u64,
    pub mmio_size: u64,
    pub interrupt_line: u8,
}

#[derive(Clone, Copy, Debug, PartialEq, Eq, Structural)]
pub struct HidInputDescriptor {
    pub info: HidInputInfo,
}

/// How many devices of each kind are kept.
#[derive(Clone, Copy, Debug, PartialEq, Eq, Structural)]
pub struct CompatCounts {
    pub framebuffer: u8,
    pub network: u8,
    pub block: u8,
    pub usb_host: u8,
    pub hid_input: u8,
}

/// Kinds of boot device nodes.
#[derive(Clone, Copy, Debug, PartialEq, Eq, Structural)]
pub enum NodeKind {
    Network,
    Block,
    UsbHost,
    HidInput,
    Framebuffer,
}

/// A step of installing the boot devices' nodes.
#[derive(Clone, Copy, Debug, PartialEq, Eq, Structural)]
pub enum CompatAction {
    /// Make the node for device `index` of `kind` (a block node for block
    /// devices, else a character node), mode `DEVICE_NODE_MODE`.
    Register { kind: NodeKind, index: u8 },
    /// Hand network descriptor `index` to the network stack.
    IngestNetwork { index: u8 },
}

/// A device entered in devfs.
#[derive(Clone, Copy, Debug, PartialEq, Eq, Structural)]
pub struct DevfsDevice {
    pub kind: NodeKind,
    pub index: u8,
}

/// A memory-mapped register range usable by the kernel: no I/O ports, a
/// nonzero base.
pub open spec fn usable_bar(b: PciBarInfo) -> bool {
    b.base != 0 && !b.io_space
}

/// Index of the first usable register among the first `n` (with a
/// nonzero length where `sized`).
pub open spec fn first_bar(bars: Seq<PciBarInfo>, n: int, sized: bool) -> Option<int>
    decreases n,
{
    if n <= 0 {
        None
    } else {
        match first_bar(bars, n - 1, sized) {
            Some(k) => Some(k),
            None => if usable_bar(bars[n - 1]) && (!sized || bars[n - 1].length != 0) {
                Some(n - 1)
            } else {
                None
            },
        }
    }
}

/// The register chosen for a device's memory: the first usable one with
/// a length, else the first usable one.
pub open spec fn chosen_bar(bars: Seq<PciBarInfo>) -> Option<PciBarInfo> {
    match first_bar(bars, bars.len() as int, true) {
        Some(k) => Some(bars[k]),
        None => match first_bar(bars, bars.len() as int, false) {
            Some(k) => Some(bars[k]),
            None => None,
        },
    }
}

/// Length of a register range: its own, one page for a range with a base
/// but no length, none without a base.
pub open spec fn bar_length(b: PciBarInfo) -> Option<u64> {
    if b.length != 0 {
        Some(b.length)
    } else if b.base != 0 {
        Some(0x1000)
    } else {
        None
    }
}

pub open spec fn bar_base(b: Option<PciBarInfo>) -> u64 {
    match b {
        Some(bar) => bar.base,
        None => 0,
    }
}

pub open spec fn bar_len(b: Option<PciBarInfo>) -> u64 {
    match b {
        Some(bar) => match bar_length(bar) {
            Some(l) => l,
            None => 0,
        },
        None => 0,
    }
}

pub open spec fn bar_flags_of(b: Option<PciBarInfo>) -> u32 {
    match b {
        Some(bar) => bar.bar_flags,
        None => 0,
    }
}

/// The descriptor kept for a network device on PCI device `pci`.
pub open spec fn network_desc(net: NetworkDeviceInfo, pci: PciDeviceInfo) -> NetworkDescriptor {
    NetworkDescriptor {
        info: net,
        mmio_base: bar_base(chosen_bar(pci.bars@)),
        mmio_length: bar_len(chosen_bar(pci.bars@)),
        bar_flags: bar_flags_of(chosen_bar(pci.bars@)),
        interrupt_line: pci.interrupt_line,
        interrupt_pin: pci.interrupt_pin,
    }
}

/// The descriptor kept for a block device, with or without its PCI device.
pub open spec fn block_desc(block: BlockDeviceInfo, pci: Option<PciDeviceInfo>) -> BlockDescriptor {
    match pci {
        Some(p) => BlockDescriptor {
            info: block,
            mmio_base: bar_base(chosen_bar(p.bars@)),
            mmio_length: bar_len(chosen_bar(p.bars@)),
            bar_flags: bar_flags_of(chosen_bar(p.bars@)),
            interrupt_line: p.interrupt_line,
            interrupt_pin: p.interrupt_pin,
        },
        None => BlockDescriptor {
            info: block,
            mmio_base: 0,
            mmio_length: 0,
            bar_flags: 0,
            interrupt_line: 0,
            interrupt_pin: 0,
        },
    }
}

/// Network slot `i` after the loader's list is taken in: a descriptor
/// where the device's PCI device is known, else empty.
pub open spec fn network_slot(nets: Seq<NetworkDeviceInfo>, pci: Seq<PciDeviceInfo>, i: int) -> Option<NetworkDescriptor> {
    if i < nets.len() {
        match first_at(pci, pci.len() as int, nets[i].pci_segment, nets[i].pci_bus, nets[i].pci_device, nets[i].pci_function) {
            Some(k) => Some(network_desc(nets[i], pci[k])),
            None => None,
        }
    } else {
        None
    }
}

/// Block slot `i` after the loader's list is taken in.
pub open spec fn block_slot(blocks: Seq<BlockDeviceInfo>, pci: Seq<PciDeviceInfo>, i: int) -> Option<BlockDescriptor> {
    if i < blocks.len() {
        Some(block_desc(
            blocks[i],
            match first_at(pci, pci.len() as int, blocks[i].pci_segment, blocks[i].pci_bus, blocks[i].pci_device, blocks[i].pci_function) {
                Some(k) => Some(pci[k]),
                None => None,
            },
        ))
    } else {
        None
    }
}

/// Number of full slots among the first `n`.
pub open spec fn count_some<T>(s: Seq<Option<T>>, n: int) -> nat
    decreases n,
{
    if n <= 0 {
        0
    } else {
        count_some(s, n - 1) + if s[n - 1] is Some {
            1nat
        } else {
            0nat
        }
    }
}

/// A table has no more full slots than slots.
proof fn lemma_count_some_le<T>(s: Seq<Option<T>>, n: int)
    requires
        n >= 0,
    ensures
        count_some(s, n) <= n,
    decreases n,
{
    if n > 0 {
        lemma_count_some_le(s, n - 1);
    }
}

/// Node steps for slots `[0, k)` of a table whose full slots are `full`.
pub open spec fn node_steps(full: Seq<bool>, k: int, kind: NodeKind) -> Seq<CompatAction>
    decreases k,
{
    if k <= 0 {
        Seq::empty()
    } else {
        node_steps(full, k - 1, kind) + if full[k - 1] {
            if kind == NodeKind::Network {
                seq![
                    CompatAction::Register { kind, index: (k - 1) as u8 },
                    CompatAction::IngestNetwork { index: (k - 1) as u8 },
                ]
            } else {
                seq![CompatAction::Register { kind, index: (k - 1) as u8 }]
            }
        } else {
            Seq::empty()
        }
    }
}

/// Devfs entries `[0, k)` of a kind.
pub open spec fn devfs_steps(k: int, kind: NodeKind) -> Seq<DevfsDevice>
    decreases k,
{
    if k <= 0 {
        Seq::empty()
    } else {
        devfs_steps(k - 1, kind).push(DevfsDevice { kind, index: (k - 1) as u8 })
    }
}

/// Boot device tables.
pub struct UefiCompat {
    framebuffer: Option<FramebufferInfo>,
    network: Vec<Option<NetworkDescriptor>>,
    block: Vec<Option<BlockDescriptor>>,
    usb: Vec<Option<UsbHostDescriptor>>,
    hid: Vec<Option<HidInputDescriptor>>,
}

/// What the tables hold.
pub struct CompatView {
    pub framebuffer: Option<FramebufferInfo>,
    pub network: Seq<Option<NetworkDescriptor>>,
    pub block: Seq<Option<BlockDescriptor>>,
    pub usb: Seq<Option<UsbHostDescriptor>>,
    pub hid: Seq<Option<HidInputDescriptor>>,
}

/// The counts of a view.
pub open spec fn view_counts(v: CompatView) -> CompatCounts {
    CompatCounts {
        framebuffer: if v.framebuffer is Some {
            1
        } else {
            0
        },
        network: count_some(v.network, v.network.len() as int) as u8,
        block: count_some(v.block, v.block.len() as int) as u8,
        usb_host: count_some(v.usb, v.usb.len() as int) as u8,
        hid_input: count_some(v.hid, v.hid.len() as int) as u8,
    }
}

/// Whether anything is there to install: a framebuffer, a network or a
/// block device.
pub open spec fn has_devices(c: CompatCounts) -> bool {
    !(c.framebuffer == 0 && c.network == 0 && c.block == 0)
}

/// The steps `install_device_nodes` takes on a view.
pub open spec fn install_steps(v: CompatView) -> Seq<CompatAction> {
    let c = view_counts(v);
    if has_devices(c) {
        node_steps(v.network.map_values(|e: Option<NetworkDescriptor>| e is Some), c.network as int, NodeKind::Network)
            + node_steps(v.block.map_values(|e: Option<BlockDescriptor>| e is Some), c.block as int, NodeKind::Block)
            + node_steps(v.usb.map_values(|e: Option<UsbHostDescriptor>| e is Some), c.usb_host as int, NodeKind::UsbHost)
            + node_steps(v.hid.map_values(|e: Option<HidInputDescriptor>| e is Some), c.hid_input as int, NodeKind::HidInput)
            + if c.framebuffer != 0 {
            seq![CompatAction::Register { kind: NodeKind::Framebuffer, index: 0 }]
        } else {
            Seq::empty()
        }
    } else {
        Seq::empty()
    }
}

/// The devfs entries `register_devfs_devices` makes for a view.
pub open spec fn devfs_entries(v: CompatView) -> Seq<DevfsDevice> {
    let c = view_counts(v);
    if has_devices(c) {
        devfs_steps(c.network as int, NodeKind::Network) + devfs_steps(c.block as int, NodeKind::Block)
            + if c.framebuffer != 0 {
            seq![DevfsDevice { kind: NodeKind::Framebuffer, index: 0 }]
        } else {
            Seq::empty()
        }
    } else {
        Seq::empty()
    }
}

/// Length of a register range, as the kernel maps it (see `bar_length`).
pub fn normalized_length(bar: PciBarInfo) -> (r: Option<u64>)
    ensures
        r == bar_length(bar),
{
    if bar.length != 0 {
        Some(bar.length)
    } else if bar.base != 0 {
        Some(0x1000)
    } else {
        None
    }
}

/// The first usable register among `bars` (with a length where `sized`).
fn first_usable_bar(bars: &Vec<PciBarInfo>, sized: bool) -> (r: Option<usize>)
    ensures
        r matches Some(k) ==> first_bar(bars@, bars@.len() as int, sized) == Some(k as int) && k < bars@.len(),
        r is None ==> first_bar(bars@, bars@.len() as int, sized) is None,
{
    let mut i: usize = 0;
    while i < bars.len()
        invariant
            i <= bars@.len(),
            first_bar(bars@, i as int, sized) is None,
        decreases bars@.len() - i,
    {
        let b = bars[i];
        if b.base != 0 && !b.io_space && (!sized || b.length != 0) {
            proof {
                lemma_first_bar_stable(bars@, i + 1, bars@.len() as int, sized);
            }
            return Some(i);
        }
        i = i + 1;
    }
    None
}

proof fn lemma_first_bar_stable(bars: Seq<PciBarInfo>, n: int, m: int, sized: bool)
    requires
        0 <= n <= m,
        first_bar(bars, n, sized) is Some,
    ensures
        first_bar(bars, m, sized) == first_bar(bars, n, sized),
    decreases m - n,
{
    if m > n {
        lemma_first_bar_stable(bars, n, m - 1, sized);
    }
}

/// The register of a PCI device that maps its memory (see `chosen_bar`).
pub fn select_mmio_bar(pci: &PciDeviceInfo) -> (r: Option<PciBarInfo>)
    ensures
        r == chosen_bar(pci.bars@),
{
    match first_usable_bar(&pci.bars, true) {
        Some(k) => Some(pci.bars[k]),
        None => match first_usable_bar(&pci.bars, false) {
            Some(k) => Some(pci.bars[k]),
            None => None,
        },
    }
}

/// Bytes mapped for a register range at `base`: none without a base, one
/// page for an empty range, else its length, cut to the address width.
pub fn mmio_span(base: u64, length: u64) -> (r: Option<usize>)
    ensures
        base == 0 ==> r is None,
        base != 0 ==> r == Some((if length == 0 {
            0x1000u64
        } else {
            length
        } as usize)) || (r == Some(usize::MAX) && length as int > usize::MAX),
        base != 0 && (length as int) <= usize::MAX ==> r == Some((if length == 0 {
            0x1000
        } else {
            length
        }) as usize),
        base != 0 && (length as int) > usize::MAX ==> r == Some(usize::MAX),
{
    if base == 0 {
        return None;
    }
    let span: u64 = if length == 0 {
        0x1000
    } else {
        length
    };
    if span as u128 > usize::MAX as u128 {
        Some(usize::MAX)
    } else {
        Some(span as usize)
    }
}

fn empty_table<T>(n: usize) -> (r: Vec<Option<T>>)
    ensures
        r@.len() == n,
        forall|i: int| 0 <= i < n ==> r@[i] is None,
{
    let mut v: Vec<Option<T>> = Vec::new();
    let mut i: usize = 0;
    while i < n
        invariant
            i <= n,
            v@.len() == i,
            forall|j: int| 0 <= j < i ==> v@[j] is None,
        decreases n - i,
    {
        v.push(None);
        i = i + 1;
    }
    v
}

impl UefiCompat {
    pub closed spec fn view(&self) -> CompatView {
        CompatView {
            framebuffer: self.framebuffer,
            network: self.network@,
            block: self.block@,
            usb: self.usb@,
            hid: self.hid@,
        }
    }

    /// Each table has its eight slots.
    pub closed spec fn wf(&self) -> bool {
        self.network@.len() == MAX_NETWORK_DEVICES && self.block@.len() == MAX_BLOCK_DEVICES
            && self.usb@.len() == MAX_USB_HOSTS && self.hid@.len() == MAX_HID_DEVICES
    }

    /// Empty tables.
    pub fn new() -> (r: Self)
        ensures
            r.wf(),
            r.view().framebuffer is None,
            forall|i: int| 0 <= i < 8 ==> r.view().network[i] is None && r.view().block[i] is None
                && r.view().usb[i] is None && r.view().hid[i] is None,
    {
        UefiCompat {
            framebuffer: None,
            network: empty_table(MAX_NETWORK_DEVICES),
            block: empty_table(MAX_BLOCK_DEVICES),
            usb: empty_table(MAX_USB_HOSTS),
            hid: empty_table(MAX_HID_DEVICES),
        }
    }

    /// Forget every boot device.
    pub fn reset(&mut self)
        ensures
            final(self).wf(),
            final(self).view().framebuffer is None,
            forall|i: int| 0 <= i < 8 ==> final(self).view().network[i] is None && final(self).view().block[i]
                is None && final(self).view().usb[i] is None && final(self).view().hid[i] is None,
    {
        *self = UefiCompat::new();
    }

    /// Take in the loader's lists: the framebuffer, then the network,
    /// block, USB host and HID devices (see the `*_slot` functions).
    pub fn init(
        &mut self,
        framebuffer: Option<FramebufferInfo>,
        nets: &[NetworkDeviceInfo],
        blocks: &[BlockDeviceInfo],
        usbs: &[UsbHostInfo],
        hids: &[HidInputInfo],
        pci: &[PciDeviceInfo],
    )
        requires
            old(self).wf(),
        ensures
            final(self).wf(),
            final(self).view().framebuffer == framebuffer,
            forall|i: int| 0 <= i < 8 ==> final(self).view().network[i] == network_slot(nets@, pci@, i),
            forall|i: int| 0 <= i < 8 ==> final(self).view().block[i] == block_slot(blocks@, pci@, i),
            forall|i: int|
                0 <= i < 8 ==> final(self).view().usb[i] == (if i < usbs@.len() {
                    Some(UsbHostDescriptor { info: usbs@[i], mmio_base: usbs@[i].mmio_base, mmio_size: usbs@[i].mmio_size, interrupt_line: usbs@[i].interrupt_line })
                } else {
                    None
                }),
            forall|i: int|
                0 <= i < 8 ==> final(self).view().hid[i] == (if i < hids@.len() {
                    Some(HidInputDescriptor { info: hids@[i] })
                } else {
                    None
                }),
    {
        self.framebuffer = framebuffer;
        self.populate_network_devices(nets, pci);
        self.populate_block_devices(blocks, pci);
        self.populate_usb_host_devices(usbs);
        self.populate_hid_input_devices(hids);
    }

    /// Fill the network table: slot `i` for the loader's `i`-th device,
    /// left empty where its PCI device is unknown; devices past the
    /// eighth are dropped.
    pub fn populate_network_devices(&mut self, nets: &[NetworkDeviceInfo], pci: &[PciDeviceInfo])
        requires
            old(self).wf(),
        ensures
            final(self).wf(),
            final(self).view().framebuffer == old(self).view().framebuffer,
            final(self).view().block == old(self).view().block,
            final(self).view().usb == old(self).view().usb,
            final(self).view().hid == old(self).view().hid,
            forall|i: int| 0 <= i < 8 ==> final(self).view().network[i] == network_slot(nets@, pci@, i),
    {
        let mut table = empty_table(MAX_NETWORK_DEVICES);
        let mut idx: usize = 0;
        while idx < nets.len() && idx < MAX_NETWORK_DEVICES
            invariant
                idx <= MAX_NETWORK_DEVICES,
                idx <= nets@.len(),
                table@.len() == MAX_NETWORK_DEVICES,
                forall|i: int| 0 <= i < idx ==> table@[i] == network_slot(nets@, pci@, i),
                forall|i: int| idx <= i < MAX_NETWORK_DEVICES ==> table@[i] is None,
            decreases MAX_NETWORK_DEVICES - idx,
        {
            let net = nets[idx];
            match pci_device_by_location(pci, net.pci_segment, net.pci_bus, net.pci_device, net.pci_function) {
                Some(k) => {
                    let p = &pci[k];
                    let mmio = select_mmio_bar(p);
                    let descriptor = NetworkDescriptor {
                        info: net,
                        mmio_base: match mmio {
                            Some(bar) => bar.base,
                            None => 0,
                        },
                        mmio_length: match mmio {
                            Some(bar) => match normalized_length(bar) {
                                Some(l) => l,
                                None => 0,
                            },
                            None => 0,
                        },
                        bar_flags: match mmio {
                            Some(bar) => bar.bar_flags,
                            None => 0,
                        },
                        interrupt_line: p.interrupt_line,
                        interrupt_pin: p.interrupt_pin,
                    };
                    table.set(idx, Some(descriptor));
                },
                None => {},
            }
            idx = idx + 1;
        }
        self.network = table;
    }

    /// Fill the block table: slot `i` for the loader's `i`-th device, with
    /// its PCI device's memory and interrupt where known; devices past the
    /// eighth are dropped.
    pub fn populate_block_devices(&mut self, blocks: &[BlockDeviceInfo], pci: &[PciDeviceInfo])
        requires
            old(self).wf(),
        ensures
            final(self).wf(),
            final(self).view().framebuffer == old(self).view().framebuffer,
            final(self).view().network == old(self).view().network,
            final(self).view().usb == old(self).view().usb,
            final(self).view().hid == old(self).view().hid,
            forall|i: int| 0 <= i < 8 ==> final(self).view().block[i] == block_slot(blocks@, pci@, i),
    {
        let mut table = empty_table(MAX_BLOCK_DEVICES);
        let mut idx: usize = 0;
        while idx < blocks.len() && idx < MAX_BLOCK_DEVICES
            invariant
                idx <= MAX_BLOCK_DEVICES,
                idx <= blocks@.len(),
                table@.len() == MAX_BLOCK_DEVICES,
                forall|i: int| 0 <= i < idx ==> table@[i] == block_slot(blocks@, pci@, i),
                forall|i: int| idx <= i < MAX_BLOCK_DEVICES ==> table@[i] is None,
            decreases MAX_BLOCK_DEVICES - idx,
        {
            let block = blocks[idx];
            let descriptor = match pci_device_by_location(pci, block.pci_segment, block.pci_bus, block.pci_device, block.pci_function) {
                Some(k) => {
                    let p = &pci[k];
                    let mmio = select_mmio_bar(p);
                    BlockDescriptor {
                        info: block,
                        mmio_base: match mmio {
                            Some(bar) => bar.base,
                            None => 0,
                        },
                        mmio_length: match mmio {
                            Some(bar) => match normalized_length(bar) {
                                Some(l) => l,
                                None => 0,
                            },
                            None => 0,
                        },
                        bar_flags: match mmio {
                            Some(bar) => bar.bar_flags,
                            None => 0,
                        },
                        interrupt_line: p.interrupt_line,
                        interrupt_pin: p.interrupt_pin,
                    }
                },
                None => BlockDescriptor {
                    info: block,
                    mmio_base: 0,
                    mmio_length: 0,
                    bar_flags: 0,
                    interrupt_line: 0,
                    interrupt_pin: 0,
                },
            };
            table.set(idx, Some(descriptor));
            idx = idx + 1;
        }
        self.block = table;
    }

    /// Fill the USB host table from the loader's list (at most eight).
    pub fn populate_usb_host_devices(&mut self, usbs: &[UsbHostInfo])
        requires
            old(self).wf(),
        ensures
            final(self).wf(),
            final(self).view().framebuffer == old(self).view().framebuffer,
            final(self).view().network == old(self).view().network,
            final(self).view().block == old(self).view().block,
            final(self).view().hid == old(self).view().hid,
            forall|i: int|
                0 <= i < 8 ==> final(self).view().usb[i] == (if i < usbs@.len() {
                    Some(UsbHostDescriptor { info: usbs@[i], mmio_base: usbs@[i].mmio_base, mmio_size: usbs@[i].mmio_size, interrupt_line: usbs@[i].interrupt_line })
                } else {
                    None
                }),
    {
        let mut table = empty_table(MAX_USB_HOSTS);
        let mut idx: usize = 0;
        while idx < usbs.len() && idx < MAX_USB_HOSTS
            invariant
                idx <= MAX_USB_HOSTS,
                idx <= usbs@.len(),
                table@.len() == MAX_USB_HOSTS,
                forall|i: int|
                    0 <= i < idx ==> table@[i] == Some(UsbHostDescriptor { info: usbs@[i], mmio_base: usbs@[i].mmio_base, mmio_size: usbs@[i].mmio_size, interrupt_line: usbs@[i].interrupt_line }),
                forall|i: int| idx <= i < MAX_USB_HOSTS ==> table@[i] is None,
            decreases MAX_USB_HOSTS - idx,
        {
            let usb = usbs[idx];
            table.set(idx, Some(UsbHostDescriptor { info: usb, mmio_base: usb.mmio_base, mmio_size: usb.mmio_size, interrupt_line: usb.interrupt_line }));
            idx = idx + 1;
        }
        self.usb = table;
    }

    /// Fill the HID table from the loader's list (at most eight).
    pub fn populate_hid_input_devices(&mut self, hids: &[HidInputInfo])
        requires
            old(self).wf(),
        ensures
            final(self).wf(),
            final(self).view().framebuffer == old(self).view().framebuffer,
            final(self).view().network == old(self).view().network,
            final(self).view().block == old(self).view().block,
            final(self).view().usb == old(self).view().usb,
            forall|i: int|
                0 <= i < 8 ==> final(self).view().hid[i] == (if i < hids@.len() {
                    Some(HidInputDescriptor { info: hids@[i] })
                } else {
                    None
                }),
    {
        let mut table = empty_table(MAX_HID_DEVICES);
        let mut idx: usize = 0;
        while idx < hids.len() && idx < MAX_HID_DEVICES
            invariant
                idx <= MAX_HID_DEVICES,
                idx <= hids@.len(),
                table@.len() == MAX_HID_DEVICES,
                forall|i: int| 0 <= i < idx ==> table@[i] == Some(HidInputDescriptor { info: hids@[i] }),
                forall|i: int| idx <= i < MAX_HID_DEVICES ==> table@[i] is None,
            decreases MAX_HID_DEVICES - idx,
        {
            table.set(idx, Some(HidInputDescriptor { info: hids[idx] }));
            idx = idx + 1;
        }
        self.hid = table;
    }

    /// How many devices of each kind are kept.
    pub fn counts(&self) -> (r: CompatCounts)
        requires
            self.wf(),
        ensures
            r == view_counts(self.view()),
    {
        CompatCounts {
            framebuffer: if self.framebuffer.is_some() {
                1
            } else {
                0
            },
            network: count_table(&self.network),
            block: count_table(&self.block),
            usb_host: count_table(&self.usb),
            hid_input: count_table(&self.hid),
        }
    }

    /// The loader's framebuffer.
    pub fn framebuffer(&self) -> (r: Option<FramebufferInfo>)
        ensures
            r == self.view().framebuffer,
    {
        self.framebuffer
    }

    /// Network slot `index`; none past the table.
    pub fn network_descriptor(&self, index: usize) -> (r: Option<NetworkDescriptor>)
        ensures
            r == (if index < self.view().network.len() {
                self.view().network[index as int]
            } else {
                None
            }),
    {
        if index < self.network.len() {
            self.network[index]
        } else {
            None
        }
    }

    /// Block slot `index`; none past the table.
    pub fn block_descriptor(&self, index: usize) -> (r: Option<BlockDescriptor>)
        ensures
            r == (if index < self.view().block.len() {
                self.view().block[index as int]
            } else {
                None
            }),
    {
        if index < self.block.len() {
            self.block[index]
        } else {
            None
        }
    }

    /// USB host slot `index`; none past the table.
    pub fn usb_host_descriptor(&self, index: usize) -> (r: Option<UsbHostDescriptor>)
        ensures
            r == (if index < self.view().usb.len() {
                self.view().usb[index as int]
            } else {
                None
            }),
    {
        if index < self.usb.len() {
            self.usb[index]
        } else {
            None
        }
    }

    /// HID slot `index`; none past the table.
    pub fn hid_input_descriptor(&self, index: usize) -> (r: Option<HidInputDescriptor>)
        ensures
            r == (if index < self.view().hid.len() {
                self.view().hid[index as int]
            } else {
                None
            }),
    {
        if index < self.hid.len() {
            self.hid[index]
        } else {
            None
        }
    }

    /// The counts, unless there is no framebuffer, network or block device.
    fn nonzero_counts(&self) -> (r: Option<CompatCounts>)
        requires
            self.wf(),
        ensures
            r == (if has_devices(view_counts(self.view())) {
                Some(view_counts(self.view()))
            } else {
                None
            }),
    {
        let counts = self.counts();
        if counts.framebuffer == 0 && counts.network == 0 && counts.block == 0 {
            None
        } else {
            Some(counts)
        }
    }

    /// Steps to make the boot devices' nodes: for each kind, the full
    /// slots among the first as many as there are devices of it (network
    /// devices also go to the network stack), then the framebuffer's node.
    /// Nothing without a framebuffer, network or block device.
    pub fn install_device_nodes(&self) -> (r: Vec<CompatAction>)
        requires
            self.wf(),
        ensures
            r@ == install_steps(self.view()),
    {
        let mut out: Vec<CompatAction> = Vec::new();
        match self.nonzero_counts() {
            None => {},
            Some(counts) => {
                proof {
                    lemma_count_some_le(self.network@, 8);
                    lemma_count_some_le(self.block@, 8);
                    lemma_count_some_le(self.usb@, 8);
                    lemma_count_some_le(self.hid@, 8);
                }
                append_nodes(&mut out, &self.network, counts.network as usize, NodeKind::Network);
                append_nodes(&mut out, &self.block, counts.block as usize, NodeKind::Block);
                append_nodes(&mut out, &self.usb, counts.usb_host as usize, NodeKind::UsbHost);
                append_nodes(&mut out, &self.hid, counts.hid_input as usize, NodeKind::HidInput);
                if counts.framebuffer != 0 {
                    out.push(CompatAction::Register { kind: NodeKind::Framebuffer, index: 0 });
                }
            },
        }
        out
    }

    /// Devfs entries for the boot devices: network devices `[0, n)`, block
    /// devices `[0, b)`, then the framebuffer, where `n`, `b` are their
    /// counts.  Nothing without a framebuffer, network or block device.
    pub fn register_devfs_devices(&self) -> (r: Vec<DevfsDevice>)
        requires
            self.wf(),
        ensures
            r@ == devfs_entries(self.view()),
    {
        let mut out: Vec<DevfsDevice> = Vec::new();
        match self.nonzero_counts() {
            None => {},
            Some(counts) => {
                append_devfs(&mut out, counts.network, NodeKind::Network);
                append_devfs(&mut out, counts.block, NodeKind::Block);
                if counts.framebuffer != 0 {
                    out.push(DevfsDevice { kind: NodeKind::Framebuffer, index: 0 });
                }
            },
        }
        out
    }
}

/// Number of full slots of a table.
fn count_table<T>(t: &Vec<Option<T>>) -> (r: u8)
    requires
        t@.len() <= 8,
    ensures
        r == count_some(t@, t@.len() as int),
{
    let mut n: u8 = 0;
    let mut i: usize = 0;
    while i < t.len()
        invariant
            i <= t@.len(),
            t@.len() <= 8,
            n == count_some(t@, i as int),
            n <= i,
        decreases t@.len() - i,
    {
        if t[i].is_some() {
            n = n + 1;
        }
        i = i + 1;
    }
    n
}

/// Append the node steps for slots `[0, count)` of a table.
fn append_nodes<T>(out: &mut Vec<CompatAction>, table: &Vec<Option<T>>, count: usize, kind: NodeKind)
    requires
        count <= table@.len() <= 8,
    ensures
        final(out)@ == old(out)@ + node_steps(table@.map_values(|e: Option<T>| e is Some), count as int, kind),
{
    let ghost full = table@.map_values(|e: Option<T>| e is Some);
    let ghost start = out@;
    let mut i: usize = 0;
    while i < count
        invariant
            i <= count,
            count <= table@.len() <= 8,
            full == table@.map_values(|e: Option<T>| e is Some),
            out@ == start + node_steps(full, i as int, kind),
        decreases count - i,
    {
        if table[i].is_some() {
            out.push(CompatAction::Register { kind, index: i as u8 });
            if kind == NodeKind::Network {
                out.push(CompatAction::IngestNetwork { index: i as u8 });
            }
        }
        proof {
            assert(full[i as int] == table@[i as int] is Some);
        }
        i = i + 1;
        assert(out@ =~= start + node_steps(full, i as int, kind));
    }
}

/// Append devfs entries `[0, count)` of a kind.
fn append_devfs(out: &mut Vec<DevfsDevice>, count: u8, kind: NodeKind)
    ensures
        final(out)@ == old(out)@ + devfs_steps(count as int, kind),
{
    let ghost start = out@;
    let mut i: u8 = 0;
    while i < count
        invariant
            i <= count,
            out@ == start + devfs_steps(i as int, kind),
        decreases count - i,
    {
        out.push(DevfsDevice { kind, index: i });
        i = i + 1;
        assert(out@ =~= start + devfs_steps(i as int, kind));
    }
}

} // verus!
