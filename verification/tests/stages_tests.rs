use nexaos::boot::stages::{scan_for_block_device, RootSource};
use nexaos::boot::uefi::BlockDeviceInfo;
use nexaos::bootinfo::{PciBarInfo, PciDeviceInfo};
use nexaos::drivers::compositor::types::WorkType;
use nexaos::drivers::compositor::workers::{ap_work_entry, claim_fill_rows, claim_scroll_rows};

fn block(bus: u8, last_block: u64, block_size: u32) -> BlockDeviceInfo {
    BlockDeviceInfo { pci_segment: 0, pci_bus: bus, pci_device: 1, pci_function: 0, block_size, last_block }
}

fn pci(bus: u8, bars: Vec<PciBarInfo>) -> PciDeviceInfo {
    PciDeviceInfo { segment: 0, bus, device: 1, function: 0, interrupt_line: 0, interrupt_pin: 0, bars }
}

fn bar(base: u64, io_space: bool) -> PciBarInfo {
    PciBarInfo { base, length: 0x1000, bar_flags: if io_space { 1 } else { 0 }, io_space }
}

#[test]
fn staged_image_comes_first() {
    let r = scan_for_block_device(true, &[block(0, 1, 512)], &[], true, true, &[]);
    assert_eq!(r, Ok(RootSource::Staged));
}

#[test]
fn block_device_window() {
    let pcis = vec![pci(1, vec![bar(0, false), bar(0xC000, true)]), pci(2, vec![bar(0, false), bar(0xFE00_0000, false)])];
    let blocks = [block(1, 7, 512), block(2, 7, 512)];
    let r = scan_for_block_device(false, &blocks, &pcis, true, false, &[]);
    assert_eq!(r, Ok(RootSource::Mmio { base: 0xFE00_0000, len: 8 * 512 }));
}

#[test]
fn initramfs_files_follow() {
    let r = scan_for_block_device(false, &[block(9, 7, 512)], &[], false, true, &["/a.ext2"]);
    assert_eq!(r, Ok(RootSource::DiskExt2));
    let r = scan_for_block_device(false, &[], &[], false, false, &["/init", "/root.img", "/b.ext2"]);
    assert_eq!(r, Ok(RootSource::Entry(1)));
    let r = scan_for_block_device(false, &[], &[], false, false, &["/init", ".img.gz"]);
    assert_eq!(r, Err("Block device not found"));
}

#[test]
fn work_dispatch() {
    let mut joined = 0usize;
    assert_eq!(ap_work_entry(false, true, 1, &mut joined), None);
    assert_eq!(ap_work_entry(true, false, 1, &mut joined), None);
    assert_eq!(joined, 0);
    assert_eq!(ap_work_entry(true, true, 1, &mut joined), Some(WorkType::Scroll));
    assert_eq!(ap_work_entry(true, true, 3, &mut joined), Some(WorkType::Compose));
    assert_eq!(ap_work_entry(true, true, 9, &mut joined), Some(WorkType::NoWork));
    assert_eq!(joined, 3);
}

#[test]
fn row_claims() {
    let mut next = 0usize;
    assert_eq!(claim_fill_rows(&mut next, 4, 10), Some((0, 4)));
    assert_eq!(claim_fill_rows(&mut next, 4, 10), Some((4, 8)));
    assert_eq!(claim_fill_rows(&mut next, 4, 10), Some((8, 10)));
    assert_eq!(claim_fill_rows(&mut next, 4, 10), None);
    let mut next = 0usize;
    assert_eq!(claim_scroll_rows(&mut next, 2, 20), Some((0, 4)));
    assert_eq!(claim_scroll_rows(&mut next, 2, 20), Some((4, 8)));
    assert_eq!(claim_scroll_rows(&mut next, 2, 20), Some((8, 12)));
    assert_eq!(claim_scroll_rows(&mut next, 2, 20), Some((12, 14)));
    next = 20;
    assert_eq!(claim_scroll_rows(&mut next, 2, 20), None);
}
