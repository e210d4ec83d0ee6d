use nexaos::boot::stages::{
    boot_config, current_stage, is_mounted, mark_mounted, parse_boot_config, BootStage, BootState,
};
use nexaos::bootinfo::cmdline_str;
use nexaos::drivers::loop_device::{attach, detach, get_free, plan_read, plan_write, LoopTable, SectorIo};
use nexaos::drivers::watchdog::{Watchdog, WatchdogHw, WatchdogType};
use nexaos::posix::errno::{EBUSY, ENODEV, ENXIO, EROFS};

#[test]
fn command_line_sets_root_and_init() {
    let mut st = BootState::new();
    nexaos::boot::stages::init(&mut st);
    assert_eq!(current_stage(&st), BootStage::KernelInit);
    parse_boot_config(&mut st, "console=ttyS0 root=/dev/vda1  rootfstype=ext2 init=/sbin/init single");
    let c = boot_config(&st);
    assert_eq!(c.root_device.as_deref(), Some(&b"/dev/vda1"[..]));
    assert_eq!(c.root_fstype.as_deref(), Some(&b"ext2"[..]));
    assert_eq!(c.init_path.as_deref(), Some(&b"/sbin/init"[..]));
    assert!(c.root_options.is_none());
    assert!(c.emergency);
}

#[test]
fn mounts_are_tracked_by_name() {
    let mut st = BootState::new();
    assert!(!is_mounted(&st, "proc"));
    mark_mounted(&mut st, "proc");
    mark_mounted(&mut st, "nfs");
    assert!(is_mounted(&st, "proc"));
    assert!(!is_mounted(&st, "nfs"));
}

#[test]
fn boot_command_line_trims_trailing_nuls() {
    assert_eq!(cmdline_str(b"root=/dev/sda\0\0"), Some("root=/dev/sda"));
    assert_eq!(cmdline_str(b"a\0b"), Some("a\0b"));
    assert_eq!(cmdline_str(&[0, 0]), None);
    assert_eq!(cmdline_str(&[0xFF, 0xFE, 0]), None);
}

#[test]
fn loop_attach_and_plan() {
    let mut t = LoopTable::new();
    assert_eq!(get_free(&t), Some(0));
    assert_eq!(attach(&mut t, 0, 7, "/disk.img", 4096, false), Ok(()));
    assert_eq!(attach(&mut t, 0, 8, "/other.img", 4096, false), Err(EBUSY));
    assert_eq!(attach(&mut t, 99, 8, "/other.img", 4096, false), Err(ENODEV));
    assert_eq!(get_free(&t), Some(1));
    assert_eq!(plan_read(&t, 0, 2, 4, 4096), Ok(Some(SectorIo { fd: 7, offset: 1024, len: 2048 })));
    assert_eq!(plan_read(&t, 0, 8, 1, 512), Ok(None));
    assert_eq!(plan_write(&t, 0, 7, 4, 4096), Ok(SectorIo { fd: 7, offset: 3584, len: 512 }));
    assert_eq!(attach(&mut t, 1, 9, "/ro.img", 1024, true), Ok(()));
    assert_eq!(plan_write(&t, 1, 0, 1, 512), Err(EROFS));
    assert_eq!(detach(&mut t, 0), Ok(()));
    assert_eq!(detach(&mut t, 0), Err(ENXIO));
    assert_eq!(plan_read(&t, 0, 0, 1, 512), Err(ENXIO));
}

#[test]
fn watchdog_probe_order_and_enable() {
    let mut w = Watchdog::new();
    assert_eq!(w.enable(), Err(ENODEV));
    w.init(0xFFFF_FFFF, 0x0000, 0x52);
    assert_eq!(w.get_type(), WatchdogType::IntelTCO);
    w.init(0, 0, 0);
    assert_eq!(w.get_type(), WatchdogType::IntelTCO);
    assert_eq!(w.enable(), Ok(WatchdogHw::EnableTco { ticks: 96 }));
    assert!(w.is_enabled());
    let mut s = Watchdog::new();
    s.init(0xFFFF_FFFF, 0xFFFF, 0xFF);
    assert_eq!(s.get_type(), WatchdogType::Software);
}
