use nexaos::auth::{authenticate, create_user, init as auth_init, AuthState, Credentials};
use nexaos::drivers::input::subsystem::{device_count, init as input_init, list_devices, InputDeviceType, InputSubsystem};
use nexaos::drivers::compositor::types::CompositionRegion;
use nexaos::allocator::{BuddyAllocator, SlabAllocator};
use nexaos::boot::stages::{pivot_to_real_root, BootState};
use nexaos::drivers::block::{
    kmod_blk_register, probe_device, probe_driver_answered, probe_info_returned, probe_init_returned,
    probe_new_returned, BlockDeviceHandle, BlockDeviceInfo, BlockDriverOps, BlockError, BlockSubsystem,
    BootBlockDevice, ProbeAction,
};
use nexaos::drivers::input::event::{EV_REL, EV_SYN, REL_X, SYN_REPORT};
use nexaos::drivers::input::mouse::MouseInput;
use nexaos::drivers::keyboard::ConsoleInput;
use nexaos::drivers::random::{chacha20_block, get_random_u64, init, is_initialized, RngState};

#[test]
fn mouse_delta_takes_sign_from_status_byte() {
    let mut m = MouseInput::new();
    m.process_byte(0x18, 0);
    m.process_byte(0xFF, 0);
    m.process_byte(0x00, 0);
    let mut buf = vec![nexaos::drivers::input::event::InputEvent::new(0, 0, 0); 4];
    let n = m.read_events(&mut buf);
    assert_eq!(n, 2);
    assert_eq!((buf[0].event_type, buf[0].code, buf[0].value), (EV_REL, REL_X, -1));
    assert_eq!((buf[1].event_type, buf[1].code, buf[1].value), (EV_SYN, SYN_REPORT, 0));

    // 0x80 without the sign bit is +128.
    let mut m = MouseInput::new();
    m.process_byte(0x08, 0);
    m.process_byte(0x80, 0);
    m.process_byte(0x00, 0);
    let n = m.read_events(&mut buf);
    assert_eq!(n, 2);
    assert_eq!(buf[0].value, 128);
}

#[test]
fn buddy_records_are_reclaimed() {
    let mut b = BuddyAllocator::new();
    b.init(0x10_0000, 64 * 4096);
    let before = b.stats();
    for _ in 0..10_000 {
        let p = b.allocate(0).unwrap();
        b.free(p, 0);
    }
    assert!(b.allocate(0).is_some());
    let after = b.stats();
    assert_eq!(after.pages_allocated, before.pages_allocated + 1);
}

#[test]
fn large_slab_objects_take_whole_blocks() {
    let mut b = BuddyAllocator::new();
    b.init(0x10_0000, 64 * 4096);
    let mut slab = SlabAllocator::new();
    let p = slab.allocate(8192, &mut b).unwrap();
    // One 8 KiB object takes a block of two pages.
    assert_eq!(b.stats().pages_allocated, 2);
    assert_eq!(p % 8192, 0);
}

#[test]
fn random_u64_is_keystream_and_keeps_state() {
    let seed = [0u8; 40];
    let mut st = RngState::new();
    assert_eq!(get_random_u64(&mut st, None, &seed), None);
    assert!(!is_initialized(&st));
    init(&mut st, false, false, &seed);
    let block = chacha20_block(&[0u32; 8], 0, &[0u32; 2]);
    let mut bytes = [0u8; 8];
    bytes.copy_from_slice(&block[0..8]);
    assert_eq!(get_random_u64(&mut st, None, &seed), Some(u64::from_le_bytes(bytes)));
    assert!(is_initialized(&st));
    assert_eq!(get_random_u64(&mut st, Some(7), &seed), Some(7));
}

#[test]
fn unmapped_scancode_gives_nothing() {
    let mut input = ConsoleInput::new();
    input.add_scancode(0x7F);
    assert_eq!(input.poll_keyboard(4).ch, None);
    assert_eq!(input.poll_keyboard(4).ch, None);
}

#[test]
fn pivot_without_root_names_the_reason() {
    let mut st = BootState::new();
    assert_eq!(pivot_to_real_root(&mut st, true, true), Err("Root not mounted"));
}

fn driver() -> BlockDriverOps {
    BlockDriverOps {
        name: [b'v'; 32],
        probe: true,
        new: true,
        destroy: true,
        init: true,
        get_info: true,
        read: true,
        write: true,
        flush: true,
    }
}

#[test]
fn probe_steps_through_driver_calls() {
    let mut sub = BlockSubsystem::new();
    kmod_blk_register(&mut sub, &driver());
    let desc = BootBlockDevice::empty();
    assert!(matches!(probe_device(&sub, &desc), ProbeAction::AskDriver(0)));
    assert!(matches!(probe_driver_answered(&sub, 0, -1), ProbeAction::Done(Err(BlockError::DriverNotLoaded))));
    assert!(matches!(probe_driver_answered(&sub, 0, 0), ProbeAction::CallNew(0)));
    assert!(matches!(probe_new_returned(0, BlockDeviceHandle(0)), ProbeAction::Done(Err(BlockError::NotReady))));
    let h = BlockDeviceHandle(0x1000);
    assert!(matches!(probe_new_returned(0, h), ProbeAction::CallInit(0, _)));
    // A failing init destroys the instance; get_info is never asked for.
    assert!(matches!(probe_init_returned(&sub, 0, h, -2), ProbeAction::Destroy(0, _, BlockError::IoError)));
    assert!(matches!(probe_init_returned(&sub, 0, h, 0), ProbeAction::CallGetInfo(0, _)));
    let r = probe_info_returned(&mut sub, 0, h, 0, BlockDeviceInfo::empty());
    assert!(matches!(r, ProbeAction::Done(Ok(0))));
    assert!(matches!(probe_device(&sub, &desc), ProbeAction::Done(Ok(0))));
}

#[test]
fn buddy_blocks_are_aligned_and_apart() {
    let mut b = BuddyAllocator::new();
    b.init(0x10_0000, 64 * 4096);
    let a = b.allocate(2).unwrap();
    let c = b.allocate(2).unwrap();
    let d = b.allocate(0).unwrap();
    assert_eq!(a % (4 * 4096), 0);
    assert_eq!(c % (4 * 4096), 0);
    assert!(a + 4 * 4096 <= c || c + 4 * 4096 <= a);
    assert!(d + 4096 <= a.min(c) || d >= a.min(c) + 4 * 4096);
    for x in [a, c, d] {
        assert!(x >= 0x10_0000 && x < 0x10_0000 + 64 * 4096);
    }
}

#[test]
fn intersection_is_max_of_starts_and_min_of_ends() {
    let a = CompositionRegion { x: 10, y: 0, width: 20, height: 10 };
    let b = CompositionRegion { x: 0, y: 5, width: 15, height: 10 };
    let i = a.intersection(&b).unwrap();
    assert_eq!((i.x, i.y, i.width, i.height), (10, 5, 5, 5));
    let j = b.intersection(&a).unwrap();
    assert_eq!((j.x, j.y, j.width, j.height), (10, 5, 5, 5));
}

#[test]
fn input_init_lists_keyboard_and_mouse() {
    let mut sub = InputSubsystem::new();
    input_init(&mut sub);
    input_init(&mut sub);
    let devs = list_devices(&sub);
    assert_eq!(devs.len(), 2);
    assert_eq!(device_count(&sub), 2);
    assert_eq!(devs[0].0, 0);
    assert_eq!(devs[0].1, "AT Translated Set 2 keyboard");
    assert!(devs[0].2 == InputDeviceType::Keyboard);
    assert_eq!(devs[1].0, 1);
    assert_eq!(devs[1].1, "PS/2 Generic Mouse");
    assert!(devs[1].2 == InputDeviceType::Mouse);
}

#[test]
fn created_users_get_fresh_uids() {
    let mut st = AuthState::new();
    auth_init(&mut st);
    let a = create_user(&mut st, "alice", "pw1", false).unwrap();
    let b = create_user(&mut st, "bob", "pw2", true).unwrap();
    assert!(a != 0 && b != 0 && a != b);
    assert_eq!(
        authenticate(&mut st, "bob", "pw2"),
        Ok(Credentials { uid: b, gid: b, is_admin: true })
    );
}
