use nexaos::acpi::{checksum, parse_madt, CpuDescriptor};
use nexaos::auth::{authenticate, create_user, current_uid, logout, AuthError, AuthState, Credentials};
use nexaos::drivers::compositor::double_buffer::DoubleBuffer;
use nexaos::drivers::framebuffer::font::glyph::{GlyphBitmap, GlyphCache};
use nexaos::drivers::input::event::{InputEvent, InputEventType, EV_KEY, EV_REL};
use nexaos::drivers::input::ring::EventRing;
use nexaos::drivers::random::chacha20_block;
use nexaos::drivers::rtc::{bcd_to_bin, datetime_to_unix_seconds, days_from_civil, normalize_hour, RtcDateTime};

#[test]
fn created_user_logs_in() {
    let mut st = AuthState::new();
    nexaos::auth::init(&mut st);
    let uid = create_user(&mut st, "alice", "secret", false).unwrap();
    assert_eq!(create_user(&mut st, "alice", "other", false), Err(AuthError::AlreadyExists));
    assert_eq!(create_user(&mut st, "", "x", false), Err(AuthError::InvalidInput));
    assert_eq!(authenticate(&mut st, "alice", "wrong"), Err(AuthError::InvalidCredentials));
    let creds = authenticate(&mut st, "alice", "secret").unwrap();
    assert_eq!(creds, Credentials { uid, gid: uid, is_admin: false });
    assert_eq!(current_uid(&st), uid);
    assert_eq!(logout(&mut st), Ok(()));
}

#[test]
fn root_logs_in_with_default_password() {
    let mut st = AuthState::new();
    nexaos::auth::init(&mut st);
    let creds = authenticate(&mut st, "root", "root").unwrap();
    assert_eq!(creds.uid, 0);
    assert!(creds.is_admin);
}

#[test]
fn ring_is_fifo() {
    let mut ring = EventRing::new();
    assert!(ring.is_empty());
    let a = InputEvent::new(EV_KEY, 30, 1);
    let b = InputEvent::new(EV_REL, 0, -3);
    ring.push(a);
    ring.push(b);
    assert_eq!(ring.len(), 2);
    assert_eq!(ring.pop(), Some(a));
    assert_eq!(ring.pop(), Some(b));
    assert_eq!(ring.pop(), None);
}

#[test]
fn event_type_round_trip() {
    assert_eq!(InputEventType::from(0x11), InputEventType::Led);
    assert_eq!(InputEventType::from(0x14), InputEventType::Unknown(0x14));
    for code in [0u16, 1, 2, 3, 4, 0x11, 0x14] {
        let t = InputEventType::from(code);
        assert_eq!(u16::from(t), code);
    }
}

#[test]
fn double_buffer_swaps_back() {
    let mut db = DoubleBuffer::new();
    db.init(0x1000, 0x2000, 640, 480, 2560, 4);
    db.request_swap();
    assert!(db.swap());
    assert_eq!((db.front_buffer(), db.back_buffer()), (0x2000, 0x1000));
    db.request_swap();
    assert!(db.swap());
    assert_eq!((db.front_buffer(), db.back_buffer()), (0x1000, 0x2000));
    assert_eq!(db.generation(), 3);
}

#[test]
fn chacha20_block_vector() {
    let key: [u32; 8] = [
        0x03020100, 0x07060504, 0x0b0a0908, 0x0f0e0d0c, 0x13121110, 0x17161514, 0x1b1a1918, 0x1f1e1d1c,
    ];
    let counter: u64 = 1 | (0x0900_0000u64 << 32);
    let nonce: [u32; 2] = [0x4a00_0000, 0];
    let out = chacha20_block(&key, counter, &nonce);
    let expected: [u8; 64] = [
        0x10, 0xf1, 0xe7, 0xe4, 0xd1, 0x3b, 0x59, 0x15, 0x50, 0x0f, 0xdd, 0x1f, 0xa3, 0x20, 0x71, 0xc4, 0xc7, 0xd1, 0xf4,
        0xc7, 0x33, 0xc0, 0x68, 0x03, 0x04, 0x22, 0xaa, 0x9a, 0xc3, 0xd4, 0x6c, 0x4e, 0xd2, 0x82, 0x64, 0x46, 0x07, 0x9f,
        0xaa, 0x09, 0x14, 0xc2, 0xd7, 0x05, 0xd9, 0x8b, 0x02, 0xa2, 0xb5, 0x12, 0x9c, 0xd1, 0xde, 0x16, 0x4e, 0xb9, 0xcb,
        0xd0, 0x83, 0xe8, 0xa2, 0x50, 0x3c, 0x4e,
    ];
    assert_eq!(out, expected);
}

#[test]
fn rtc_conversions() {
    assert_eq!(bcd_to_bin(0x59), 59);
    assert_eq!(normalize_hour(0x12, 0x02), 0x12);
    assert_eq!(days_from_civil(1970, 1, 1), 0);
    assert_eq!(days_from_civil(2000, 3, 1), 11017);
    let dt = RtcDateTime { year: 2024, month: 2, day: 29, hour: 12, minute: 30, second: 15 };
    assert_eq!(datetime_to_unix_seconds(dt), Some(1709209815));
    let bad = RtcDateTime { year: 2024, month: 0, day: 1, hour: 0, minute: 0, second: 0 };
    assert_eq!(datetime_to_unix_seconds(bad), None);
}

#[test]
fn madt_lists_enabled_processors() {
    let mut t = vec![0u8; 44];
    t[0..4].copy_from_slice(b"APIC");
    t[36..40].copy_from_slice(&0xFEE0_0000u32.to_le_bytes());
    t.extend_from_slice(&[0, 8, 0, 0, 1, 0, 0, 0]);
    t.extend_from_slice(&[0, 8, 1, 1, 0, 0, 0, 0]);
    t.extend_from_slice(&[0, 8, 2, 4, 1, 0, 0, 0]);
    let len = t.len() as u32;
    t[4..8].copy_from_slice(&len.to_le_bytes());
    let info = parse_madt(&t).unwrap();
    assert_eq!(info.lapic_base, 0xFEE0_0000);
    assert_eq!(
        info.cpus,
        vec![
            CpuDescriptor { acpi_processor_id: 0, apic_id: 0, enabled: true },
            CpuDescriptor { acpi_processor_id: 2, apic_id: 4, enabled: true },
        ]
    );
    assert_eq!(checksum(&[1, 2, 253], 0, 3), 0);
}

#[test]
fn glyph_cache_returns_inserted() {
    let mut cache = GlyphCache::new();
    assert!(cache.get('a' as u32, 16).is_none());
    cache.insert('a' as u32, 16, GlyphBitmap::placeholder(8));
    assert!(cache.contains('a' as u32, 16));
    assert!(!cache.contains('a' as u32, 12));
    assert_eq!(cache.get('a' as u32, 16).map(|g| g.width), Some(GlyphBitmap::placeholder(8).width));
    assert_eq!(cache.len(), 1);
    cache.clear();
    assert!(cache.is_empty());
}
