use nexaos::allocator::{BuddyAllocator, KernelHeap, PAGE_SIZE};
use nexaos::drivers::compositor::blend::{additive_blend_pixel, blend_pixel_fast, multiply_blend_pixel};
use nexaos::drivers::compositor::dirty_region::DirtyRegionTracker;
use nexaos::drivers::compositor::types::CompositionRegion;
use nexaos::drivers::framebuffer::font::config::FontConfig;

#[test]
fn alpha_blend_keeps_destination_alpha() {
    let r = blend_pixel_fast(0x00FF_FFFF, 0x7F00_0000, 128, 128);
    assert_eq!(r >> 24, 0x7F);
    assert_eq!(r & 0xFF, 0x80);
    assert_eq!(blend_pixel_fast(0x0010_2030, 0x0000_0000, 256, 0) & 0x00FF_FFFF, 0x0010_2030);
}

#[test]
fn additive_blend_saturates() {
    let r = additive_blend_pixel(0x00F0_1020, 0x0020_1020);
    assert_eq!(r & 0xFF, 0x40);
    assert_eq!((r >> 8) & 0xFF, 0x20);
    assert_eq!((r >> 16) & 0xFF, 0xFF);
}

#[test]
fn multiply_blend_by_white_is_identity() {
    let r = multiply_blend_pixel(0x00FF_FFFF, 0xAB12_3456);
    assert_eq!(r, 0xAB12_3456);
    let black = multiply_blend_pixel(0, 0x0012_3456);
    assert_eq!(black & 0x00FF_FFFF, 0);
}

#[test]
fn dirty_regions_merge_and_overflow() {
    let mut t = DirtyRegionTracker::new();
    assert!(!t.is_dirty());
    t.mark_dirty(CompositionRegion::new(0, 0, 10, 10));
    t.mark_dirty(CompositionRegion::new(5, 5, 10, 10));
    assert_eq!(t.region_count(), 1);
    assert_eq!(t.get_dirty_regions()[0], CompositionRegion::new(0, 0, 15, 15));
    t.mark_dirty(CompositionRegion::new(100, 100, 2, 2));
    assert_eq!(t.region_count(), 2);
    assert_eq!(t.total_dirty_area(), 15 * 15 + 4);
    t.clear();
    assert!(!t.is_dirty());
    t.mark_full_repaint();
    assert!(t.needs_full_repaint());
}

#[test]
fn buddy_allocates_pages_and_merges_back() {
    let mut b = BuddyAllocator::new();
    b.init(0x10_0000, 16 * PAGE_SIZE as u64);
    let before = b.stats();
    let a = b.allocate(0).unwrap();
    assert_eq!(a % PAGE_SIZE as u64, 0);
    assert!(a >= 0x10_0000 && a < 0x10_0000 + 16 * PAGE_SIZE as u64);
    let c = b.allocate(1).unwrap();
    assert_ne!(a, c);
    assert_eq!(b.stats().pages_allocated, 3);
    b.free(a, 0);
    b.free(c, 1);
    assert_eq!(b.stats().pages_free, before.pages_free);
    assert!(b.allocate(20).is_none());
}

#[test]
fn heap_hands_out_distinct_blocks() {
    let mut h = KernelHeap::new();
    h.init(0x20_0000, 64 * PAGE_SIZE as u64);
    assert!(h.allocate(0).is_none());
    let a = h.allocate(24).unwrap();
    let b = h.allocate(24).unwrap();
    assert_ne!(a, b);
    h.free(a);
    h.free(b);
}

#[test]
fn fontconfig_reads_dirs_and_aliases() {
    let xml = b"<?xml version=\"1.0\"?>\n<fontconfig>\n  <dir>/usr/share/fonts</dir>\n  <dir> /opt/fonts </dir>\n  <alias>\n    <family>sans-serif</family>\n    <prefer><family>Noto Sans</family><family>DejaVu Sans</family></prefer>\n  </alias>\n  <cachedir>/var/cache/fontconfig</cachedir>\n</fontconfig>\n";
    let c = FontConfig::parse(xml, &[]);
    let dirs: Vec<&[u8]> = c.get_directories().iter().map(|d| d.as_slice()).collect();
    assert_eq!(dirs, vec![&b"/usr/share/fonts"[..], &b"/opt/fonts"[..]]);
    let prefer = c.get_preferred(&b"sans-serif".to_vec()).unwrap();
    assert_eq!(prefer.len(), 2);
    assert_eq!(prefer[0], b"Noto Sans".to_vec());
    assert_eq!(c.cache_dir, Some(b"/var/cache/fontconfig".to_vec()));
    assert!(c.get_preferred(&b"monospace".to_vec()).is_none());
}

#[test]
fn fontconfig_default_dirs() {
    let c = FontConfig::default();
    assert_eq!(c.get_directories().len(), 3);
    assert_eq!(c.get_directories()[0], b"/usr/share/fonts".to_vec());
}
