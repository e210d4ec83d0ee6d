use nexaos::arch::gdt::{aligned_error_code_stack_top, aligned_stack_top};
use nexaos::boot::uefi::{mmio_span, normalized_length, select_mmio_bar};
use nexaos::bootinfo::{PciBarInfo, PciDeviceInfo};
use nexaos::drivers::block::byte_span;
use nexaos::drivers::compositor::memory::calculate_optimal_stripe_height;
use nexaos::drivers::compositor::ops::{fill_rect, scroll_up_fast};
use nexaos::drivers::compositor::types::CompositionRegion;
use nexaos::drivers::framebuffer::ansi::AnsiParser;
use nexaos::drivers::framebuffer::color::{pack_color, select_color, FramebufferField, RgbColor};

fn bar(base: u64, length: u64, io_space: bool) -> PciBarInfo {
    PciBarInfo { base, length, bar_flags: if io_space { 1 } else { 0 }, io_space }
}

#[test]
fn stack_tops_are_aligned() {
    assert_eq!(aligned_stack_top(0x1000, 0x2008), 0x3000);
    assert_eq!(aligned_stack_top(0x1000, 0x2000), 0x3000);
    let t = aligned_error_code_stack_top(0x1000, 0x2000);
    assert_eq!(t, 0x2FF8);
}

#[test]
fn mmio_bars() {
    assert_eq!(normalized_length(bar(0, 0, false)), None);
    assert_eq!(normalized_length(bar(0xF000_0000, 0, false)), Some(0x1000));
    assert_eq!(normalized_length(bar(0xF000_0000, 0x4000, false)), Some(0x4000));
    let pci = PciDeviceInfo {
        segment: 0,
        bus: 0,
        device: 3,
        function: 0,
        interrupt_line: 11,
        interrupt_pin: 1,
        bars: vec![bar(0xC000, 0x20, true), bar(0xFE00_0000, 0, false), bar(0xFE10_0000, 0x1000, false)],
    };
    assert_eq!(select_mmio_bar(&pci), Some(bar(0xFE10_0000, 0x1000, false)));
    let unsized_only = PciDeviceInfo { bars: vec![bar(0xFE00_0000, 0, false)], ..pci };
    assert_eq!(select_mmio_bar(&unsized_only), Some(bar(0xFE00_0000, 0, false)));
    assert_eq!(mmio_span(0, 0x1000), None);
    assert_eq!(mmio_span(0xFE00_0000, 0), Some(0x1000));
}

#[test]
fn byte_spans_cover_whole_sectors() {
    let s = byte_span(1000, 100, 512);
    assert_eq!((s.start_sector, s.sector_count, s.temp_size), (1, 2, 1024));
    assert_eq!((s.start_in_temp, s.copy_len), (488, 100));
}

#[test]
fn stripe_height_is_a_multiple_of_eight() {
    let h = calculate_optimal_stripe_height(1920, 1080, 4, 4);
    assert_eq!(h % 8, 0);
    assert_eq!(h, 24);
    assert_eq!(calculate_optimal_stripe_height(16, 10, 4, 64), 8);
}

#[test]
fn compositor_fill_and_scroll() {
    let mut buf = vec![0u8; 4 * 4 * 4];
    fill_rect(&mut buf, 16, 4, CompositionRegion::new(1, 1, 2, 2), 0xAABBCCDD);
    assert_eq!(&buf[16 + 4..16 + 8], &[0xDD, 0xCC, 0xBB, 0xAA]);
    assert_eq!(&buf[16..20], &[0, 0, 0, 0]);
    scroll_up_fast(&mut buf, 16, 4, 4, 4, 1, 0x01020304);
    assert_eq!(&buf[4..8], &[0xDD, 0xCC, 0xBB, 0xAA]);
    assert_eq!(&buf[48..52], &[4, 3, 2, 1]);
}

#[test]
fn csi_parameters() {
    let mut p = AnsiParser::new();
    for b in b"12;;345" {
        p.push_param(*b);
    }
    let (params, n) = p.parse_params();
    assert_eq!(&params[..n], &[12, 0, 345]);
    let empty = AnsiParser::new();
    let (params, n) = empty.parse_params();
    assert_eq!(&params[..n], &[0]);
    let mut big = AnsiParser::new();
    for b in b"99999" {
        big.push_param(*b);
    }
    assert_eq!(big.parse_params().0[0], u16::MAX);
}

#[test]
fn colors_pack_into_fields() {
    assert_eq!(select_color(1, false), RgbColor { r: 0xAA, g: 0, b: 0 });
    assert_eq!(select_color(9, true), RgbColor { r: 0xE6, g: 0xEC, b: 0xF1 });
    let r5 = FramebufferField { position: 11, size: 5 };
    let g6 = FramebufferField { position: 5, size: 6 };
    let b5 = FramebufferField { position: 0, size: 5 };
    assert_eq!(pack_color(&r5, &g6, &b5, 255, 255, 255), 0xFFFF);
    assert_eq!(pack_color(&r5, &g6, &b5, 255, 0, 0), 0xF800);
}
