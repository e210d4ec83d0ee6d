//! Color types and utilities for framebuffer rendering
//!
//! Color types, the ANSI color palettes, and color packing for the pixel
//! formats framebuffers describe.

use vstd::prelude::*;

verus! {

/// RGB color representation
#[derive(Clone, Copy, Debug, PartialEq, Eq, Structural)]
pub struct RgbColor {
    pub r: u8,
    pub g: u8,
    pub b: u8,
}

impl RgbColor {
    pub fn new(r: u8, g: u8, b: u8) -> (c: Self)
        ensures
            c == (RgbColor { r, g, b }),
    {
        Self { r, g, b }
    }
}

/// Default foreground color (light gray)
pub open spec fn default_fg() -> RgbColor {
    RgbColor { r: 0xE6, g: 0xEC, b: 0xF1 }
}

/// Default background color (dark blue-black)
pub open spec fn default_bg() -> RgbColor {
    RgbColor { r: 0x08, g: 0x0C, b: 0x12 }
}

/// The default foreground color.
pub fn default_fg_color() -> (c: RgbColor)
    ensures
        c == default_fg(),
{
    RgbColor::new(0xE6, 0xEC, 0xF1)
}

/// The default background color.
pub fn default_bg_color() -> (c: RgbColor)
    ensures
        c == default_bg(),
{
    RgbColor::new(0x08, 0x0C, 0x12)
}

/// Standard ANSI colors (normal intensity), by index 0 to 7.
pub open spec fn ansi_base(i: int) -> RgbColor {
    if i == 0 {
        RgbColor { r: 0x00, g: 0x00, b: 0x00 }
    } else if i == 1 {
        RgbColor { r: 0xAA, g: 0x00, b: 0x00 }
    } else if i == 2 {
        RgbColor { r: 0x00, g: 0xAA, b: 0x00 }
    } else if i == 3 {
        RgbColor { r: 0xAA, g: 0x55, b: 0x00 }
    } else if i == 4 {
        RgbColor { r: 0x00, g: 0x00, b: 0xAA }
    } else if i == 5 {
        RgbColor { r: 0xAA, g: 0x00, b: 0xAA }
    } else if i == 6 {
        RgbColor { r: 0x00, g: 0xAA, b: 0xAA }
    } else {
        RgbColor { r: 0xAA, g: 0xAA, b: 0xAA }
    }
}

/// Bright ANSI colors (high intensity), by index 0 to 7.
pub open spec fn ansi_bright(i: int) -> RgbColor {
    if i == 0 {
        RgbColor { r: 0x55, g: 0x55, b: 0x55 }
    } else if i == 1 {
        RgbColor { r: 0xFF, g: 0x55, b: 0x55 }
    } else if i == 2 {
        RgbColor { r: 0x55, g: 0xFF, b: 0x55 }
    } else if i == 3 {
        RgbColor { r: 0xFF, g: 0xFF, b: 0x55 }
    } else if i == 4 {
        RgbColor { r: 0x55, g: 0x55, b: 0xFF }
    } else if i == 5 {
        RgbColor { r: 0xFF, g: 0x55, b: 0xFF }
    } else if i == 6 {
        RgbColor { r: 0x55, g: 0xFF, b: 0xFF }
    } else {
        RgbColor { r: 0xFF, g: 0xFF, b: 0xFF }
    }
}

/// The palette color of an index: the default foreground past the
/// palette.
pub open spec fn palette_color(index: int, bright: bool) -> RgbColor {
    if index < 0 || index >= 8 {
        default_fg()
    } else if bright {
        ansi_bright(index)
    } else {
        ansi_base(index)
    }
}

/// A color packed for a pixel format: its little-endian bytes, those past
/// `len` cleared.
#[derive(Clone, Copy)]
pub struct PackedColor {
    pub bytes: [u8; 4],
    pub len: usize,
}

/// Byte `i` of a packed value, or 0 past the pixel's length.
pub open spec fn packed_byte(value: u32, len: usize, i: int) -> u8 {
    if i < len {
        ((value >> (8 * i) as u32) & 0xFF) as u8
    } else {
        0
    }
}

impl PackedColor {
    pub fn new(value: u32, len: usize) -> (r: Self)
        ensures
            r.len == len,
            forall|i: int| 0 <= i < 4 ==> #[trigger] r.bytes@[i] == packed_byte(value, len, i),
    {
        let b0 = (value & 0xFF) as u8;
        let b1 = ((value >> 8u32) & 0xFF) as u8;
        let b2 = ((value >> 16u32) & 0xFF) as u8;
        let b3 = ((value >> 24u32) & 0xFF) as u8;
        let bytes = [
            if 0 < len { b0 } else { 0 },
            if 1 < len { b1 } else { 0 },
            if 2 < len { b2 } else { 0 },
            if 3 < len { b3 } else { 0 },
        ];
        proof {
            assert(value >> 0u32 == value) by (bit_vector);
        }
        assert forall|i: int| 0 <= i < 4 implies #[trigger] bytes@[i] == packed_byte(value, len, i) by {
            if i == 0 {
                assert((value >> (8 * 0) as u32) == value >> 0u32);
            }
        }
        Self { bytes, len }
    }
}

/// Select a color from the ANSI palette
pub fn select_color(index: usize, bright: bool) -> (c: RgbColor)
    ensures
        c == palette_color(index as int, bright),
{
    if index >= 8 {
        return default_fg_color();
    }
    if bright {
        match index {
            0 => RgbColor::new(0x55, 0x55, 0x55),
            1 => RgbColor::new(0xFF, 0x55, 0x55),
            2 => RgbColor::new(0x55, 0xFF, 0x55),
            3 => RgbColor::new(0xFF, 0xFF, 0x55),
            4 => RgbColor::new(0x55, 0x55, 0xFF),
            5 => RgbColor::new(0xFF, 0x55, 0xFF),
            6 => RgbColor::new(0x55, 0xFF, 0xFF),
            _ => RgbColor::new(0xFF, 0xFF, 0xFF),
        }
    } else {
        match index {
            0 => RgbColor::new(0x00, 0x00, 0x00),
            1 => RgbColor::new(0xAA, 0x00, 0x00),
            2 => RgbColor::new(0x00, 0xAA, 0x00),
            3 => RgbColor::new(0xAA, 0x55, 0x00),
            4 => RgbColor::new(0x00, 0x00, 0xAA),
            5 => RgbColor::new(0xAA, 0x00, 0xAA),
            6 => RgbColor::new(0x00, 0xAA, 0xAA),
            _ => RgbColor::new(0xAA, 0xAA, 0xAA),
        }
    }
}

/// Where a color channel sits in a pixel: the position of its lowest bit
/// and its width in bits (the framebuffer's field description).
#[derive(Clone, Copy, Debug, PartialEq, Eq, Structural)]
pub struct FramebufferField {
    pub position: u8,
    pub size: u8,
}

/// The largest value of a channel of `size` bits.
pub open spec fn field_max(size: u8) -> u32 {
    if size >= 31 {
        u32::MAX
    } else {
        ((1u32 << size) - 1) as u32
    }
}

/// A channel value scaled from 0..255 to the field's range, rounded, and
/// moved to its position.
pub open spec fn pack_component_spec(f: FramebufferField, value: u8) -> u32 {
    if f.size == 0 {
        0
    } else {
        (((value * field_max(f.size) + 127) / 255) as u32) << f.position
    }
}

/// The inputs on which scaling a channel stays within 32 bits.
pub open spec fn component_ok(f: FramebufferField, value: u8) -> bool {
    f.size == 0 || (f.position < 32 && value * field_max(f.size) + 127 <= u32::MAX)
}

fn field_max_of(size: u8) -> (r: u32)
    requires
        size > 0,
    ensures
        r == field_max(size),
{
    if size >= 31 {
        u32::MAX
    } else {
        assert((1u32 << size) >= 1) by (bit_vector)
            requires
                0 < size < 31,
        ;
        (1u32 << size) - 1
    }
}

/// Scale a channel value into its field.
pub fn pack_component(field: &FramebufferField, value: u8) -> (r: u32)
    requires
        component_ok(*field, value),
    ensures
        r == pack_component_spec(*field, value),
{
    if field.size == 0 {
        return 0;
    }
    let max_value = field_max_of(field.size);
    let scaled = (value as u32 * max_value + 127) / 255;
    scaled << field.position
}

/// Pack RGB values into a pixel according to framebuffer format
pub fn pack_color(red: &FramebufferField, green: &FramebufferField, blue: &FramebufferField, r: u8, g: u8, b: u8) -> (c: u32)
    requires
        component_ok(*red, r),
        component_ok(*green, g),
        component_ok(*blue, b),
    ensures
        c == pack_component_spec(*red, r) | pack_component_spec(*green, g) | pack_component_spec(
            *blue,
            b,
        ),
{
    pack_component(red, r) | pack_component(green, g) | pack_component(blue, b)
}

} // verus!
