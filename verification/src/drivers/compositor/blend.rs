//! Pixel blending

use vstd::prelude::*;
use vstd::arithmetic::div_mod::lemma_fundamental_div_mod_converse;
use super::config::{BATCH_BLEND_THRESHOLD, SIMD_BATCH_SIZE};
use super::memory::{color_byte, le32, read_le32, write_le32, bytes_written};

verus! {

/// Channel `k` (0 to 3, lowest byte first) of a 32-bit pixel.
pub open spec fn chan(p: u32, k: u32) -> u32 {
    (p >> (8 * k)) & 0xFF
}

/// One blended channel: `(s * alpha + d * inv_alpha + 128) / 256`.
pub open spec fn blend_chan(s: u32, d: u32, alpha: u32, inv_alpha: u32) -> u32 {
    ((s * alpha + d * inv_alpha + 128) / 256) as u32
}

/// Fast alpha blend of a single 32-bit pixel
///
/// Blends the red, green and blue channels with weights `alpha` and
/// `inv_alpha` (which sum to at most 256), rounding, and keeps the
/// destination's alpha channel.  Red and blue are computed together in
/// one word.
pub fn blend_pixel_fast(src: u32, dst: u32, alpha: u32, inv_alpha: u32) -> (r: u32)
    requires
        alpha + inv_alpha <= 256,
    ensures
        r & 0xFF == blend_chan(src & 0xFF, dst & 0xFF, alpha, inv_alpha),
        (r >> 8) & 0xFF == blend_chan((src >> 8) & 0xFF, (dst >> 8) & 0xFF, alpha, inv_alpha),
        (r >> 16) & 0xFF == blend_chan((src >> 16) & 0xFF, (dst >> 16) & 0xFF, alpha, inv_alpha),
        (r >> 24) & 0xFF == (dst >> 24) & 0xFF,
{
    let src_rb = src & 0x00FF00FF;
    let dst_rb = dst & 0x00FF00FF;
    let src_ga = (src >> 8) & 0x00FF00FF;
    let dst_ga = (dst >> 8) & 0x00FF00FF;
    let ghost sr = src & 0xFF;
    let ghost sb = (src >> 16) & 0xFF;
    let ghost dr = dst & 0xFF;
    let ghost db = (dst >> 16) & 0xFF;
    let ghost sg = (src >> 8) & 0xFF;
    let ghost dg = (dst >> 8) & 0xFF;
    proof {
        lemma_bytes(src);
        lemma_bytes(dst);
        lemma_split_lanes(src, src_rb, src_ga);
        lemma_split_lanes(dst, dst_rb, dst_ga);
        lemma_lane_sum(sr as int, sb as int, dr as int, db as int, alpha as int, inv_alpha as int);
        lemma_lane_bound(sg as int, dg as int, alpha as int, inv_alpha as int);
    }
    let sum = src_rb * alpha + dst_rb * inv_alpha + 0x00800080;
    let rb = (sum >> 8) & 0x00FF00FF;
    let g_sum = (src_ga & 0xFF) * alpha + (dst_ga & 0xFF) * inv_alpha + 128;
    let g_blended = g_sum >> 8;
    let ghost l = (sr * alpha + dr * inv_alpha + 128) as u32;
    let ghost h = (sb * alpha + db * inv_alpha + 128) as u32;
    proof {
        lemma_rb_lanes(l, h, sum, rb);
        assert(g_blended < 256 && g_blended == g_sum / 256) by (bit_vector)
            requires
                g_sum < 65536,
                g_blended == g_sum >> 8,
        ;
    }
    let r = rb | (g_blended << 8) | (dst & 0xFF000000);
    proof {
        lemma_pack(rb, g_blended, dst, r);
    }
    r
}

proof fn lemma_bytes(p: u32)
    ensures
        p & 0xFF < 256,
        (p >> 8) & 0xFF < 256,
        (p >> 16) & 0xFF < 256,
{
    assert(p & 0xFF < 256 && (p >> 8) & 0xFF < 256 && (p >> 16) & 0xFF < 256) by (bit_vector);
}

/// The red-blue and green-alpha words of a pixel hold its channels two
/// bytes apart.
proof fn lemma_split_lanes(p: u32, rb: u32, ga: u32)
    requires
        rb == p & 0x00FF00FF,
        ga == (p >> 8) & 0x00FF00FF,
    ensures
        rb as int == (p & 0xFF) + 65536 * ((p >> 16) & 0xFF),
        ga & 0xFF == (p >> 8) & 0xFF,
{
    assert(rb as int == (p & 0xFF) + 65536 * ((p >> 16) & 0xFF) && ga & 0xFF == (p >> 8) & 0xFF)
        by (bit_vector)
        requires
            rb == p & 0x00FF00FF,
            ga == (p >> 8) & 0x00FF00FF,
    ;
}

/// Blending two channels held two bytes apart blends each of them.
proof fn lemma_lane_sum(sr: int, sb: int, dr: int, db: int, a: int, i: int)
    requires
        0 <= sr < 256,
        0 <= sb < 256,
        0 <= dr < 256,
        0 <= db < 256,
        0 <= a,
        0 <= i,
        a + i <= 256,
    ensures
        (sr + 65536 * sb) * a + (dr + 65536 * db) * i + 0x00800080 == (sr * a + dr * i + 128)
            + 65536 * (sb * a + db * i + 128),
        0 <= sr * a + dr * i + 128 < 65536,
        0 <= sb * a + db * i + 128 < 65536,
{
    assert((sr + 65536 * sb) * a + (dr + 65536 * db) * i + 0x00800080 == (sr * a + dr * i + 128)
        + 65536 * (sb * a + db * i + 128)) by (nonlinear_arith);
    lemma_lane_bound(sr, dr, a, i);
    lemma_lane_bound(sb, db, a, i);
}

proof fn lemma_lane_bound(s: int, d: int, a: int, i: int)
    requires
        0 <= s < 256,
        0 <= d < 256,
        0 <= a,
        0 <= i,
        a + i <= 256,
    ensures
        0 <= s * a + d * i + 128 < 65536,
{
    assert(0 <= s * a + d * i <= 255 * (a + i)) by (nonlinear_arith)
        requires
            0 <= s < 256,
            0 <= d < 256,
            0 <= a,
            0 <= i,
    ;
}

/// Shifting the two-lane sum down a byte leaves each lane's blend in its
/// low byte.
proof fn lemma_rb_lanes(l: u32, h: u32, sum: u32, rb: u32)
    requires
        l < 65536,
        h < 65536,
        sum as int == l as int + 65536 * h as int,
        rb == (sum >> 8) & 0x00FF00FF,
    ensures
        rb & 0xFF == l / 256,
        (rb >> 8) & 0xFF == 0,
        (rb >> 16) & 0xFF == h / 256,
        rb >> 24 == 0,
{
    assert(rb & 0xFF == l / 256 && (rb >> 8) & 0xFF == 0 && (rb >> 16) & 0xFF == h / 256 && rb
        >> 24 == 0) by (bit_vector)
        requires
            l < 65536,
            h < 65536,
            sum == l + 65536 * h,
            rb == (sum >> 8) & 0x00FF00FF,
    ;
}

/// Packing the lanes with the green byte and the destination's alpha.
proof fn lemma_pack(rb: u32, g: u32, dst: u32, r: u32)
    requires
        (rb >> 8) & 0xFF == 0,
        rb >> 24 == 0,
        g < 256,
        r == rb | (g << 8) | (dst & 0xFF000000),
    ensures
        r & 0xFF == rb & 0xFF,
        (r >> 8) & 0xFF == g,
        (r >> 16) & 0xFF == (rb >> 16) & 0xFF,
        (r >> 24) & 0xFF == (dst >> 24) & 0xFF,
{
    assert(r & 0xFF == rb & 0xFF && (r >> 8) & 0xFF == g && (r >> 16) & 0xFF == (rb >> 16) & 0xFF
        && (r >> 24) & 0xFF == (dst >> 24) & 0xFF) by (bit_vector)
        requires
            (rb >> 8) & 0xFF == 0,
            rb >> 24 == 0,
            g < 256,
            r == rb | (g << 8) | (dst & 0xFF000000),
    ;
}

/// Blend two pixels at once: the low and the high half of each word.
pub fn blend_pixel_pair_fast(src_pair: u64, dst_pair: u64, alpha: u32, inv_alpha: u32) -> (r: u64)
    requires
        alpha + inv_alpha <= 256,
    ensures
        r as u32 == blend_pixel_spec(src_pair as u32, dst_pair as u32, alpha, inv_alpha),
        (r >> 32) as u32 == blend_pixel_spec(
            (src_pair >> 32) as u32,
            (dst_pair >> 32) as u32,
            alpha,
            inv_alpha,
        ),
{
    let p0 = blend_pixel_fast(src_pair as u32, dst_pair as u32, alpha, inv_alpha);
    let p1 = blend_pixel_fast((src_pair >> 32) as u32, (dst_pair >> 32) as u32, alpha, inv_alpha);
    proof {
        lemma_pixel_unique(p0, src_pair as u32, dst_pair as u32, alpha, inv_alpha);
        lemma_pixel_unique(p1, (src_pair >> 32) as u32, (dst_pair >> 32) as u32, alpha, inv_alpha);
    }
    let r = (p0 as u64) | ((p1 as u64) << 32);
    assert(r as u32 == p0 && (r >> 32) as u32 == p1) by (bit_vector)
        requires
            r == (p0 as u64) | ((p1 as u64) << 32),
    ;
    r
}

/// The blended pixel: channels as `blend_pixel_fast` states them.
pub open spec fn blend_pixel_spec(src: u32, dst: u32, alpha: u32, inv_alpha: u32) -> u32 {
    blend_chan(src & 0xFF, dst & 0xFF, alpha, inv_alpha) | (blend_chan(
        (src >> 8) & 0xFF,
        (dst >> 8) & 0xFF,
        alpha,
        inv_alpha,
    ) << 8) | (blend_chan((src >> 16) & 0xFF, (dst >> 16) & 0xFF, alpha, inv_alpha) << 16) | (((dst
        >> 24) & 0xFF) << 24)
}

/// A pixel is fixed by its four channels.
proof fn lemma_pixel_unique(p: u32, src: u32, dst: u32, alpha: u32, inv_alpha: u32)
    requires
        alpha + inv_alpha <= 256,
        p & 0xFF == blend_chan(src & 0xFF, dst & 0xFF, alpha, inv_alpha),
        (p >> 8) & 0xFF == blend_chan((src >> 8) & 0xFF, (dst >> 8) & 0xFF, alpha, inv_alpha),
        (p >> 16) & 0xFF == blend_chan((src >> 16) & 0xFF, (dst >> 16) & 0xFF, alpha, inv_alpha),
        (p >> 24) & 0xFF == (dst >> 24) & 0xFF,
    ensures
        p == blend_pixel_spec(src, dst, alpha, inv_alpha),
{
    let c0 = blend_chan(src & 0xFF, dst & 0xFF, alpha, inv_alpha);
    let c1 = blend_chan((src >> 8) & 0xFF, (dst >> 8) & 0xFF, alpha, inv_alpha);
    let c2 = blend_chan((src >> 16) & 0xFF, (dst >> 16) & 0xFF, alpha, inv_alpha);
    let c3 = (dst >> 24) & 0xFF;
    assert(p == c0 | (c1 << 8) | (c2 << 16) | (c3 << 24)) by (bit_vector)
        requires
            p & 0xFF == c0,
            (p >> 8) & 0xFF == c1,
            (p >> 16) & 0xFF == c2,
            (p >> 24) & 0xFF == c3,
    ;
}


/// One channel alpha-blended in 8.8 fixed point with weights `alpha` and
/// `255 - alpha`, rounding.
pub open spec fn blend_byte(s: u8, d: u8, alpha: u8) -> u8 {
    ((s * alpha + d * (255 - alpha) + 128) / 256) as u8
}

/// One channel multiplied in 8.8 fixed point, rounding.
pub open spec fn multiply_byte(s: u8, d: u8) -> u8 {
    ((s * d + 128) / 256) as u8
}

/// One channel added, saturating at 255.
pub open spec fn saturating_byte(s: u8, d: u8) -> u8 {
    if s + d > 255 {
        255
    } else {
        (s + d) as u8
    }
}

/// `dst` with bytes 0 to 2 of each pixel of `bpp` bytes among the `n`
/// bytes at `d_off` combined by `f` with the byte at the same place after
/// `s_off` in `src`; all other bytes stay.
pub open spec fn mixed(dst: Seq<u8>, d_off: int, src: Seq<u8>, s_off: int, n: int, bpp: int, f: spec_fn(u8, u8) -> u8) -> Seq<u8> {
    Seq::new(
        dst.len(),
        |i: int|
            if bpp > 0 && d_off <= i < d_off + n && (i - d_off) % bpp < 3 {
                f(src[s_off + (i - d_off)], dst[i])
            } else {
                dst[i]
            },
    )
}

/// The 32-bit additive blend: a wrapping sum whose bytes are set to 0xFF
/// where the top bit of a byte shows a carry out of it.
pub open spec fn additive_swar(src: u32, dst: u32) -> u32 {
    let sum = src.wrapping_add(dst);
    let m = ((!sum & src) | (!sum & dst)) & 0x80808080u32;
    sum | (m | (m >> 1u32) | (m >> 2u32) | (m >> 3u32) | (m >> 4u32) | (m >> 5u32) | (m >> 6u32) | (m
        >> 7u32))
}

/// `dst` with the `pixels` 32-bit pixels at `d_off` replaced by
/// `additive_swar` of the source pixel at the same place after `s_off`
/// and the pixel itself.
pub open spec fn added_wide(dst: Seq<u8>, d_off: int, src: Seq<u8>, s_off: int, pixels: int) -> Seq<u8> {
    Seq::new(
        dst.len(),
        |i: int|
            if d_off <= i < d_off + 4 * pixels {
                color_byte(
                    additive_swar(
                        le32(src, s_off + (i - d_off) / 4 * 4),
                        le32(dst, d_off + (i - d_off) / 4 * 4),
                    ),
                    (i - d_off) % 4,
                )
            } else {
                dst[i]
            },
    )
}

/// Byte `c` of pixel `p` of a row lies at `4 * p + c`.
proof fn lemma_pixel_place(p: int, c: int)
    requires
        p >= 0,
        0 <= c < 4,
    ensures
        (4 * p + c) / 4 == p,
        (4 * p + c) % 4 == c,
{
    lemma_fundamental_div_mod_converse(4 * p + c, 4, p, c);
}

/// A byte of a pixel word, read back as a number.
proof fn lemma_byte_value(v: u32)
    ensures
        (v & 0xFF) == color_byte(v, 0) as u32,
        ((v >> 8) & 0xFF) == color_byte(v, 1) as u32,
        ((v >> 16) & 0xFF) == color_byte(v, 2) as u32,
        ((v >> 24) & 0xFF) == color_byte(v, 3) as u32,
{
    assert(v & 0xFF < 256 && (v >> 8) & 0xFF < 256 && (v >> 16) & 0xFF < 256 && (v >> 24) & 0xFF
        < 256) by (bit_vector);
}

/// A channel blended by `blend_chan` is the byte `blend_byte` gives.
proof fn lemma_blend_channel(sb: u8, db: u8, a: u32, v: u32)
    requires
        a <= 255,
        v == blend_chan(sb as u32, db as u32, a, (255 - a) as u32),
    ensures
        v < 256,
        v as u8 == blend_byte(sb, db, a as u8),
{
    lemma_lane_bound(sb as int, db as int, a as int, 255 - a);
}

/// Alpha blend of one channel byte in the narrow path.
fn blend_one(s: u8, d: u8, alpha: u8) -> (r: u8)
    ensures
        r == blend_byte(s, d, alpha),
{
    let a = alpha as u32;
    let ia = 255u32 - a;
    proof {
        lemma_lane_bound(s as int, d as int, a as int, ia as int);
    }
    let x = (s as u32) * a + (d as u32) * ia + 128;
    let r = x >> 8u32;
    assert(r == x / 256 && r < 256) by (bit_vector)
        requires
            x < 65536,
            r == x >> 8u32,
    ;
    r as u8
}

/// Scalar fallback for alpha blending
///
/// Bytes 0 to 2 of each pixel are blended; further bytes stay.
pub fn blend_row_alpha_scalar(src: &[u8], s_off: usize, dst: &mut Vec<u8>, d_off: usize, pixels: usize, bpp: usize, alpha: u8)
    requires
        s_off + pixels * bpp <= src@.len(),
        d_off + pixels * bpp <= old(dst).len(),
    ensures
        final(dst)@ == mixed(old(dst)@, d_off as int, src@, s_off as int, pixels * bpp, bpp as int, |s: u8, d: u8| blend_byte(s, d, alpha)),
{
    let ghost orig = dst@;
    let n = pixels * bpp;
    let mut j: usize = 0;
    while j < n
        invariant
            j <= n,
            n == pixels * bpp,
            s_off + n <= src.len(),
            src@.len() == src.len(),
            d_off + n <= dst.len(),
            dst@ == mixed(orig, d_off as int, src@, s_off as int, j as int, bpp as int, |s: u8, d: u8| blend_byte(s, d, alpha)),
        decreases n - j,
    {
        if j % bpp < 3 {
            let r = blend_one(src[s_off + j], dst[d_off + j], alpha);
            dst.set(d_off + j, r);
        }
        j = j + 1;
        assert(dst@ =~= mixed(orig, d_off as int, src@, s_off as int, j as int, bpp as int, |s: u8, d: u8| blend_byte(s, d, alpha)));
    }
}

/// Alpha blend a row of pixels
///
/// Bytes 0 to 2 of each pixel are blended with weights `alpha` and
/// `255 - alpha`; further bytes stay.  Rows of at least
/// `BATCH_BLEND_THRESHOLD` 32-bit pixels go a pixel word at a time, with
/// the same result.
pub fn blend_row_alpha(src: &[u8], s_off: usize, dst: &mut Vec<u8>, d_off: usize, pixels: usize, bpp: usize, alpha: u8)
    requires
        s_off + pixels * bpp <= src@.len(),
        d_off + pixels * bpp <= old(dst).len(),
    ensures
        final(dst)@ == mixed(old(dst)@, d_off as int, src@, s_off as int, pixels * bpp, bpp as int, |s: u8, d: u8| blend_byte(s, d, alpha)),
{
    if bpp != 4 || pixels < BATCH_BLEND_THRESHOLD {
        blend_row_alpha_scalar(src, s_off, dst, d_off, pixels, bpp, alpha);
        return;
    }
    let ghost orig = dst@;
    let alpha32 = alpha as u32;
    let inv_alpha32 = 255u32 - alpha32;
    let mut p: usize = 0;
    while p < pixels
        invariant
            p <= pixels,
            bpp == 4,
            alpha32 == alpha as u32,
            inv_alpha32 == 255 - alpha32,
            s_off + pixels * 4 <= src.len(),
            src@.len() == src.len(),
            d_off + pixels * 4 <= dst.len(),
            dst@.len() == orig.len(),
            dst@ == mixed(orig, d_off as int, src@, s_off as int, 4 * p, 4, |s: u8, d: u8| blend_byte(s, d, alpha)),
        decreases pixels - p,
    {
        let s = read_le32(src, s_off + 4 * p);
        let d = read_le32(dst.as_slice(), d_off + 4 * p);
        let r = blend_pixel_fast(s, d, alpha32, inv_alpha32);
        let ghost prev = dst@;
        write_le32(dst, d_off + 4 * p, r);
        proof {
            lemma_byte_value(s);
            lemma_byte_value(d);
            lemma_byte_value(r);
            lemma_blend_channel(color_byte(s, 0), color_byte(d, 0), alpha32, r & 0xFF);
            lemma_blend_channel(color_byte(s, 1), color_byte(d, 1), alpha32, (r >> 8) & 0xFF);
            lemma_blend_channel(color_byte(s, 2), color_byte(d, 2), alpha32, (r >> 16) & 0xFF);
            let next = mixed(orig, d_off as int, src@, s_off as int, 4 * (p + 1), 4, |s: u8, d: u8| blend_byte(s, d, alpha));
            assert forall|i: int| 0 <= i < dst@.len() implies dst@[i] == next[i] by {
                if d_off + 4 * p <= i < d_off + 4 * p + 4 {
                    let c = i - (d_off + 4 * p);
                    lemma_pixel_place(p as int, c);
                    assert(color_byte(s, c) == src@[s_off + 4 * p + c]);
                    assert(color_byte(d, c) == prev[d_off + 4 * p + c]);
                }
            }
            assert(dst@ =~= next);
        }
        p = p + 1;
    }
}

/// Fast additive blend for a single pixel
pub fn additive_blend_pixel(src: u32, dst: u32) -> (r: u32)
    ensures
        r == additive_swar(src, dst),
{
    let sum = src.wrapping_add(dst);
    let overflow_mask = ((!sum & src) | (!sum & dst)) & 0x80808080u32;
    let saturate = overflow_mask | (overflow_mask >> 1u32) | (overflow_mask >> 2u32) | (
    overflow_mask >> 3u32) | (overflow_mask >> 4u32) | (overflow_mask >> 5u32) | (overflow_mask
        >> 6u32) | (overflow_mask >> 7u32);
    sum | saturate
}

/// Scalar fallback for additive blending
///
/// Bytes 0 to 2 of each pixel are added, saturating; further bytes stay.
pub fn blend_row_additive_scalar(src: &[u8], s_off: usize, dst: &mut Vec<u8>, d_off: usize, pixels: usize, bpp: usize)
    requires
        s_off + pixels * bpp <= src@.len(),
        d_off + pixels * bpp <= old(dst).len(),
    ensures
        final(dst)@ == mixed(old(dst)@, d_off as int, src@, s_off as int, pixels * bpp, bpp as int, |s: u8, d: u8| saturating_byte(s, d)),
{
    let ghost orig = dst@;
    let n = pixels * bpp;
    let mut j: usize = 0;
    while j < n
        invariant
            j <= n,
            n == pixels * bpp,
            s_off + n <= src.len(),
            src@.len() == src.len(),
            d_off + n <= dst.len(),
            dst@ == mixed(orig, d_off as int, src@, s_off as int, j as int, bpp as int, |s: u8, d: u8| saturating_byte(s, d)),
        decreases n - j,
    {
        if j % bpp < 3 {
            let r = src[s_off + j].saturating_add(dst[d_off + j]);
            dst.set(d_off + j, r);
        }
        j = j + 1;
        assert(dst@ =~= mixed(orig, d_off as int, src@, s_off as int, j as int, bpp as int, |s: u8, d: u8| saturating_byte(s, d)));
    }
}

/// Additive blend a row of pixels
///
/// Rows of at least `BATCH_BLEND_THRESHOLD` 32-bit pixels are blended a
/// pixel word at a time by `additive_blend_pixel` (all four bytes, in
/// batches of `SIMD_BATCH_SIZE`); other rows byte by byte as
/// `blend_row_additive_scalar` does.
pub fn blend_row_additive(src: &[u8], s_off: usize, dst: &mut Vec<u8>, d_off: usize, pixels: usize, bpp: usize)
    requires
        s_off + pixels * bpp <= src@.len(),
        d_off + pixels * bpp <= old(dst).len(),
    ensures
        final(dst)@ == (if bpp == 4 && pixels >= BATCH_BLEND_THRESHOLD {
            added_wide(old(dst)@, d_off as int, src@, s_off as int, pixels as int)
        } else {
            mixed(old(dst)@, d_off as int, src@, s_off as int, pixels * bpp, bpp as int, |s: u8, d: u8| saturating_byte(s, d))
        }),
{
    if bpp != 4 || pixels < BATCH_BLEND_THRESHOLD {
        blend_row_additive_scalar(src, s_off, dst, d_off, pixels, bpp);
        return;
    }
    let ghost orig = dst@;
    let mut p: usize = 0;
    while p < pixels
        invariant
            p <= pixels,
            bpp == 4,
            s_off + pixels * 4 <= src.len(),
            src@.len() == src.len(),
            d_off + pixels * 4 <= dst.len(),
            dst@.len() == orig.len(),
            forall|i: int| d_off + 4 * p <= i < dst@.len() ==> dst@[i] == orig[i],
            forall|i: int| 0 <= i < d_off ==> dst@[i] == orig[i],
            dst@ == added_wide(orig, d_off as int, src@, s_off as int, p as int),
        decreases pixels - p,
    {
        let s = read_le32(src, s_off + 4 * p);
        let d = read_le32(dst.as_slice(), d_off + 4 * p);
        let r = additive_blend_pixel(s, d);
        let ghost prev = dst@;
        write_le32(dst, d_off + 4 * p, r);
        proof {
            let next = added_wide(orig, d_off as int, src@, s_off as int, (p + 1) as int);
            assert(le32(prev, d_off + 4 * p) == le32(orig, d_off + 4 * p));
            assert forall|i: int| 0 <= i < dst@.len() implies dst@[i] == next[i] by {
                if d_off + 4 * p <= i < d_off + 4 * p + 4 {
                    lemma_pixel_place(p as int, i - (d_off + 4 * p));
                }
            }
            assert(dst@ =~= next);
        }
        p = p + 1;
    }
}

/// Multiply one channel byte.
fn multiply_one(s: u8, d: u8) -> (r: u8)
    ensures
        r == multiply_byte(s, d),
{
    proof {
        lemma_lane_bound(s as int, 0, d as int, 0);
    }
    let x = (s as u32) * (d as u32) + 128;
    let r = x >> 8u32;
    assert(r == x / 256 && r < 256) by (bit_vector)
        requires
            x < 65536,
            r == x >> 8u32,
    ;
    r as u8
}

/// A product of two channel bytes, rounded to a byte.
proof fn lemma_product_byte(x: u32, p: u32)
    requires
        x + 128 < 65536,
        p == (((x + 128) as u32) >> 8u32) & 0xFF,
    ensures
        p == (x + 128) / 256,
        p < 256,
{
    assert(p == (x + 128) / 256 && p < 256) by (bit_vector)
        requires
            x + 128 < 65536,
            p == (((x + 128) as u32) >> 8u32) & 0xFF,
    ;
}

/// Fast multiply blend for a single pixel
///
/// Red, green and blue are multiplied (rounding); the destination keeps
/// its alpha byte.
pub fn multiply_blend_pixel(src: u32, dst: u32) -> (r: u32)
    ensures
        forall|c: int| 0 <= c < 3 ==> #[trigger] color_byte(r, c) == multiply_byte(color_byte(src, c), color_byte(dst, c)),
        color_byte(r, 3) == color_byte(dst, 3),
{
    let src_rb = src & 0x00FF00FF;
    let dst_rb = dst & 0x00FF00FF;
    let src_g = (src >> 8) & 0xFF;
    let dst_g = (dst >> 8) & 0xFF;
    let s0 = src_rb & 0xFF;
    let d0 = dst_rb & 0xFF;
    let s2 = (src_rb >> 16) & 0xFF;
    let d2 = (dst_rb >> 16) & 0xFF;
    assert(s0 == src & 0xFF && d0 == dst & 0xFF && s2 == (src >> 16) & 0xFF && d2 == (dst >> 16)
        & 0xFF && s0 < 256 && d0 < 256 && s2 < 256 && d2 < 256 && src_g < 256 && dst_g < 256)
        by (bit_vector)
        requires
            src_rb == src & 0x00FF00FF,
            dst_rb == dst & 0x00FF00FF,
            s0 == src_rb & 0xFF,
            d0 == dst_rb & 0xFF,
            s2 == (src_rb >> 16) & 0xFF,
            d2 == (dst_rb >> 16) & 0xFF,
            src_g == (src >> 8) & 0xFF,
            dst_g == (dst >> 8) & 0xFF,
    ;
    proof {
        lemma_lane_bound(s0 as int, 0, d0 as int, 0);
        lemma_lane_bound(s2 as int, 0, d2 as int, 0);
        lemma_lane_bound(src_g as int, 0, dst_g as int, 0);
        lemma_byte_value(src);
        lemma_byte_value(dst);
    }
    let rb_lo = s0 * d0;
    let rb_hi = s2 * d2;
    let lo = ((rb_lo + 128) >> 8u32) & 0xFF;
    let hi = ((rb_hi + 128) >> 8u32) & 0xFF;
    let rb = lo | (hi << 16u32);
    let gx = src_g * dst_g;
    let g = ((gx + 128) >> 8u32) & 0xFF;
    proof {
        lemma_product_byte(rb_lo, lo);
        lemma_product_byte(rb_hi, hi);
        lemma_product_byte(gx, g);
    }
    let r = rb | (g << 8u32) | (dst & 0xFF000000);
    assert(color_byte(r, 0) == lo as u8 && color_byte(r, 1) == g as u8 && color_byte(r, 2) == hi as u8
        && color_byte(r, 3) == color_byte(dst, 3)) by (bit_vector)
        requires
            lo < 256,
            hi < 256,
            g < 256,
            rb == lo | (hi << 16u32),
            r == rb | (g << 8u32) | (dst & 0xFF000000),
    ;
    r
}

/// Scalar fallback for multiply blending
///
/// Bytes 0 to 2 of each pixel are multiplied; further bytes stay.
pub fn blend_row_multiply_scalar(src: &[u8], s_off: usize, dst: &mut Vec<u8>, d_off: usize, pixels: usize, bpp: usize)
    requires
        s_off + pixels * bpp <= src@.len(),
        d_off + pixels * bpp <= old(dst).len(),
    ensures
        final(dst)@ == mixed(old(dst)@, d_off as int, src@, s_off as int, pixels * bpp, bpp as int, |s: u8, d: u8| multiply_byte(s, d)),
{
    let ghost orig = dst@;
    let n = pixels * bpp;
    let mut j: usize = 0;
    while j < n
        invariant
            j <= n,
            n == pixels * bpp,
            s_off + n <= src.len(),
            src@.len() == src.len(),
            d_off + n <= dst.len(),
            dst@ == mixed(orig, d_off as int, src@, s_off as int, j as int, bpp as int, |s: u8, d: u8| multiply_byte(s, d)),
        decreases n - j,
    {
        if j % bpp < 3 {
            let r = multiply_one(src[s_off + j], dst[d_off + j]);
            dst.set(d_off + j, r);
        }
        j = j + 1;
        assert(dst@ =~= mixed(orig, d_off as int, src@, s_off as int, j as int, bpp as int, |s: u8, d: u8| multiply_byte(s, d)));
    }
}

/// Multiply blend a row of pixels
///
/// Bytes 0 to 2 of each pixel are multiplied; further bytes stay.  Rows
/// of at least `BATCH_BLEND_THRESHOLD` 32-bit pixels go a pixel word at a
/// time, with the same result.
pub fn blend_row_multiply(src: &[u8], s_off: usize, dst: &mut Vec<u8>, d_off: usize, pixels: usize, bpp: usize)
    requires
        s_off + pixels * bpp <= src@.len(),
        d_off + pixels * bpp <= old(dst).len(),
    ensures
        final(dst)@ == mixed(old(dst)@, d_off as int, src@, s_off as int, pixels * bpp, bpp as int, |s: u8, d: u8| multiply_byte(s, d)),
{
    if bpp != 4 || pixels < BATCH_BLEND_THRESHOLD {
        blend_row_multiply_scalar(src, s_off, dst, d_off, pixels, bpp);
        return;
    }
    let ghost orig = dst@;
    let mut p: usize = 0;
    while p < pixels
        invariant
            p <= pixels,
            bpp == 4,
            s_off + pixels * 4 <= src.len(),
            src@.len() == src.len(),
            d_off + pixels * 4 <= dst.len(),
            dst@.len() == orig.len(),
            dst@ == mixed(orig, d_off as int, src@, s_off as int, 4 * p, 4, |s: u8, d: u8| multiply_byte(s, d)),
        decreases pixels - p,
    {
        let s = read_le32(src, s_off + 4 * p);
        let d = read_le32(dst.as_slice(), d_off + 4 * p);
        let r = multiply_blend_pixel(s, d);
        let ghost prev = dst@;
        write_le32(dst, d_off + 4 * p, r);
        proof {
            let next = mixed(orig, d_off as int, src@, s_off as int, 4 * (p + 1), 4, |s: u8, d: u8| multiply_byte(s, d));
            assert forall|i: int| 0 <= i < dst@.len() implies dst@[i] == next[i] by {
                if d_off + 4 * p <= i < d_off + 4 * p + 4 {
                    let c = i - (d_off + 4 * p);
                    lemma_pixel_place(p as int, c);
                    assert(color_byte(s, c) == src@[s_off + 4 * p + c]);
                    assert(color_byte(d, c) == prev[d_off + 4 * p + c]);
                }
            }
            assert(dst@ =~= next);
        }
        p = p + 1;
    }
}

} // verus!
