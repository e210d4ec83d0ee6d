//! Bulk framebuffer memory operations
//!
//! Framebuffer memory is a byte buffer; an operation names the bytes it
//! touches by their offsets in it.

use vstd::prelude::*;
use super::config::MIN_ROWS_PER_WORKER;

verus! {

/// Rows of a stripe: as many as fit about 200 KB of L2 cache, no more
/// than leave eight stripes per worker, at least `MIN_ROWS_PER_WORKER`,
/// rounded down to a multiple of 8.
pub open spec fn stripe_height_spec(width: int, height: int, bpp: int, num_workers: int) -> int {
    let bytes_per_row = width * bpp;
    let rows_in_cache = 204800int / (if bytes_per_row >= 1 {
        bytes_per_row
    } else {
        1int
    });
    let min_stripes = num_workers * 8;
    let max_stripe_height = height / (if min_stripes >= 1 {
        min_stripes
    } else {
        1int
    });
    let c0 = if rows_in_cache <= max_stripe_height {
        rows_in_cache
    } else {
        max_stripe_height
    };
    let computed = if c0 >= MIN_ROWS_PER_WORKER as int {
        c0
    } else {
        MIN_ROWS_PER_WORKER as int
    };
    (computed / 8) * 8
}

/// Calculate optimal stripe height based on cache size and the worker
/// count.
pub fn calculate_optimal_stripe_height(width: usize, height: usize, bpp: usize, num_workers: usize) -> (r: usize)
    requires
        width * bpp <= usize::MAX,
        num_workers * 8 <= usize::MAX,
    ensures
        r == stripe_height_spec(width as int, height as int, bpp as int, num_workers as int),
        r >= MIN_ROWS_PER_WORKER,
        r % 8 == 0,
{
    let bytes_per_row = width * bpp;
    let rows_in_cache: usize = 204800 / (if bytes_per_row >= 1 {
        bytes_per_row
    } else {
        1
    });
    let min_stripes = num_workers * 8;
    let max_stripe_height: usize = height / (if min_stripes >= 1 {
        min_stripes
    } else {
        1
    });
    let c0 = if rows_in_cache <= max_stripe_height {
        rows_in_cache
    } else {
        max_stripe_height
    };
    let computed = if c0 >= MIN_ROWS_PER_WORKER {
        c0
    } else {
        MIN_ROWS_PER_WORKER
    };
    (computed / 8) * 8
}

/// Optimal stripe height for parallel operations (see
/// `calculate_optimal_stripe_height`).
pub fn optimal_stripe_height(width: usize, height: usize, bpp: usize, num_workers: usize) -> (r: usize)
    requires
        width * bpp <= usize::MAX,
        num_workers * 8 <= usize::MAX,
    ensures
        r == stripe_height_spec(width as int, height as int, bpp as int, num_workers as int),
{
    calculate_optimal_stripe_height(width, height, bpp, num_workers)
}


/// Byte `c` (0 to 3, lowest first) of a 32-bit colour as it lies in
/// memory.
pub open spec fn color_byte(color: u32, c: int) -> u8 {
    if c == 0 {
        (color & 0xff) as u8
    } else if c == 1 {
        ((color >> 8u32) & 0xff) as u8
    } else if c == 2 {
        ((color >> 16u32) & 0xff) as u8
    } else {
        ((color >> 24u32) & 0xff) as u8
    }
}

/// Byte `k` (0 to 7, lowest first) of a 64-bit pattern as it lies in
/// memory.
pub open spec fn qword_byte(p: u64, k: int) -> u8 {
    ((p >> ((8 * k) as u64)) & 0xff) as u8
}

/// The four bytes of a colour, lowest first.
pub fn color_bytes(color: u32) -> (r: [u8; 4])
    ensures
        forall|c: int| 0 <= c < 4 ==> r[c] == color_byte(color, c),
{
    [(color & 0xff) as u8, ((color >> 8u32) & 0xff) as u8, ((color >> 16u32) & 0xff) as u8, ((color
        >> 24u32) & 0xff) as u8]
}

/// `s` with the bytes `[at, at + len)` set by `f` (applied to the offset
/// from `at`).
pub open spec fn bytes_written(s: Seq<u8>, at: int, len: int, f: spec_fn(int) -> u8) -> Seq<u8> {
    Seq::new(s.len(), |i: int| if at <= i < at + len { f(i - at) } else { s[i] })
}

/// `dst` with `len` bytes from `src` at `src_off` copied to `dst_off`.
pub open spec fn bytes_copied(dst: Seq<u8>, dst_off: int, src: Seq<u8>, src_off: int, len: int) -> Seq<u8> {
    bytes_written(dst, dst_off, len, |k: int| src[src_off + k])
}

/// Fill `len_bytes` bytes at `dst` with the repeated 64-bit `pattern`.
pub fn fast_fill_u64(buf: &mut Vec<u8>, dst: usize, len_bytes: usize, pattern: u64)
    requires
        dst + len_bytes <= old(buf).len(),
    ensures
        final(buf)@ == bytes_written(old(buf)@, dst as int, len_bytes as int, |k: int| qword_byte(pattern, k % 8)),
{
    let mut j: usize = 0;
    while j < len_bytes
        invariant
            j <= len_bytes,
            dst + len_bytes <= buf.len(),
            buf@ == bytes_written(old(buf)@, dst as int, j as int, |k: int| qword_byte(pattern, k % 8)),
        decreases len_bytes - j,
    {
        let k: u64 = (j % 8) as u64;
        let b = ((pattern >> (8 * k)) & 0xff) as u8;
        buf.set(dst + j, b);
        j = j + 1;
        assert(buf@ =~= bytes_written(old(buf)@, dst as int, j as int, |k: int| qword_byte(pattern, k % 8)));
    }
}

/// A 64-bit word holding `color` twice lies in memory as `color`'s bytes
/// twice.
proof fn lemma_doubled_color(color: u32, c64: u64)
    requires
        c64 == (color as u64) | ((color as u64) << 32u64),
    ensures
        forall|k: int| 0 <= k < 8 ==> #[trigger] qword_byte(c64, k) == color_byte(color, k % 4),
{
    assert(((c64 >> 0u64) & 0xff) as u8 == (color & 0xff) as u8) by (bit_vector)
        requires c64 == (color as u64) | ((color as u64) << 32u64);
    assert(((c64 >> 8u64) & 0xff) as u8 == ((color >> 8u32) & 0xff) as u8) by (bit_vector)
        requires c64 == (color as u64) | ((color as u64) << 32u64);
    assert(((c64 >> 16u64) & 0xff) as u8 == ((color >> 16u32) & 0xff) as u8) by (bit_vector)
        requires c64 == (color as u64) | ((color as u64) << 32u64);
    assert(((c64 >> 24u64) & 0xff) as u8 == ((color >> 24u32) & 0xff) as u8) by (bit_vector)
        requires c64 == (color as u64) | ((color as u64) << 32u64);
    assert(((c64 >> 32u64) & 0xff) as u8 == (color & 0xff) as u8) by (bit_vector)
        requires c64 == (color as u64) | ((color as u64) << 32u64);
    assert(((c64 >> 40u64) & 0xff) as u8 == ((color >> 8u32) & 0xff) as u8) by (bit_vector)
        requires c64 == (color as u64) | ((color as u64) << 32u64);
    assert(((c64 >> 48u64) & 0xff) as u8 == ((color >> 16u32) & 0xff) as u8) by (bit_vector)
        requires c64 == (color as u64) | ((color as u64) << 32u64);
    assert(((c64 >> 56u64) & 0xff) as u8 == ((color >> 24u32) & 0xff) as u8) by (bit_vector)
        requires c64 == (color as u64) | ((color as u64) << 32u64);
}

/// Fill `count_pixels` 32-bit pixels at `dst` with `color`: pixel by
/// pixel for fewer than 64, else as doubled 64-bit words.
pub fn streaming_fill_32(buf: &mut Vec<u8>, dst: usize, count_pixels: usize, color: u32)
    requires
        dst + count_pixels * 4 <= old(buf).len(),
    ensures
        final(buf)@ == bytes_written(old(buf)@, dst as int, count_pixels * 4, |k: int| color_byte(color, k % 4)),
{
    if count_pixels < 64 {
        let cb = color_bytes(color);
        let n = count_pixels * 4;
        let mut j: usize = 0;
        while j < n
            invariant
                j <= n,
                n == count_pixels * 4,
                dst + n <= buf.len(),
                forall|c: int| 0 <= c < 4 ==> cb[c] == color_byte(color, c),
                buf@ == bytes_written(old(buf)@, dst as int, j as int, |k: int| color_byte(color, k % 4)),
            decreases n - j,
        {
            buf.set(dst + j, cb[j % 4]);
            j = j + 1;
            assert(buf@ =~= bytes_written(old(buf)@, dst as int, j as int, |k: int| color_byte(color, k % 4)));
        }
        return;
    }
    let color64 = (color as u64) | ((color as u64) << 32u64);
    proof {
        lemma_doubled_color(color, color64);
    }
    fast_fill_u64(buf, dst, count_pixels * 4, color64);
    proof {
        assert forall|k: int| 0 <= k < count_pixels * 4 implies #[trigger] qword_byte(color64, k % 8) == color_byte(color, k % 4) by {
            assert(0 <= k % 8 < 8);
            assert((k % 8) % 4 == k % 4) by {
                vstd::arithmetic::div_mod::lemma_mod_mod(k, 4, 2);
            }
        }
        assert(buf@ =~= bytes_written(old(buf)@, dst as int, count_pixels * 4, |k: int| color_byte(color, k % 4)));
    }
}

/// Copy `len` bytes of `src` at `src_off` to `dst` at `dst_off`.
pub(crate) fn copy_across(src: &[u8], src_off: usize, dst: &mut Vec<u8>, dst_off: usize, len: usize)
    requires
        src_off + len <= src@.len(),
        dst_off + len <= old(dst).len(),
    ensures
        final(dst)@ == bytes_copied(old(dst)@, dst_off as int, src@, src_off as int, len as int),
{
    let mut j: usize = 0;
    while j < len
        invariant
            j <= len,
            src_off + len <= src.len(),
            dst_off + len <= dst.len(),
            dst@ == bytes_copied(old(dst)@, dst_off as int, src@, src_off as int, j as int),
        decreases len - j,
    {
        dst.set(dst_off + j, src[src_off + j]);
        j = j + 1;
        assert(dst@ =~= bytes_copied(old(dst)@, dst_off as int, src@, src_off as int, j as int));
    }
}

/// Copy `len` bytes inside `buf` from `src` to `dst`; the two ranges do
/// not overlap.
pub(crate) fn copy_inside(buf: &mut Vec<u8>, src: usize, dst: usize, len: usize)
    requires
        src + len <= old(buf).len(),
        dst + len <= old(buf).len(),
        src + len <= dst || dst + len <= src,
    ensures
        final(buf)@ == bytes_copied(old(buf)@, dst as int, old(buf)@, src as int, len as int),
{
    let ghost orig = buf@;
    let mut j: usize = 0;
    while j < len
        invariant
            j <= len,
            src + len <= buf.len(),
            dst + len <= buf.len(),
            src + len <= dst || dst + len <= src,
            buf@ == bytes_copied(orig, dst as int, orig, src as int, j as int),
        decreases len - j,
    {
        let b = buf[src + j];
        buf.set(dst + j, b);
        j = j + 1;
        assert(buf@ =~= bytes_copied(orig, dst as int, orig, src as int, j as int));
    }
}

/// Copy `len_bytes` bytes from `src` to `dst` (ranges apart), with
/// prefetching in the kernel.
pub fn fast_copy_prefetch(src: &[u8], src_off: usize, dst: &mut Vec<u8>, dst_off: usize, len_bytes: usize)
    requires
        src_off + len_bytes <= src@.len(),
        dst_off + len_bytes <= old(dst).len(),
    ensures
        final(dst)@ == bytes_copied(old(dst)@, dst_off as int, src@, src_off as int, len_bytes as int),
{
    copy_across(src, src_off, dst, dst_off, len_bytes)
}

/// Copy `len_bytes` bytes inside the framebuffer from `src` to `dst`
/// with string moves (ranges apart).
pub fn rep_movsq_copy(buf: &mut Vec<u8>, src: usize, dst: usize, len_bytes: usize)
    requires
        src + len_bytes <= old(buf).len(),
        dst + len_bytes <= old(buf).len(),
        src + len_bytes <= dst || dst + len_bytes <= src,
    ensures
        final(buf)@ == bytes_copied(old(buf)@, dst as int, old(buf)@, src as int, len_bytes as int),
{
    copy_inside(buf, src, dst, len_bytes)
}

/// Copy `len_bytes` bytes inside the framebuffer from `src` to `dst`
/// (ranges apart): string moves under 64 KiB, non-temporal stores above.
pub fn streaming_copy(buf: &mut Vec<u8>, src: usize, dst: usize, len_bytes: usize)
    requires
        src + len_bytes <= old(buf).len(),
        dst + len_bytes <= old(buf).len(),
        src + len_bytes <= dst || dst + len_bytes <= src,
    ensures
        final(buf)@ == bytes_copied(old(buf)@, dst as int, old(buf)@, src as int, len_bytes as int),
{
    if len_bytes < 64 * 1024 {
        rep_movsq_copy(buf, src, dst, len_bytes);
        return;
    }
    copy_inside(buf, src, dst, len_bytes)
}


/// The little-endian 32-bit word at `off` of `s`.
pub open spec fn le32(s: Seq<u8>, off: int) -> u32 {
    (s[off] as u32) | ((s[off + 1] as u32) << 8u32) | ((s[off + 2] as u32) << 16u32) | ((s[off
        + 3] as u32) << 24u32)
}

/// The bytes of a word assembled from four bytes are those bytes.
proof fn lemma_le32_bytes(b0: u8, b1: u8, b2: u8, b3: u8, r: u32)
    requires
        r == (b0 as u32) | ((b1 as u32) << 8u32) | ((b2 as u32) << 16u32) | ((b3 as u32) << 24u32),
    ensures
        color_byte(r, 0) == b0,
        color_byte(r, 1) == b1,
        color_byte(r, 2) == b2,
        color_byte(r, 3) == b3,
{
    assert((r & 0xff) as u8 == b0 && ((r >> 8u32) & 0xff) as u8 == b1 && ((r >> 16u32) & 0xff) as u8
        == b2 && ((r >> 24u32) & 0xff) as u8 == b3) by (bit_vector)
        requires
            r == (b0 as u32) | ((b1 as u32) << 8u32) | ((b2 as u32) << 16u32) | ((b3 as u32)
                << 24u32),
    ;
}

/// Read the little-endian 32-bit pixel at `off`.
pub(crate) fn read_le32(buf: &[u8], off: usize) -> (r: u32)
    requires
        off + 4 <= buf@.len(),
    ensures
        r == le32(buf@, off as int),
        forall|c: int| 0 <= c < 4 ==> #[trigger] color_byte(r, c) == buf@[off + c],
{
    let r = (buf[off] as u32) | ((buf[off + 1] as u32) << 8u32) | ((buf[off + 2] as u32) << 16u32)
        | ((buf[off + 3] as u32) << 24u32);
    proof {
        lemma_le32_bytes(buf@[off as int], buf@[off + 1], buf@[off + 2], buf@[off + 3], r);
    }
    r
}

/// Write the 32-bit pixel `v` at `off`, lowest byte first.
pub(crate) fn write_le32(buf: &mut Vec<u8>, off: usize, v: u32)
    requires
        off + 4 <= old(buf).len(),
    ensures
        final(buf)@ == bytes_written(old(buf)@, off as int, 4, |k: int| color_byte(v, k)),
{
    let cb = color_bytes(v);
    buf.set(off, cb[0]);
    buf.set(off + 1, cb[1]);
    buf.set(off + 2, cb[2]);
    buf.set(off + 3, cb[3]);
    assert(buf@ =~= bytes_written(old(buf)@, off as int, 4, |k: int| color_byte(v, k)));
}

} // verus!
