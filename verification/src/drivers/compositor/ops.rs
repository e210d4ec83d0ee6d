//! Framebuffer fills, copies and scrolling
//!
//! The framebuffer is a byte buffer whose rows lie `pitch` bytes apart:
//! row `r` starts at offset `r * pitch`, and pixel `p` of a row at byte
//! `p * bpp` of it.  Whether work is shared among CPUs changes how fast
//! an operation runs, not which bytes it writes, except where a contract
//! says so.

use vstd::prelude::*;
use vstd::arithmetic::div_mod::{lemma_fundamental_div_mod, lemma_fundamental_div_mod_converse};
use vstd::arithmetic::mul::{lemma_mul_inequality, lemma_mul_is_commutative, lemma_mul_is_distributive_add_other_way};
use super::config::PARALLEL_SCROLL_THRESHOLD;
use super::memory::{color_byte, color_bytes, copy_inside, copy_across, rep_movsq_copy, streaming_copy, streaming_fill_32, bytes_written, bytes_copied};
use super::types::CompositionRegion;

verus! {

/// Byte `i` lies in rows `[y, y + h)` of rows `pitch` bytes long, at an
/// offset in its row in `[xb, xb + wb)`.
pub open spec fn in_block(pitch: int, y: int, h: int, xb: int, wb: int, i: int) -> bool {
    pitch > 0 && y <= i / pitch < y + h && xb <= i % pitch < xb + wb
}

/// Offset of byte `i` from byte `xb` of its row.
pub open spec fn block_col(pitch: int, xb: int, i: int) -> int {
    i % pitch - xb
}

/// `old` with the `w` x `h` pixels at pixel (x, y) set to `color`: bytes 0
/// to 3 of each pixel take the colour's bytes, further bytes stay.
pub open spec fn filled_rect(old: Seq<u8>, pitch: int, bpp: int, x: int, y: int, w: int, h: int, color: u32) -> Seq<u8> {
    Seq::new(
        old.len(),
        |i: int|
            if bpp > 0 && in_block(pitch, y, h, x * bpp, w * bpp, i) && block_col(pitch, x * bpp, i)
                % bpp < 4 {
                color_byte(color, block_col(pitch, x * bpp, i) % bpp)
            } else {
                old[i]
            },
    )
}

/// `old` with rows `[start, start + n)` cleared to `color` over their
/// first `width` pixels: bytes 0 to 3 of each pixel take the colour's
/// bytes, and the further bytes of every cleared row those of the first
/// cleared row.
pub open spec fn cleared_rows(old: Seq<u8>, pitch: int, bpp: int, width: int, start: int, n: int, color: u32) -> Seq<u8> {
    Seq::new(
        old.len(),
        |i: int|
            if bpp > 0 && in_block(pitch, start, n, 0, width * bpp, i) {
                if (i % pitch) % bpp < 4 {
                    color_byte(color, (i % pitch) % bpp)
                } else {
                    old[start * pitch + i % pitch]
                }
            } else {
                old[i]
            },
    )
}

/// `old` with the first `row_bytes` bytes of each row in `[start, end)`
/// taken from the row `distance` rows below.
pub open spec fn moved_rows(old: Seq<u8>, pitch: int, row_bytes: int, distance: int, start: int, end: int) -> Seq<u8> {
    Seq::new(
        old.len(),
        |i: int|
            if in_block(pitch, start, end - start, 0, row_bytes, i) {
                old[i + distance * pitch]
            } else {
                old[i]
            },
    )
}

/// The framebuffer after scrolling up by `s` rows of `height`: rows move
/// up by `s` over `width` pixels, and the `s` rows freed at the bottom
/// are cleared to `color`.  Nothing changes unless `0 < s < height`.
pub open spec fn scrolled(old: Seq<u8>, pitch: int, width: int, height: int, bpp: int, s: int, color: u32) -> Seq<u8> {
    if 0 < s < height {
        cleared_rows(
            moved_rows(old, pitch, width * bpp, s, 0, height - s),
            pitch,
            bpp,
            width,
            height - s,
            s,
            color,
        )
    } else {
        old
    }
}

/// `dst` with the `w` x `h` pixels at (dx, dy) taken from the pixels at
/// (sx, sy) of `src`, whose rows lie `src_pitch` bytes apart.
pub open spec fn copied_rect(
    dst: Seq<u8>,
    dst_pitch: int,
    src: Seq<u8>,
    src_pitch: int,
    bpp: int,
    sx: int,
    sy: int,
    w: int,
    h: int,
    dx: int,
    dy: int,
) -> Seq<u8> {
    Seq::new(
        dst.len(),
        |i: int|
            if in_block(dst_pitch, dy, h, dx * bpp, w * bpp, i) {
                src[(sy + i / dst_pitch - dy) * src_pitch + sx * bpp + block_col(dst_pitch, dx * bpp, i)]
            } else {
                dst[i]
            },
    )
}

/// A byte lies in the stretch `[xb, xb + wb)` of row `row` exactly when its
/// offset is in that stretch.
pub(crate) proof fn lemma_block_row(pitch: int, row: int, xb: int, wb: int, i: int)
    requires
        pitch > 0,
        row >= 0,
        xb >= 0,
        wb >= 0,
        xb + wb <= pitch,
        i >= 0,
    ensures
        (row * pitch + xb <= i < row * pitch + xb + wb) <==> (i / pitch == row && xb <= i % pitch
            < xb + wb),
        row * pitch + xb <= i < row * pitch + xb + wb ==> i % pitch - xb == i - (row * pitch + xb),
{
    lemma_fundamental_div_mod(i, pitch);
    lemma_mul_is_commutative(pitch, i / pitch);
    if row * pitch + xb <= i < row * pitch + xb + wb {
        lemma_fundamental_div_mod_converse(i, pitch, row, i - row * pitch);
    }
}

/// Rows below the last one end before it.
pub(crate) proof fn lemma_row_end(pitch: int, r: int, last: int, tail: int, len: int)
    requires
        0 <= r <= last,
        pitch >= 0,
        last * pitch + tail <= len,
    ensures
        r * pitch + tail <= len,
        pitch >= 1 && tail >= 0 ==> r <= len,
{
    lemma_mul_inequality(r, last, pitch);
    if pitch >= 1 && tail >= 0 {
        lemma_mul_inequality(1, pitch, r);
    }
}

/// A row of at least one pixel of at least one byte has bytes.
pub(crate) proof fn lemma_row_positive(width: int, bpp: int)
    requires
        width >= 0,
        bpp >= 0,
    ensures
        width * bpp >= 0,
        width > 0 && bpp > 0 ==> width * bpp > 0,
        width == 0 || bpp == 0 ==> width * bpp == 0,
{
    if width > 0 && bpp > 0 {
        lemma_mul_inequality(1, width, bpp);
    }
    lemma_mul_inequality(0, width, bpp);
}

/// Set bytes 0 to 3 of each of `pixels` pixels of `bpp` bytes at `at` to
/// the bytes of `color`.
pub(crate) fn fill_span(buf: &mut Vec<u8>, at: usize, pixels: usize, bpp: usize, color: u32)
    requires
        bpp > 0,
        at + pixels * bpp <= old(buf).len(),
    ensures
        final(buf)@.len() == old(buf)@.len(),
        forall|i: int|
            0 <= i < old(buf)@.len() ==> #[trigger] final(buf)@[i] == (if at <= i < at + pixels
                * bpp && (i - at) % (bpp as int) < 4 {
                color_byte(color, (i - at) % (bpp as int))
            } else {
                old(buf)@[i]
            }),
{
    let cb = color_bytes(color);
    let n = pixels * bpp;
    let mut j: usize = 0;
    while j < n
        invariant
            j <= n,
            n == pixels * bpp,
            bpp > 0,
            at + n <= buf.len(),
            buf@.len() == old(buf)@.len(),
            forall|c: int| 0 <= c < 4 ==> cb[c] == color_byte(color, c),
            forall|i: int|
                0 <= i < old(buf)@.len() ==> #[trigger] buf@[i] == (if at <= i < at + j && (i - at)
                    % (bpp as int) < 4 {
                    color_byte(color, (i - at) % (bpp as int))
                } else {
                    old(buf)@[i]
                }),
        decreases n - j,
    {
        let c = j % bpp;
        if c < 4 {
            buf.set(at + j, cb[c]);
        }
        j = j + 1;
    }
}

/// Fill a region with a solid color
///
/// Bytes 0 to 3 of every pixel of `region` take the bytes of `color`;
/// further bytes of a pixel stay.  Wide 32-bit fills write one row and
/// copy it to the others, possibly on several CPUs; the bytes written are
/// the same.
pub fn fill_rect(buf: &mut Vec<u8>, dst_pitch: usize, dst_bpp: usize, region: CompositionRegion, color: u32)
    requires
        region.width > 0 && region.height > 0 ==> region.x * dst_bpp + region.width * dst_bpp
            <= dst_pitch && (region.y + region.height - 1) * dst_pitch + region.x * dst_bpp
            + region.width * dst_bpp <= old(buf).len(),
    ensures
        final(buf)@ == filled_rect(
            old(buf)@,
            dst_pitch as int,
            dst_bpp as int,
            region.x as int,
            region.y as int,
            region.width as int,
            region.height as int,
            color,
        ),
{
    let x = region.x as usize;
    let y = region.y as usize;
    let width = region.width as usize;
    let height = region.height as usize;
    proof {
        lemma_row_positive(width as int, dst_bpp as int);
    }
    if width == 0 || height == 0 || dst_bpp == 0 {
        assert(buf@ =~= filled_rect(old(buf)@, dst_pitch as int, dst_bpp as int, x as int, y as int, width as int, height as int, color));
        return;
    }
    let pitch = dst_pitch;
    let bpp = dst_bpp;
    assert(pitch > 0);
    let ghost orig = buf@;
    let mut r: usize = 0;
    while r < height
        invariant
            r <= height,
            width > 0,
            height > 0,
            bpp > 0,
            pitch > 0,
            x * bpp + width * bpp <= pitch,
            (y + height - 1) * pitch + x * bpp + width * bpp <= buf.len(),
            buf@ == filled_rect(orig, pitch as int, bpp as int, x as int, y as int, width as int, r as int, color),
        decreases height - r,
    {
        proof {
            lemma_row_end(pitch as int, (y + r) as int, (y + height - 1) as int, x * bpp + width * bpp, buf.len() as int);
        }
        let base = (y + r) * pitch + x * bpp;
        let ghost prev = buf@;
        fill_span(buf, base, width, bpp, color);
        proof {
            let next = filled_rect(orig, pitch as int, bpp as int, x as int, y as int, width as int, (r + 1) as int, color);
            assert forall|i: int| 0 <= i < buf@.len() implies buf@[i] == next[i] by {
                lemma_block_row(pitch as int, (y + r) as int, x * bpp, width * bpp, i);
            }
            assert(buf@ =~= next);
        }
        r = r + 1;
    }
}

/// The further bytes of a cleared row after copying the first cleared
/// row onto it.
proof fn lemma_clear_step(
    prev: Seq<u8>,
    next: Seq<u8>,
    orig: Seq<u8>,
    pitch: int,
    bpp: int,
    width: int,
    start: int,
    k: int,
    color: u32,
)
    requires
        pitch > 0,
        bpp > 0,
        width > 0,
        width * bpp <= pitch,
        start >= 0,
        k >= 1,
        prev == cleared_rows(orig, pitch, bpp, width, start, k, color),
        next == bytes_copied(prev, (start + k) * pitch, prev, start * pitch, width * bpp),
        (start + k) * pitch + width * bpp <= prev.len(),
    ensures
        next == cleared_rows(orig, pitch, bpp, width, start, k + 1, color),
{
    let target = cleared_rows(orig, pitch, bpp, width, start, k + 1, color);
    lemma_row_positive(width, bpp);
    assert forall|i: int| 0 <= i < next.len() implies next[i] == target[i] by {
        lemma_block_row(pitch, start + k, 0, width * bpp, i);
        if (start + k) * pitch <= i < (start + k) * pitch + width * bpp {
            let j = start * pitch + (i - (start + k) * pitch);
            assert(start * pitch <= (start + k) * pitch) by {
                lemma_mul_inequality(start, start + k, pitch);
            }
            lemma_block_row(pitch, start, 0, width * bpp, j);
        }
    }
    assert(next =~= target);
}

/// Fast row clearing
///
/// Clears rows `[start_row, start_row + num_rows)` over `width` pixels:
/// the first row is filled (32-bit pixels as doubled 64-bit words, other
/// sizes byte by byte, bytes 0 to 3 of a pixel only) and then copied to
/// the others, so the bytes of a pixel beyond the fourth come from the
/// first cleared row.
pub fn clear_rows_fast(
    buf: &mut Vec<u8>,
    pitch: usize,
    width: usize,
    bpp: usize,
    start_row: usize,
    num_rows: usize,
    color: u32,
)
    requires
        num_rows > 0 ==> width * bpp <= pitch && (start_row + num_rows - 1) * pitch + width * bpp
            <= old(buf).len(),
    ensures
        final(buf)@ == cleared_rows(
            old(buf)@,
            pitch as int,
            bpp as int,
            width as int,
            start_row as int,
            num_rows as int,
            color,
        ),
{
    proof {
        lemma_row_positive(width as int, bpp as int);
    }
    if num_rows == 0 || bpp == 0 || width == 0 {
        assert(buf@ =~= cleared_rows(old(buf)@, pitch as int, bpp as int, width as int, start_row as int, num_rows as int, color));
        return;
    }
    let ghost orig = buf@;
    let row_bytes = width * bpp;
    proof {
        lemma_row_end(pitch as int, start_row as int, (start_row + num_rows - 1) as int, row_bytes as int, buf.len() as int);
    }
    let total_clear_bytes: usize = match row_bytes.checked_mul(num_rows) {
        Some(t) => t,
        None => usize::MAX,
    };
    let first = start_row * pitch;
    if bpp == 4 {
        streaming_fill_32(buf, first, width, color);
    } else {
        fill_span(buf, first, width, bpp, color);
    }
    proof {
        let target = cleared_rows(orig, pitch as int, bpp as int, width as int, start_row as int, 1, color);
        assert forall|i: int| 0 <= i < buf@.len() implies buf@[i] == target[i] by {
            lemma_block_row(pitch as int, start_row as int, 0, row_bytes as int, i);
        }
        assert(buf@ =~= target);
    }
    let mut k: usize = 1;
    while k < num_rows
        invariant
            1 <= k <= num_rows,
            bpp > 0,
            width > 0,
            pitch > 0,
            row_bytes == width * bpp,
            row_bytes <= pitch,
            first == start_row * pitch,
            (start_row + num_rows - 1) * pitch + row_bytes <= buf.len(),
            buf@ == cleared_rows(orig, pitch as int, bpp as int, width as int, start_row as int, k as int, color),
        decreases num_rows - k,
    {
        proof {
            lemma_row_end(pitch as int, (start_row + k) as int, (start_row + num_rows - 1) as int, row_bytes as int, buf.len() as int);
            assert(first + row_bytes <= (start_row + k) * pitch) by {
                lemma_mul_is_distributive_add_other_way(pitch as int, start_row as int, k as int);
                lemma_mul_inequality(1, k as int, pitch as int);
            }
        }
        let dst = (start_row + k) * pitch;
        let ghost prev = buf@;
        if total_clear_bytes >= 64 * 1024 && num_rows >= 16 {
            streaming_copy(buf, first, dst, row_bytes);
        } else if row_bytes >= 4096 && num_rows >= 8 {
            rep_movsq_copy(buf, first, dst, row_bytes);
        } else {
            copy_inside(buf, first, dst, row_bytes);
        }
        proof {
            lemma_clear_step(prev, buf@, orig, pitch as int, bpp as int, width as int, start_row as int, k as int, color);
        }
        k = k + 1;
    }
}

/// Parallel memory fill for large regions
///
/// Clears rows `[0, height)`.  With more than one worker, at least
/// `PARALLEL_SCROLL_THRESHOLD` bytes and 16 rows per worker, the workers
/// fill the rows one by one (so every pixel keeps its own bytes beyond
/// the fourth); otherwise the rows are cleared as by `clear_rows_fast`.
pub fn parallel_fill(
    buf: &mut Vec<u8>,
    pitch: usize,
    width: usize,
    height: usize,
    bpp: usize,
    color: u32,
    initialized: bool,
    workers: usize,
)
    requires
        height > 0 ==> width * bpp <= pitch && (height - 1) * pitch + width * bpp <= old(buf).len(),
        height * pitch <= usize::MAX,
        workers * 16 <= usize::MAX,
    ensures
        final(buf)@ == (if initialized && workers > 1 && height * pitch >= PARALLEL_SCROLL_THRESHOLD
            && height >= workers * 16 {
            filled_rect(old(buf)@, pitch as int, bpp as int, 0, 0, width as int, height as int, color)
        } else {
            cleared_rows(old(buf)@, pitch as int, bpp as int, width as int, 0, height as int, color)
        }),
{
    let total_bytes = height * pitch;
    if !initialized || workers <= 1 || total_bytes < PARALLEL_SCROLL_THRESHOLD || height < workers * 16 {
        clear_rows_fast(buf, pitch, width, bpp, 0, height, color);
        return;
    }
    proof {
        lemma_row_positive(width as int, bpp as int);
    }
    if bpp == 0 || width == 0 {
        assert(buf@ =~= filled_rect(old(buf)@, pitch as int, bpp as int, 0, 0, width as int, height as int, color));
        return;
    }
    let ghost orig = buf@;
    let mut r: usize = 0;
    while r < height
        invariant
            r <= height,
            height > 0,
            bpp > 0,
            width > 0,
            pitch > 0,
            width * bpp <= pitch,
            (height - 1) * pitch + width * bpp <= buf.len(),
            buf@ == filled_rect(orig, pitch as int, bpp as int, 0, 0, width as int, r as int, color),
        decreases height - r,
    {
        proof {
            lemma_row_end(pitch as int, r as int, (height - 1) as int, width * bpp, buf.len() as int);
        }
        let ghost prev = buf@;
        super::workers::fill_single_row(buf, pitch, width, bpp, r, color);
        proof {
            let next = filled_rect(orig, pitch as int, bpp as int, 0, 0, width as int, (r + 1) as int, color);
            assert forall|i: int| 0 <= i < buf@.len() implies buf@[i] == next[i] by {
                lemma_block_row(pitch as int, r as int, 0, width * bpp, i);
            }
            assert(buf@ =~= next);
        }
        r = r + 1;
    }
}

/// Copy a rectangular region
///
/// The `src_region` of `src` goes to the same-sized region at
/// (dst_x, dst_y) of `dst`, row by row (in one piece where both buffers
/// hold exactly the region's rows).
pub fn copy_rect(
    src: &[u8],
    src_pitch: usize,
    dst: &mut Vec<u8>,
    dst_pitch: usize,
    bpp: usize,
    src_region: CompositionRegion,
    dst_x: usize,
    dst_y: usize,
)
    requires
        src_region.width > 0 && src_region.height > 0 ==> dst_x * bpp + src_region.width * bpp
            <= dst_pitch && (dst_y + src_region.height - 1) * dst_pitch + dst_x * bpp
            + src_region.width * bpp <= old(dst).len() && (src_region.y + src_region.height - 1)
            * src_pitch + src_region.x * bpp + src_region.width * bpp <= src@.len()
            && src_region.y + src_region.height <= usize::MAX,
    ensures
        final(dst)@ == copied_rect(
            old(dst)@,
            dst_pitch as int,
            src@,
            src_pitch as int,
            bpp as int,
            src_region.x as int,
            src_region.y as int,
            src_region.width as int,
            src_region.height as int,
            dst_x as int,
            dst_y as int,
        ),
{
    let width = src_region.width as usize;
    let height = src_region.height as usize;
    let src_x = src_region.x as usize;
    let src_y = src_region.y as usize;
    proof {
        lemma_row_positive(width as int, bpp as int);
    }
    if width == 0 || height == 0 || bpp == 0 {
        assert(dst@ =~= copied_rect(old(dst)@, dst_pitch as int, src@, src_pitch as int, bpp as int, src_x as int, src_y as int, width as int, height as int, dst_x as int, dst_y as int));
        return;
    }
    let row_bytes = width * bpp;
    let ghost orig = dst@;
    let mut row: usize = 0;
    while row < height
        invariant
            row <= height,
            height > 0,
            bpp > 0,
            dst_pitch > 0,
            row_bytes == width * bpp,
            dst_x * bpp + row_bytes <= dst_pitch,
            (dst_y + height - 1) * dst_pitch + dst_x * bpp + row_bytes <= dst.len(),
            (src_y + height - 1) * src_pitch + src_x * bpp + row_bytes <= src@.len(),
            src@.len() == src.len(),
            src_y + height <= usize::MAX,
            dst@ == copied_rect(orig, dst_pitch as int, src@, src_pitch as int, bpp as int, src_x as int, src_y as int, width as int, row as int, dst_x as int, dst_y as int),
        decreases height - row,
    {
        proof {
            lemma_row_end(dst_pitch as int, (dst_y + row) as int, (dst_y + height - 1) as int, dst_x * bpp + row_bytes, dst.len() as int);
            lemma_row_end(src_pitch as int, (src_y + row) as int, (src_y + height - 1) as int, src_x * bpp + row_bytes, src@.len() as int);
        }
        let src_offset = (src_y + row) * src_pitch + src_x * bpp;
        let dst_offset = (dst_y + row) * dst_pitch + dst_x * bpp;
        let ghost prev = dst@;
        copy_across(src, src_offset, dst, dst_offset, row_bytes);
        proof {
            let next = copied_rect(orig, dst_pitch as int, src@, src_pitch as int, bpp as int, src_x as int, src_y as int, width as int, (row + 1) as int, dst_x as int, dst_y as int);
            assert forall|i: int| 0 <= i < dst@.len() implies dst@[i] == next[i] by {
                lemma_block_row(dst_pitch as int, (dst_y + row) as int, dst_x * bpp, row_bytes as int, i);
            }
            assert(dst@ =~= next);
        }
        row = row + 1;
    }
}

/// Move rows up
///
/// Each row in `[start, end)` takes its first `row_bytes` bytes from the
/// row `distance` rows below; rows are taken in increasing order, so a
/// source row has not yet been overwritten when it is read.
pub fn scroll_worker(buf: &mut Vec<u8>, pitch: usize, row_bytes: usize, distance: usize, start: usize, end: usize)
    requires
        distance > 0,
        row_bytes <= pitch,
        start < end ==> (end - 1 + distance) * pitch + row_bytes <= old(buf).len(),
    ensures
        final(buf)@ == moved_rows(old(buf)@, pitch as int, row_bytes as int, distance as int, start as int, end as int),
{
    if start >= end || row_bytes == 0 {
        assert(buf@ =~= moved_rows(old(buf)@, pitch as int, row_bytes as int, distance as int, start as int, end as int));
        return;
    }
    let ghost orig = buf@;
    let mut row: usize = start;
    while row < end
        invariant
            start <= row <= end,
            start < end,
            distance > 0,
            0 < row_bytes <= pitch,
            (end - 1 + distance) * pitch + row_bytes <= buf.len(),
            orig.len() == buf@.len(),
            buf@ == moved_rows(orig, pitch as int, row_bytes as int, distance as int, start as int, row as int),
        decreases end - row,
    {
        proof {
            lemma_row_end(pitch as int, (row + distance) as int, (end - 1 + distance) as int, row_bytes as int, buf.len() as int);
            lemma_row_end(pitch as int, row as int, (row + distance) as int, row_bytes as int, buf.len() as int);
            assert(row * pitch + pitch <= (row + distance) * pitch) by {
                lemma_mul_is_distributive_add_other_way(pitch as int, row as int, distance as int);
                lemma_mul_inequality(1, distance as int, pitch as int);
            }
        }
        let dst = row * pitch;
        let src = (row + distance) * pitch;
        let ghost prev = buf@;
        copy_inside(buf, src, dst, row_bytes);
        proof {
            let next = moved_rows(orig, pitch as int, row_bytes as int, distance as int, start as int, (row + 1) as int);
            assert forall|i: int| 0 <= i < buf@.len() implies buf@[i] == next[i] by {
                lemma_block_row(pitch as int, row as int, 0, row_bytes as int, i);
                if row * pitch <= i < row * pitch + row_bytes {
                    let j = src + (i - dst);
                    lemma_mul_is_distributive_add_other_way(pitch as int, row as int, distance as int);
                    lemma_block_row(pitch as int, (row + distance) as int, 0, row_bytes as int, j);
                }
            }
            assert(buf@ =~= next);
        }
        row = row + 1;
    }
}

/// High-performance scroll up operation
///
/// Scrolls the screen of `height` rows up by `scroll_rows` rows over
/// `width` pixels and clears the rows freed at the bottom to
/// `clear_color` as `clear_rows_fast` does.  Nothing changes unless
/// `0 < scroll_rows < height`.
pub fn scroll_up_fast(
    buf: &mut Vec<u8>,
    pitch: usize,
    width: usize,
    height: usize,
    bpp: usize,
    scroll_rows: usize,
    clear_color: u32,
)
    requires
        0 < scroll_rows < height ==> width * bpp <= pitch && (height - 1) * pitch + width * bpp
            <= old(buf).len(),
    ensures
        final(buf)@ == scrolled(
            old(buf)@,
            pitch as int,
            width as int,
            height as int,
            bpp as int,
            scroll_rows as int,
            clear_color,
        ),
{
    if scroll_rows == 0 || scroll_rows >= height {
        return;
    }
    let row_bytes = width * bpp;
    let rows_to_copy = height - scroll_rows;
    scroll_worker(buf, pitch, row_bytes, scroll_rows, 0, rows_to_copy);
    let clear_start_row = height - scroll_rows;
    clear_rows_fast(buf, pitch, width, bpp, clear_start_row, scroll_rows, clear_color);
}

} // verus!
