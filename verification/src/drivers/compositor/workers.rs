//! Work done by each CPU taking part in a parallel operation

use vstd::prelude::*;
use super::blend::{
    added_wide, blend_byte, blend_row_additive, blend_row_alpha, blend_row_multiply, mixed,
    multiply_byte, saturating_byte,
};
use super::config::{BATCH_BLEND_THRESHOLD, MAX_LAYERS};
use vstd::arithmetic::div_mod::{lemma_fundamental_div_mod, lemma_fundamental_div_mod_converse};
use vstd::arithmetic::mul::{lemma_mul_inequality, lemma_mul_is_commutative, lemma_mul_is_distributive_add_other_way};
use super::memory::{bytes_copied, copy_inside, fast_copy_prefetch, streaming_fill_32};
use super::ops::{filled_rect, fill_span, in_block, lemma_block_row, lemma_row_end, lemma_row_positive, moved_rows, scroll_worker};
use super::types::{BlendMode, CompositionLayer, CpuWorkState, WorkType, work_code};
use super::state::{CompositorState, CompositorView, add_cpu_stripes, claim_work_stripe, complete_stripe, set_cpu_working, stripes_for};

verus! {

/// What a secondary CPU does when it looks for compositor work: nothing
/// before the compositor is initialized or while no work is posted;
/// otherwise it joins (counted in `joined`, which wraps around as the
/// shared counter does) and runs the posted kind of work (`NoWork` for an
/// unknown code).
pub fn ap_work_entry(initialized: bool, work_available: bool, work_type: u8, joined: &mut usize) -> (r: Option<WorkType>)
    ensures
        !initialized || !work_available ==> r is None && *final(joined) == *old(joined),
        initialized && work_available ==> (r matches Some(w) && (if work_type <= 3 {
            work_code(w) == work_type
        } else {
            w == WorkType::NoWork
        })) && *final(joined) == old(joined).wrapping_add(1),
{
    if !initialized {
        return None;
    }
    if !work_available {
        return None;
    }
    *joined = joined.wrapping_add(1);
    Some(WorkType::from_u8(work_type))
}

/// Fill a single row with color
///
/// Bytes 0 to 3 of the first `width` pixels of row `row` take the bytes
/// of `color`: 32-bit pixels as doubled 64-bit words, other sizes byte by
/// byte.
pub fn fill_single_row(buf: &mut Vec<u8>, pitch: usize, width: usize, bpp: usize, row: usize, color: u32)
    requires
        width * bpp <= pitch,
        row * pitch + width * bpp <= old(buf).len(),
    ensures
        final(buf)@ == filled_rect(old(buf)@, pitch as int, bpp as int, 0, row as int, width as int, 1, color),
{
    let ghost orig = buf@;
    let row_offset = row * pitch;
    if bpp == 4 {
        streaming_fill_32(buf, row_offset, width, color);
    } else if bpp > 0 {
        fill_span(buf, row_offset, width, bpp, color);
    }
    proof {
        let target = filled_rect(orig, pitch as int, bpp as int, 0, row as int, width as int, 1, color);
        lemma_row_positive(width as int, bpp as int);
        if bpp > 0 && width > 0 {
            assert forall|i: int| 0 <= i < buf@.len() implies buf@[i] == target[i] by {
                lemma_block_row(pitch as int, row as int, 0, width * bpp, i);
            }
        }
        assert(buf@ =~= target);
    }
}


/// A layer takes part in composing rows `[start, end)` of a screen
/// `sw` pixels wide: it is rendered, meets those rows, and starts left of
/// the screen's right edge.
pub open spec fn stripe_layer(l: CompositionLayer, start: int, end: int, sw: int) -> bool {
    &&& l.enabled && l.visible && l.alpha > 0 && l.dst_region.width > 0 && l.dst_region.height > 0
    &&& l.dst_region.y + l.dst_region.height > start
    &&& l.dst_region.y < end
    &&& l.dst_region.x < sw
}

/// Indices of the layers among the first `n` that compose rows
/// `[start, end)`, in order, at most `MAX_LAYERS` of them.
pub open spec fn active_layers(layers: Seq<CompositionLayer>, n: int, start: int, end: int, sw: int) -> Seq<int>
    decreases n,
{
    if n <= 0 {
        Seq::empty()
    } else {
        let a = active_layers(layers, n - 1, start, end, sw);
        if stripe_layer(layers[n - 1], start, end, sw) && a.len() < MAX_LAYERS {
            a.push(n - 1)
        } else {
            a
        }
    }
}

/// The active layers are taking part, and are among the first `n`.
proof fn lemma_active_layers(layers: Seq<CompositionLayer>, n: int, start: int, end: int, sw: int)
    requires
        0 <= n <= layers.len(),
    ensures
        active_layers(layers, n, start, end, sw).len() <= MAX_LAYERS,
        forall|k: int|
            0 <= k < active_layers(layers, n, start, end, sw).len() ==> 0 <= #[trigger] active_layers(layers, n, start, end, sw)[k] < n
                && stripe_layer(layers[active_layers(layers, n, start, end, sw)[k]], start, end, sw),
    decreases n,
{
    if n > 0 {
        lemma_active_layers(layers, n - 1, start, end, sw);
    }
}

/// Pixels of a layer's row that lie on the screen.
pub open spec fn layer_width(l: CompositionLayer, sw: int) -> int {
    if l.dst_region.width <= sw - l.dst_region.x {
        l.dst_region.width as int
    } else {
        sw - l.dst_region.x
    }
}

/// The layer replaces what lies under it.
pub open spec fn layer_opaque(l: CompositionLayer) -> bool {
    l.blend_mode == BlendMode::Opaque || (l.blend_mode == BlendMode::Alpha && l.alpha == 255)
}

/// Where a layer's row `row` lies in the destination and in its source.
pub open spec fn layer_dst_off(l: CompositionLayer, pitch: int, bpp: int, row: int) -> int {
    row * pitch + l.dst_region.x * bpp
}

pub open spec fn layer_src_off(l: CompositionLayer, row: int) -> int {
    (row - l.dst_region.y) * l.buffer_pitch
}

/// Row `row` of a layer lies inside both buffers.
pub open spec fn layer_row_fits(l: CompositionLayer, src_len: int, dst_len: int, pitch: int, bpp: int, row: int, sw: int) -> bool {
    l.dst_region.y <= row < l.dst_region.y + l.dst_region.height ==> layer_dst_off(l, pitch, bpp, row)
        + layer_width(l, sw) * bpp <= dst_len && layer_src_off(l, row) + layer_width(l, sw) * bpp
        <= src_len
}

/// The destination after layer `l`, whose pixels are `src`, is applied to
/// row `row`: copied where opaque, else blended by its mode.
pub open spec fn layer_row(dst: Seq<u8>, pitch: int, bpp: int, row: int, l: CompositionLayer, src: Seq<u8>, sw: int) -> Seq<u8> {
    if l.dst_region.y <= row < l.dst_region.y + l.dst_region.height {
        let d_off = layer_dst_off(l, pitch, bpp, row);
        let s_off = layer_src_off(l, row);
        let w = layer_width(l, sw);
        if layer_opaque(l) {
            bytes_copied(dst, d_off, src, s_off, w * bpp)
        } else {
            match l.blend_mode {
                BlendMode::Alpha => mixed(dst, d_off, src, s_off, w * bpp, bpp, |s: u8, d: u8| blend_byte(s, d, l.alpha)),
                BlendMode::Additive => if bpp == 4 && w >= BATCH_BLEND_THRESHOLD {
                    added_wide(dst, d_off, src, s_off, w)
                } else {
                    mixed(dst, d_off, src, s_off, w * bpp, bpp, |s: u8, d: u8| saturating_byte(s, d))
                },
                BlendMode::Multiply => mixed(dst, d_off, src, s_off, w * bpp, bpp, |s: u8, d: u8| multiply_byte(s, d)),
                BlendMode::Opaque => dst,
            }
        }
    } else {
        dst
    }
}

/// Row `row` after the first `k` active layers are applied, bottom first.
pub open spec fn row_layers(
    dst: Seq<u8>,
    pitch: int,
    bpp: int,
    row: int,
    layers: Seq<CompositionLayer>,
    bufs: Seq<Vec<u8>>,
    act: Seq<int>,
    k: int,
    sw: int,
) -> Seq<u8>
    decreases k,
{
    if k <= 0 {
        dst
    } else {
        layer_row(
            row_layers(dst, pitch, bpp, row, layers, bufs, act, k - 1, sw),
            pitch,
            bpp,
            row,
            layers[act[k - 1]],
            bufs[act[k - 1]]@,
            sw,
        )
    }
}

/// The destination after rows `[start, r)` are composed, top row first.
pub open spec fn composed(
    dst: Seq<u8>,
    pitch: int,
    bpp: int,
    start: int,
    r: int,
    layers: Seq<CompositionLayer>,
    bufs: Seq<Vec<u8>>,
    act: Seq<int>,
    sw: int,
) -> Seq<u8>
    decreases r - start,
{
    if r <= start {
        dst
    } else {
        row_layers(
            composed(dst, pitch, bpp, start, r - 1, layers, bufs, act, sw),
            pitch,
            bpp,
            r - 1,
            layers,
            bufs,
            act,
            act.len() as int,
            sw,
        )
    }
}

/// Law: a translucent layer is blended, never copied.  In a row of a
/// layer in `Alpha` mode with alpha below 255, each colour byte (bytes 0
/// to 2 of a pixel) becomes `(s * alpha + d * (255 - alpha) + 128) / 256`
/// of the layer's byte `s` and the byte `d` under it, and every other
/// byte stays.  A `Multiply` layer makes each colour byte
/// `(s * d + 128) / 256`.  An `Opaque` layer, or an `Alpha` layer with
/// alpha 255, copies its bytes.
pub proof fn law_alpha_layer_blends(dst: Seq<u8>, pitch: int, bpp: int, row: int, l: CompositionLayer, src: Seq<u8>, sw: int, i: int)
    requires
        l.dst_region.y <= row < l.dst_region.y + l.dst_region.height,
        bpp > 0,
        0 <= i < dst.len(),
    ensures
        ({
            let out = layer_row(dst, pitch, bpp, row, l, src, sw);
            let d_off = row * pitch + l.dst_region.x * bpp;
            let s_off = (row - l.dst_region.y) * l.buffer_pitch;
            let w = if l.dst_region.width <= sw - l.dst_region.x { l.dst_region.width as int } else { sw - l.dst_region.x };
            let inside = d_off <= i < d_off + w * bpp;
            &&& out.len() == dst.len()
            &&& l.blend_mode == BlendMode::Alpha && l.alpha < 255 ==> out[i] == if inside && (i - d_off) % bpp < 3 {
                ((src[s_off + (i - d_off)] * l.alpha + dst[i] * (255 - l.alpha) + 128) / 256) as u8
            } else {
                dst[i]
            }
            &&& l.blend_mode == BlendMode::Multiply ==> out[i] == if inside && (i - d_off) % bpp < 3 {
                ((src[s_off + (i - d_off)] * dst[i] + 128) / 256) as u8
            } else {
                dst[i]
            }
            &&& (l.blend_mode == BlendMode::Opaque || (l.blend_mode == BlendMode::Alpha && l.alpha == 255))
                ==> out[i] == if inside {
                src[s_off + (i - d_off)]
            } else {
                dst[i]
            }
        }),
{
}

/// Apply one layer to one row of the destination.
fn apply_layer_row(dst: &mut Vec<u8>, pitch: usize, bpp: usize, row: usize, l: &CompositionLayer, src: &Vec<u8>, sw: usize)
    requires
        (l.dst_region.x as int) < sw,
        layer_row_fits(*l, src@.len() as int, old(dst).len() as int, pitch as int, bpp as int, row as int, sw as int),
    ensures
        final(dst)@ == layer_row(old(dst)@, pitch as int, bpp as int, row as int, *l, src@, sw as int),
{
    let y = l.dst_region.y as u64;
    let h = l.dst_region.height as u64;
    if (row as u64) < y || (row as u64) >= y + h {
        return;
    }
    let x = l.dst_region.x as usize;
    let actual_width = if (l.dst_region.width as usize) <= sw - x {
        l.dst_region.width as usize
    } else {
        sw - x
    };
    proof {
        lemma_row_positive(actual_width as int, bpp as int);
    }
    let src_len = src.len();
    let d_off = row * pitch + x * bpp;
    let s_off = (row - l.dst_region.y as usize) * (l.buffer_pitch as usize);
    let is_opaque = match l.blend_mode {
        BlendMode::Opaque => true,
        BlendMode::Alpha => l.alpha == 255,
        _ => false,
    };
    if is_opaque {
        fast_copy_prefetch(src.as_slice(), s_off, dst, d_off, actual_width * bpp);
    } else {
        match l.blend_mode {
            BlendMode::Alpha => {
                blend_row_alpha(src.as_slice(), s_off, dst, d_off, actual_width, bpp, l.alpha);
            },
            BlendMode::Additive => {
                blend_row_additive(src.as_slice(), s_off, dst, d_off, actual_width, bpp);
            },
            BlendMode::Multiply => {
                blend_row_multiply(src.as_slice(), s_off, dst, d_off, actual_width, bpp);
            },
            BlendMode::Opaque => {},
        }
    }
}

/// Compose a single stripe of the framebuffer
///
/// Rows `[start_row, end_row)` are composed top row first; in each row the
/// active layers (see `active_layers`) are applied in order, each copied
/// or blended over its own rows.  `buffers[i]` holds the pixels of
/// `layers[i]`, rows `buffer_pitch` bytes apart from its first row.
pub fn compose_stripe(
    dst: &mut Vec<u8>,
    dst_pitch: usize,
    dst_bpp: usize,
    start_row: usize,
    end_row: usize,
    layers: &[CompositionLayer],
    buffers: &[Vec<u8>],
    screen_width: usize,
)
    requires
        buffers@.len() == layers@.len(),
        forall|k: int, row: int|
            0 <= k < active_layers(layers@, layers@.len() as int, start_row as int, end_row as int, screen_width as int).len()
                && start_row <= row < end_row ==> #[trigger] layer_row_fits(
                layers@[active_layers(layers@, layers@.len() as int, start_row as int, end_row as int, screen_width as int)[k]],
                buffers@[active_layers(layers@, layers@.len() as int, start_row as int, end_row as int, screen_width as int)[k]]@.len() as int,
                old(dst).len() as int,
                dst_pitch as int,
                dst_bpp as int,
                row,
                screen_width as int,
            ),
    ensures
        final(dst)@.len() == old(dst)@.len(),
        final(dst)@ == composed(
            old(dst)@,
            dst_pitch as int,
            dst_bpp as int,
            start_row as int,
            end_row as int,
            layers@,
            buffers@,
            active_layers(layers@, layers@.len() as int, start_row as int, end_row as int, screen_width as int),
            screen_width as int,
        ),
{
    let ghost act_all = active_layers(layers@, layers@.len() as int, start_row as int, end_row as int, screen_width as int);
    let mut active: Vec<usize> = Vec::new();
    let mut i: usize = 0;
    while i < layers.len()
        invariant
            i <= layers@.len(),
            active@.len() == active_layers(layers@, i as int, start_row as int, end_row as int, screen_width as int).len(),
            forall|k: int| 0 <= k < active@.len() ==> active@[k] as int == #[trigger] active_layers(layers@, i as int, start_row as int, end_row as int, screen_width as int)[k],
            forall|k: int| 0 <= k < active@.len() ==> active@[k] < i,
        decreases layers@.len() - i,
    {
        let l = &layers[i];
        let y = l.dst_region.y as u64;
        let h = l.dst_region.height as u64;
        if l.should_render() && active.len() < MAX_LAYERS && y + h > start_row as u64 && y < end_row as u64 && (l.dst_region.x as usize) < screen_width {
            active.push(i);
        }
        i = i + 1;
    }
    assert(active_layers(layers@, i as int, start_row as int, end_row as int, screen_width as int) == act_all);
    proof {
        lemma_active_layers(layers@, layers@.len() as int, start_row as int, end_row as int, screen_width as int);
    }
    let ghost orig = dst@;
    proof {
        assert(orig.len() == old(dst)@.len());
        assert forall|k: int, rw: int|
            0 <= k < act_all.len() && start_row <= rw < end_row implies #[trigger] layer_row_fits(
                layers@[act_all[k]],
                buffers@[act_all[k]]@.len() as int,
                orig.len() as int,
                dst_pitch as int,
                dst_bpp as int,
                rw,
                screen_width as int,
            ) by {
            assert(layer_row_fits(
                layers@[active_layers(layers@, layers@.len() as int, start_row as int, end_row as int, screen_width as int)[k]],
                buffers@[active_layers(layers@, layers@.len() as int, start_row as int, end_row as int, screen_width as int)[k]]@.len() as int,
                old(dst).len() as int,
                dst_pitch as int,
                dst_bpp as int,
                rw,
                screen_width as int,
            ));
        }
    }
    let mut row: usize = start_row;
    while row < end_row
        invariant
            start_row <= row <= end_row || (row == start_row && end_row < start_row),
            buffers@.len() == layers@.len(),
            dst@.len() == orig.len(),
            active@.len() == act_all.len(),
            forall|k: int| 0 <= k < active@.len() ==> active@[k] as int == #[trigger] act_all[k],
            forall|k: int| 0 <= k < active@.len() ==> active@[k] < layers@.len(),
            forall|k: int| 0 <= k < act_all.len() ==> stripe_layer(#[trigger] layers@[act_all[k]], start_row as int, end_row as int, screen_width as int),
            forall|k: int, rw: int|
                0 <= k < act_all.len() && start_row <= rw < end_row ==> #[trigger] layer_row_fits(
                    layers@[act_all[k]],
                    buffers@[act_all[k]]@.len() as int,
                    orig.len() as int,
                    dst_pitch as int,
                    dst_bpp as int,
                    rw,
                    screen_width as int,
                ),
            dst@ == composed(orig, dst_pitch as int, dst_bpp as int, start_row as int, row as int, layers@, buffers@, act_all, screen_width as int),
        decreases end_row - row,
    {
        let ghost base = dst@;
        let mut k: usize = 0;
        while k < active.len()
            invariant
                k <= active@.len(),
                start_row <= row < end_row,
                buffers@.len() == layers@.len(),
                dst@.len() == orig.len(),
                active@.len() == act_all.len(),
                forall|j: int| 0 <= j < active@.len() ==> active@[j] as int == #[trigger] act_all[j],
                forall|j: int| 0 <= j < active@.len() ==> active@[j] < layers@.len(),
                forall|j: int| 0 <= j < act_all.len() ==> stripe_layer(#[trigger] layers@[act_all[j]], start_row as int, end_row as int, screen_width as int),
                forall|j: int, rw: int|
                    0 <= j < act_all.len() && start_row <= rw < end_row ==> #[trigger] layer_row_fits(
                        layers@[act_all[j]],
                        buffers@[act_all[j]]@.len() as int,
                        orig.len() as int,
                        dst_pitch as int,
                        dst_bpp as int,
                        rw,
                        screen_width as int,
                    ),
                dst@ == row_layers(base, dst_pitch as int, dst_bpp as int, row as int, layers@, buffers@, act_all, k as int, screen_width as int),
            decreases active@.len() - k,
        {
            let li = active[k];
            proof {
                assert(act_all[k as int] == li as int);
                assert(stripe_layer(layers@[act_all[k as int]], start_row as int, end_row as int, screen_width as int));
                assert(layer_row_fits(layers@[act_all[k as int]], buffers@[act_all[k as int]]@.len() as int, orig.len() as int, dst_pitch as int, dst_bpp as int, row as int, screen_width as int));
            }
            apply_layer_row(dst, dst_pitch, dst_bpp, row, &layers[li], &buffers[li], screen_width);
            k = k + 1;
        }
        row = row + 1;
    }
}


/// Every row of stripe `[start, end)` that an active layer of the stripe
/// draws lies within its buffer and within the destination.
pub open spec fn stripe_fits(
    layers: Seq<CompositionLayer>,
    bufs: Seq<Vec<u8>>,
    dst_len: int,
    pitch: int,
    bpp: int,
    start: int,
    end: int,
    sw: int,
) -> bool {
    forall|k: int, row: int|
        0 <= k < active_layers(layers, layers.len() as int, start, end, sw).len() && start <= row < end
            ==> #[trigger] layer_row_fits(
            layers[active_layers(layers, layers.len() as int, start, end, sw)[k]],
            bufs[active_layers(layers, layers.len() as int, start, end, sw)[k]]@.len() as int,
            dst_len,
            pitch,
            bpp,
            row,
            sw,
        )
}

/// First row of stripe `s` of height `sh`.
pub open spec fn stripe_start(s: int, sh: int) -> int {
    s * sh
}

/// End row of stripe `s` of height `sh` over `rows` rows.
pub open spec fn stripe_end(s: int, sh: int, rows: int) -> int {
    if (s + 1) * sh <= rows {
        (s + 1) * sh
    } else {
        rows
    }
}

/// The destination after stripes `[from, to)` are composed in order.
pub open spec fn stripes_composed(
    dst: Seq<u8>,
    pitch: int,
    bpp: int,
    sh: int,
    rows: int,
    from: int,
    to: int,
    layers: Seq<CompositionLayer>,
    bufs: Seq<Vec<u8>>,
    sw: int,
) -> Seq<u8>
    decreases to - from,
{
    if to <= from {
        dst
    } else {
        let prev = stripes_composed(dst, pitch, bpp, sh, rows, from, to - 1, layers, bufs, sw);
        let start = stripe_start(to - 1, sh);
        let end = stripe_end(to - 1, sh, rows);
        composed(prev, pitch, bpp, start, end, layers, bufs, active_layers(layers, layers.len() as int, start, end, sw), sw)
    }
}

/// `c` counted up by one `k` times, wrapping around.
pub open spec fn counted_up(c: usize, k: nat) -> usize
    decreases k,
{
    if k == 0 {
        c
    } else {
        counted_up(c, (k - 1) as nat).wrapping_add(1)
    }
}

/// Compose stripes on CPU `cpu_id` until none is left to claim
///
/// Each stripe claimed from the shared state is composed into `dst` (see
/// `compose_stripe`) and counted as completed; at the end the CPU's work
/// state shows it idle and the stripes it did are added to its count.
/// Returns the number of stripes done.
pub fn worker_compose(
    st: &mut CompositorState,
    cpu_id: usize,
    dst: &mut Vec<u8>,
    dst_pitch: usize,
    dst_bpp: usize,
    total_rows: usize,
    layers: &[CompositionLayer],
    buffers: &[Vec<u8>],
    screen_width: usize,
    stripe_height: usize,
) -> (r: usize)
    requires
        stripe_height > 0,
        total_rows + stripe_height <= usize::MAX,
        buffers@.len() == layers@.len(),
        forall|s: int|
            old(st).view().next_stripe <= s < stripes_for(total_rows as int, stripe_height as int) ==> #[trigger] stripe_fits(
                layers@,
                buffers@,
                old(dst)@.len() as int,
                dst_pitch as int,
                dst_bpp as int,
                stripe_start(s, stripe_height as int),
                stripe_end(s, stripe_height as int, total_rows as int),
                screen_width as int,
            ),
    ensures
        ({
            let n = old(st).view().next_stripe as int;
            let total = stripes_for(total_rows as int, stripe_height as int);
            &&& r == (if n < total { total - n } else { 0 })
            &&& final(st).view() == (CompositorView {
                next_stripe: (if n < total { total } else { n }) as usize,
                completed: counted_up(old(st).view().completed, r as nat),
                ..old(st).view()
            })
            &&& final(dst)@ == stripes_composed(
                old(dst)@,
                dst_pitch as int,
                dst_bpp as int,
                stripe_height as int,
                total_rows as int,
                n,
                n + r,
                layers@,
                buffers@,
                screen_width as int,
            )
        }),
        final(st).cpu_count() == old(st).cpu_count(),
        forall|i: int|
            0 <= i < old(st).cpu_count() ==> #[trigger] final(st).cpu(i) == if i == cpu_id {
                CpuWorkState {
                    working: false,
                    stripes_completed: old(st).cpu(i).stripes_completed.wrapping_add(r),
                    ..old(st).cpu(i)
                }
            } else {
                old(st).cpu(i)
            },
{
    let ghost n0 = st.view().next_stripe as int;
    let ghost total = stripes_for(total_rows as int, stripe_height as int);
    let ghost orig = dst@;
    let ghost v0 = st.view();
    let ghost cpus0 = Seq::new(st.cpu_count(), |i: int| st.cpu(i));
    set_cpu_working(st, cpu_id, true);
    let mut done: usize = 0;
    loop
        invariant_except_break
            stripe_height > 0,
            total_rows + stripe_height <= usize::MAX,
            buffers@.len() == layers@.len(),
            n0 == v0.next_stripe,
            total == stripes_for(total_rows as int, stripe_height as int),
            dst@.len() == orig.len(),
            forall|s: int|
                n0 <= s < total ==> #[trigger] stripe_fits(
                    layers@,
                    buffers@,
                    orig.len() as int,
                    dst_pitch as int,
                    dst_bpp as int,
                    stripe_start(s, stripe_height as int),
                    stripe_end(s, stripe_height as int, total_rows as int),
                    screen_width as int,
                ),
            n0 < total ==> st.view().next_stripe == n0 + done && n0 + done <= total,
            n0 >= total ==> done == 0 && st.view().next_stripe == n0,
            st.view() == (CompositorView {
                next_stripe: st.view().next_stripe,
                completed: counted_up(v0.completed, done as nat),
                ..v0
            }),
            dst@ == stripes_composed(
                orig,
                dst_pitch as int,
                dst_bpp as int,
                stripe_height as int,
                total_rows as int,
                n0,
                n0 + done,
                layers@,
                buffers@,
                screen_width as int,
            ),
            st.cpu_count() == cpus0.len(),
            forall|i: int|
                0 <= i < cpus0.len() ==> #[trigger] st.cpu(i) == if i == cpu_id {
                    CpuWorkState { working: true, ..cpus0[i] }
                } else {
                    cpus0[i]
                },
        ensures
            done == (if n0 < total { total - n0 } else { 0 }),
            st.view() == (CompositorView {
                next_stripe: (if n0 < total { total } else { n0 }) as usize,
                completed: counted_up(v0.completed, done as nat),
                ..v0
            }),
            dst@ == stripes_composed(
                orig,
                dst_pitch as int,
                dst_bpp as int,
                stripe_height as int,
                total_rows as int,
                n0,
                n0 + done,
                layers@,
                buffers@,
                screen_width as int,
            ),
            st.cpu_count() == cpus0.len(),
            forall|i: int|
                0 <= i < cpus0.len() ==> #[trigger] st.cpu(i) == if i == cpu_id {
                    CpuWorkState { working: true, ..cpus0[i] }
                } else {
                    cpus0[i]
                },
        decreases (if n0 < total { total - n0 - done } else { 0 }),
    {
        match claim_work_stripe(st, stripe_height, total_rows) {
            Some((idx, start_row, end_row)) => {
                proof {
                    let s = n0 + done;
                    assert(idx == s);
                    assert(s * stripe_height <= total_rows) by (nonlinear_arith)
                        requires
                            0 <= s < (total_rows + stripe_height - 1) / (stripe_height as int),
                            stripe_height > 0,
                    ;
                    assert(start_row == stripe_start(s, stripe_height as int));
                    assert(end_row == stripe_end(s, stripe_height as int, total_rows as int));
                    assert(stripe_fits(
                        layers@,
                        buffers@,
                        orig.len() as int,
                        dst_pitch as int,
                        dst_bpp as int,
                        stripe_start(s, stripe_height as int),
                        stripe_end(s, stripe_height as int, total_rows as int),
                        screen_width as int,
                    ));
                }
                compose_stripe(dst, dst_pitch, dst_bpp, start_row, end_row, layers, buffers, screen_width);
                complete_stripe(st);
                done = done + 1;
            },
            None => {
                break;
            },
        }
    }
    set_cpu_working(st, cpu_id, false);
    add_cpu_stripes(st, cpu_id, done);
    done
}

/// Claim the next batch of fill rows from the shared cursor `next`: rows
/// `[next, min(next + batch, total))`, none once every row is taken.
pub fn claim_fill_rows(next: &mut usize, batch_size: usize, total: usize) -> (r: Option<(usize, usize)>)
    ensures
        *old(next) >= total ==> r is None && *final(next) == *old(next),
        *old(next) < total ==> ({
            let end = if *old(next) + batch_size < total { *old(next) + batch_size } else { total as int };
            r == Some((*old(next), end as usize)) && *final(next) == end
        }),
{
    let current = *next;
    if current >= total {
        return None;
    }
    let end = if batch_size < total - current { current + batch_size } else { total };
    *next = end;
    Some((current, end))
}

/// Rows a fill worker claims at a time.
pub const FILL_BATCH_ROWS: usize = 48;

/// Fill rows claimed from the shared cursor `next`, `FILL_BATCH_ROWS` at a
/// time, with `color` over their first `width` pixels (see
/// `fill_single_row`) until all `total_rows` rows are taken; returns the
/// number of rows filled.
pub fn fill_worker(
    buf: &mut Vec<u8>,
    pitch: usize,
    width: usize,
    bpp: usize,
    color: u32,
    next: &mut usize,
    total_rows: usize,
) -> (r: usize)
    requires
        width * bpp <= pitch,
        total_rows > 0 ==> (total_rows - 1) * pitch + width * bpp <= old(buf).len(),
    ensures
        *old(next) < total_rows ==> r == total_rows - *old(next) && *final(next) == total_rows,
        *old(next) >= total_rows ==> r == 0 && *final(next) == *old(next),
        final(buf)@ == filled_rect(old(buf)@, pitch as int, bpp as int, 0, *old(next) as int, width as int, r as int, color),
{
    let ghost orig = buf@;
    let ghost n0 = *next as int;
    let mut done: usize = 0;
    loop
        invariant_except_break
            n0 >= 0,
            width * bpp <= pitch,
            total_rows > 0 ==> (total_rows - 1) * pitch + width * bpp <= orig.len(),
            buf@.len() == orig.len(),
            n0 < total_rows ==> *next == n0 + done && *next <= total_rows,
            n0 >= total_rows ==> done == 0 && *next == n0,
            buf@ == filled_rect(orig, pitch as int, bpp as int, 0, n0, width as int, done as int, color),
        ensures
            n0 < total_rows ==> done == total_rows - n0 && *next == total_rows,
            n0 >= total_rows ==> done == 0 && *next == n0,
            buf@ == filled_rect(orig, pitch as int, bpp as int, 0, n0, width as int, done as int, color),
        decreases (if n0 < total_rows { total_rows - n0 - done } else { 0 }),
    {
        match claim_fill_rows(next, FILL_BATCH_ROWS, total_rows) {
            Some((start, end)) => {
                let mut row: usize = start;
                while row < end
                    invariant
                        n0 >= 0,
                        start == n0 + done,
                        start <= row <= end <= total_rows,
                        width * bpp <= pitch,
                        (total_rows - 1) * pitch + width * bpp <= orig.len(),
                        buf@.len() == orig.len(),
                        buf@ == filled_rect(orig, pitch as int, bpp as int, 0, n0, width as int, row - n0, color),
                    decreases end - row,
                {
                    proof {
                        lemma_row_end(pitch as int, row as int, (total_rows - 1) as int, width * bpp, orig.len() as int);
                    }
                    let ghost prev = buf@;
                    fill_single_row(buf, pitch, width, bpp, row, color);
                    proof {
                        let want = filled_rect(orig, pitch as int, bpp as int, 0, n0, width as int, row + 1 - n0, color);
                        assert forall|i: int| 0 <= i < buf@.len() implies buf@[i] == want[i] by {
                            assert(in_block(pitch as int, n0, row + 1 - n0, 0, width * bpp, i) == (in_block(
                                pitch as int,
                                n0,
                                row - n0,
                                0,
                                width * bpp,
                                i,
                            ) || in_block(pitch as int, row as int, 1, 0, width * bpp, i)));
                        }
                        assert(buf@ =~= want);
                    }
                    row = row + 1;
                }
                done = done + (end - start);
            },
            None => {
                break;
            },
        }
    }
    done
}

/// Rows a copying fill worker claims at a time.
pub const FILL_COPY_BATCH_ROWS: usize = 64;

/// `old` with the `row_bytes` bytes at byte `xb` of each row in
/// `[from, to)` taken from the same bytes of row `template`.
pub open spec fn rows_from_template(old: Seq<u8>, pitch: int, xb: int, row_bytes: int, template: int, from: int, to: int) -> Seq<u8> {
    Seq::new(
        old.len(),
        |i: int|
            if in_block(pitch, from, to - from, xb, row_bytes, i) {
                old[template * pitch + i % pitch]
            } else {
                old[i]
            },
    )
}

/// The later of the claim cursor and the first row to copy.
pub open spec fn copy_from(next: int, start_row: int) -> int {
    if next < start_row {
        start_row
    } else {
        next
    }
}

/// Copy the already filled row `template_row` into rows claimed from the
/// shared cursor `next`, `FILL_COPY_BATCH_ROWS` at a time, until all
/// `total_rows` rows are taken
///
/// Only rows from `start_row` on are copied: `width` pixels from pixel
/// `x_offset`.  Returns the number of rows copied.
pub fn fill_worker_copy(
    buf: &mut Vec<u8>,
    pitch: usize,
    width: usize,
    bpp: usize,
    x_offset: usize,
    template_row: usize,
    start_row: usize,
    next: &mut usize,
    total_rows: usize,
) -> (r: usize)
    requires
        x_offset * bpp + width * bpp <= pitch,
        total_rows > 0 ==> (total_rows - 1) * pitch + x_offset * bpp + width * bpp <= old(buf).len(),
        template_row * pitch + x_offset * bpp + width * bpp <= old(buf).len(),
        width * bpp > 0 ==> !(copy_from(*old(next) as int, start_row as int) <= template_row < total_rows),
    ensures
        *old(next) < total_rows ==> *final(next) == total_rows,
        *old(next) >= total_rows ==> *final(next) == *old(next),
        ({
            let lo = copy_from(*old(next) as int, start_row as int);
            &&& r == (if lo < total_rows { total_rows - lo } else { 0 })
            &&& final(buf)@ == rows_from_template(
                old(buf)@,
                pitch as int,
                x_offset * bpp,
                width * bpp,
                template_row as int,
                lo,
                lo + r,
            )
        }),
{
    let ghost orig = buf@;
    let ghost n0 = *next as int;
    let ghost lo = copy_from(n0, start_row as int);
    let row_bytes = width * bpp;
    let xb = x_offset * bpp;
    let mut done: usize = 0;
    proof {
        assert(buf@ =~= rows_from_template(orig, pitch as int, xb as int, row_bytes as int, template_row as int, lo, lo));
    }
    loop
        invariant_except_break
            n0 >= 0,
            lo == copy_from(n0, start_row as int),
            row_bytes == width * bpp,
            xb == x_offset * bpp,
            xb + row_bytes <= pitch,
            total_rows > 0 ==> (total_rows - 1) * pitch + xb + row_bytes <= orig.len(),
            template_row * pitch + xb + row_bytes <= orig.len(),
            row_bytes > 0 ==> !(lo <= template_row < total_rows),
            buf@.len() == orig.len(),
            n0 < total_rows ==> n0 <= *next <= total_rows,
            n0 >= total_rows ==> *next == n0,
            done == (if lo < *next { *next - lo } else { 0 }),
            buf@ == rows_from_template(orig, pitch as int, xb as int, row_bytes as int, template_row as int, lo, lo + done),
        ensures
            n0 < total_rows ==> *next == total_rows,
            n0 >= total_rows ==> *next == n0,
            done == (if lo < *next { *next - lo } else { 0 }),
            buf@ == rows_from_template(orig, pitch as int, xb as int, row_bytes as int, template_row as int, lo, lo + done),
        decreases (if n0 < total_rows { total_rows - *next } else { 0 }),
    {
        match claim_fill_rows(next, FILL_COPY_BATCH_ROWS, total_rows) {
            Some((start, end)) => {
                if end <= start_row {
                    continue;
                }
                let actual_start = if start < start_row {
                    start_row
                } else {
                    start
                };
                let mut row: usize = actual_start;
                while row < end
                    invariant
                        actual_start <= row <= end <= total_rows,
                        actual_start == lo + done,
                        lo >= 0,
                        xb + row_bytes <= pitch,
                        (total_rows - 1) * pitch + xb + row_bytes <= orig.len(),
                        template_row * pitch + xb + row_bytes <= orig.len(),
                        row_bytes > 0 ==> !(lo <= template_row < total_rows),
                        buf@.len() == orig.len(),
                        buf@ == rows_from_template(orig, pitch as int, xb as int, row_bytes as int, template_row as int, lo, row as int),
                    decreases end - row,
                {
                    proof {
                        lemma_row_end(pitch as int, row as int, (total_rows - 1) as int, xb + row_bytes, buf.len() as int);
                    }
                    assert(template_row * pitch + xb + row_bytes <= buf.len());
                    let ghost prev = buf@;
                    if row_bytes > 0 {
                        proof {
                            if row < template_row {
                                lemma_mul_inequality(row + 1, template_row as int, pitch as int);
                                lemma_mul_is_distributive_add_other_way(pitch as int, row as int, 1);
                            } else {
                                lemma_mul_inequality(template_row + 1, row as int, pitch as int);
                                lemma_mul_is_distributive_add_other_way(pitch as int, template_row as int, 1);
                            }
                        }
                        copy_inside(buf, template_row * pitch + xb, row * pitch + xb, row_bytes);
                    }
                    proof {
                        let want = rows_from_template(orig, pitch as int, xb as int, row_bytes as int, template_row as int, lo, row + 1);
                        if row_bytes > 0 {
                            assert forall|i: int| 0 <= i < buf@.len() implies buf@[i] == want[i] by {
                                lemma_block_row(pitch as int, row as int, xb as int, row_bytes as int, i);
                                if row * pitch + xb <= i < row * pitch + xb + row_bytes {
                                    let j = template_row * pitch + i % (pitch as int);
                                    lemma_block_row(pitch as int, template_row as int, xb as int, row_bytes as int, j);
                                    assert(j - (template_row * pitch + xb) == i - (row * pitch + xb));
                                }
                            }
                        }
                        assert(buf@ =~= want);
                    }
                    row = row + 1;
                }
                done = done + (end - actual_start);
            },
            None => {
                break;
            },
        }
    }
    done
}

/// Rows a scroll worker claims at a time (twice as many while plenty
/// remain, see `claim_scroll_rows`).
pub const SCROLL_BATCH_ROWS: usize = 64;

/// Move rows up by `distance` rows: rows claimed from the shared cursor
/// `next` take their first `row_bytes` bytes from the row `distance` rows
/// below (see `scroll_worker`), until all `total_rows` rows are taken;
/// returns the number of rows moved.
pub fn scroll_worker_safe(
    buf: &mut Vec<u8>,
    pitch: usize,
    row_bytes: usize,
    distance: usize,
    next: &mut usize,
    total_rows: usize,
) -> (r: usize)
    requires
        distance > 0,
        row_bytes <= pitch,
        total_rows > 0 ==> (total_rows - 1 + distance) * pitch + row_bytes <= old(buf).len(),
    ensures
        *old(next) < total_rows ==> r == total_rows - *old(next) && *final(next) == total_rows,
        *old(next) >= total_rows ==> r == 0 && *final(next) == *old(next),
        final(buf)@ == moved_rows(
            old(buf)@,
            pitch as int,
            row_bytes as int,
            distance as int,
            *old(next) as int,
            *old(next) + r,
        ),
{
    let ghost orig = buf@;
    let ghost n0 = *next as int;
    let mut done: usize = 0;
    proof {
        assert(buf@ =~= moved_rows(orig, pitch as int, row_bytes as int, distance as int, n0, n0));
    }
    loop
        invariant_except_break
            n0 >= 0,
            distance > 0,
            row_bytes <= pitch,
            total_rows > 0 ==> (total_rows - 1 + distance) * pitch + row_bytes <= orig.len(),
            buf@.len() == orig.len(),
            n0 < total_rows ==> *next == n0 + done && *next <= total_rows,
            n0 >= total_rows ==> done == 0 && *next == n0,
            buf@ == moved_rows(orig, pitch as int, row_bytes as int, distance as int, n0, n0 + done),
        ensures
            n0 < total_rows ==> done == total_rows - n0 && *next == total_rows,
            n0 >= total_rows ==> done == 0 && *next == n0,
            buf@ == moved_rows(orig, pitch as int, row_bytes as int, distance as int, n0, n0 + done),
        decreases (if n0 < total_rows { total_rows - n0 - done } else { 0 }),
    {
        match claim_scroll_rows(next, SCROLL_BATCH_ROWS, total_rows) {
            Some((start, end)) => {
                proof {
                    if start < end {
                        lemma_mul_inequality((end - 1 + distance) as int, (total_rows - 1 + distance) as int, pitch as int);
                    }
                }
                let ghost prev = buf@;
                assert(start == n0 + done);
                scroll_worker(buf, pitch, row_bytes, distance, start, end);
                proof {
                    let want = moved_rows(orig, pitch as int, row_bytes as int, distance as int, n0, end as int);
                    assert forall|i: int| 0 <= i < buf@.len() implies buf@[i] == want[i] by {
                        if in_block(pitch as int, start as int, end - start, 0, row_bytes as int, i) {
                            let q = i / (pitch as int);
                            let m = i % (pitch as int);
                            lemma_fundamental_div_mod(i, pitch as int);
                            lemma_mul_is_commutative(pitch as int, q);
                            lemma_mul_is_distributive_add_other_way(pitch as int, q, distance as int);
                            lemma_fundamental_div_mod_converse(i + distance * pitch, pitch as int, q + distance, m);
                            lemma_mul_inequality(q + distance, (total_rows - 1 + distance) as int, pitch as int);
                            assert(i + distance * pitch < orig.len());
                            assert(!in_block(pitch as int, n0, start - n0, 0, row_bytes as int, i + distance * pitch));
                            assert(buf@[i] == prev[i + distance * pitch]);
                            assert(prev[i + distance * pitch] == orig[i + distance * pitch]);
                            assert(in_block(pitch as int, n0, end - n0, 0, row_bytes as int, i));
                        } else {
                            assert(buf@[i] == prev[i]);
                        }
                    }
                    assert(buf@ =~= want);
                }
                done = done + (end - start);
            },
            None => {
                break;
            },
        }
    }
    done
}

/// Claim the next batch of scroll rows from the shared cursor `next`:
/// twice the batch while more than four batches remain, cut at `total`;
/// none once every row is taken.
pub fn claim_scroll_rows(next: &mut usize, batch_size: usize, total: usize) -> (r: Option<(usize, usize)>)
    ensures
        *old(next) >= total ==> r is None && *final(next) == *old(next),
        *old(next) < total ==> ({
            let batch = if total - *old(next) > batch_size * 4 { batch_size * 2 } else { batch_size as int };
            let end = if *old(next) + batch < total { *old(next) + batch } else { total as int };
            r == Some((*old(next), end as usize)) && *final(next) == end
        }),
{
    let current = *next;
    if current >= total {
        return None;
    }
    let remaining = (total - current) as u128;
    let batch: u128 = if remaining > (batch_size as u128) * 4 { (batch_size as u128) * 2 } else { batch_size as u128 };
    let end: usize = if (current as u128) + batch < total as u128 { ((current as u128) + batch) as usize } else { total };
    *next = end;
    Some((current, end))
}

} // verus!
