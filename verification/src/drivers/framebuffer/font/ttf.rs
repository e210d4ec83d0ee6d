//! TrueType font (TTF) file parser.
//!
//! Reads the table directory, the `head`, `hhea` and `maxp` tables, maps
//! code points to glyph ids through the `cmap` table (formats 4 and 12),
//! extracts glyph outlines from `glyf`/`loca` and horizontal metrics from
//! `hmtx`.  Every read is bounds checked; a read that would fall outside the
//! font data makes the lookup fail instead of faulting.

use vstd::prelude::*;

verus! {

/// TTF parsing errors
#[derive(Debug, Clone, Copy, PartialEq, Eq, Structural)]
pub enum TtfError {
    /// Invalid magic number
    InvalidMagic,
    /// Table not found
    TableNotFound,
    /// Invalid table format
    InvalidFormat,
    /// Invalid glyph index
    InvalidGlyph,
    /// Unsupported cmap format
    UnsupportedCmap,
    /// Buffer too small
    BufferTooSmall,
    /// Invalid offset
    InvalidOffset,
}

// ---------------------------------------------------------------------------
// Big-endian field model
// ---------------------------------------------------------------------------

/// The big-endian 16-bit value stored at byte `i`.
pub open spec fn be16(d: Seq<u8>, i: int) -> int {
    d[i] as int * 256 + d[i + 1] as int
}

/// The big-endian 32-bit value stored at byte `i`.
pub open spec fn be32(d: Seq<u8>, i: int) -> int {
    d[i] as int * 16777216 + d[i + 1] as int * 65536 + d[i + 2] as int * 256 + d[i + 3] as int
}

pub open spec fn u16_at(d: Seq<u8>, i: int) -> u16 {
    be16(d, i) as u16
}

pub open spec fn i16_at(d: Seq<u8>, i: int) -> i16 {
    (be16(d, i) as u16) as i16
}

pub open spec fn u32_at(d: Seq<u8>, i: int) -> u32 {
    be32(d, i) as u32
}

/// `off + n <= len`.
fn fits(off: u128, n: u128, len: u128) -> (r: bool)
    ensures
        r == (off + n <= len),
{
    off <= len && n <= len - off
}

fn read_u16_be(data: &[u8], offset: u128) -> (r: u16)
    requires
        offset + 2 <= data@.len(),
    ensures
        r == u16_at(data@, offset as int),
{
    let o = offset as usize;
    let hi = data[o];
    let lo = data[o + 1];
    let r = ((hi as u16) << 8u16) | (lo as u16);
    assert(r == (hi as u16) * 256 + (lo as u16)) by (bit_vector)
        requires
            r == ((hi as u16) << 8u16) | (lo as u16),
    ;
    r
}

fn read_i16_be(data: &[u8], offset: u128) -> (r: i16)
    requires
        offset + 2 <= data@.len(),
    ensures
        r == i16_at(data@, offset as int),
{
    read_u16_be(data, offset) as i16
}

fn read_u32_be(data: &[u8], offset: u128) -> (r: u32)
    requires
        offset + 4 <= data@.len(),
    ensures
        r == u32_at(data@, offset as int),
{
    let o = offset as usize;
    let b0 = data[o];
    let b1 = data[o + 1];
    let b2 = data[o + 2];
    let b3 = data[o + 3];
    let r = ((b0 as u32) << 24u32) | ((b1 as u32) << 16u32) | ((b2 as u32) << 8u32) | (b3 as u32);
    assert(r == (b0 as u32) * 16777216 + (b1 as u32) * 65536 + (b2 as u32) * 256 + (b3 as u32))
        by (bit_vector)
        requires
            r == ((b0 as u32) << 24u32) | ((b1 as u32) << 16u32) | ((b2 as u32) << 8u32) | (
            b3 as u32),
    ;
    r
}

// ---------------------------------------------------------------------------
// Table directory
// ---------------------------------------------------------------------------

/// TTF table directory entry
#[derive(Debug, Clone, Copy)]
struct TableEntry {
    tag: u32,
    checksum: u32,
    offset: u32,
    length: u32,
}

/// Head table - font header
#[derive(Debug, Clone, Copy)]
pub struct HeadTable {
    pub units_per_em: u16,
    pub x_min: i16,
    pub y_min: i16,
    pub x_max: i16,
    pub y_max: i16,
    pub index_to_loc_format: i16,
}

/// Hhea table - horizontal metrics header
#[derive(Debug, Clone, Copy)]
pub struct HheaTable {
    pub ascender: i16,
    pub descender: i16,
    pub line_gap: i16,
    pub advance_width_max: u16,
    pub number_of_h_metrics: u16,
}

/// Maxp table - maximum profile
#[derive(Debug, Clone, Copy)]
pub struct MaxpTable {
    pub num_glyphs: u16,
}

/// Horizontal metric entry
#[derive(Debug, Clone, Copy)]
pub struct HMetric {
    pub advance_width: u16,
    pub left_side_bearing: i16,
}

/// Point in glyph outline
#[derive(Debug, Clone, Copy)]
pub struct GlyphPoint {
    pub x: i16,
    pub y: i16,
    pub on_curve: bool,
}

/// Glyph outline data
#[derive(Debug, Clone)]
pub struct GlyphOutline {
    pub x_min: i16,
    pub y_min: i16,
    pub x_max: i16,
    pub y_max: i16,
    pub contours: Vec<Vec<GlyphPoint>>,
}

/// The contours of an outline as a sequence of point sequences.
pub open spec fn contours_view(c: Seq<Vec<GlyphPoint>>) -> Seq<Seq<GlyphPoint>> {
    Seq::new(c.len(), |i: int| c[i]@)
}

/// What an outline holds: its bounding box and its contours.
pub struct OutlineSpec {
    pub x_min: i16,
    pub y_min: i16,
    pub x_max: i16,
    pub y_max: i16,
    pub contours: Seq<Seq<GlyphPoint>>,
}

impl GlyphOutline {
    pub open spec fn spec_model(&self) -> OutlineSpec {
        OutlineSpec {
            x_min: self.x_min,
            y_min: self.y_min,
            x_max: self.x_max,
            y_max: self.y_max,
            contours: contours_view(self.contours@),
        }
    }

    pub fn empty() -> (r: Self)
        ensures
            r.x_min == 0 && r.y_min == 0 && r.x_max == 0 && r.y_max == 0,
            r.contours@.len() == 0,
    {
        GlyphOutline { x_min: 0, y_min: 0, x_max: 0, y_max: 0, contours: Vec::new() }
    }
}

pub open spec fn empty_outline() -> OutlineSpec {
    OutlineSpec { x_min: 0, y_min: 0, x_max: 0, y_max: 0, contours: Seq::empty() }
}

pub const TAG_HEAD: u32 = 0x68656164;
pub const TAG_HHEA: u32 = 0x68686561;
pub const TAG_MAXP: u32 = 0x6D617870;
pub const TAG_CMAP: u32 = 0x636D6170;
pub const TAG_GLYF: u32 = 0x676C7966;
pub const TAG_LOCA: u32 = 0x6C6F6361;
pub const TAG_HMTX: u32 = 0x686D7478;

/// Number of entries in the table directory.
pub open spec fn num_tables(d: Seq<u8>) -> int {
    u16_at(d, 4) as int
}

/// Tag of directory entry `e`.
pub open spec fn entry_tag(d: Seq<u8>, e: int) -> u32 {
    u32_at(d, 12 + 16 * e)
}

/// Offset field of directory entry `e`.
pub open spec fn entry_offset(d: Seq<u8>, e: int) -> u32 {
    u32_at(d, 12 + 16 * e + 8)
}

/// First directory entry at or after `e` whose tag is `tag`.
pub open spec fn find_entry_from(d: Seq<u8>, tag: u32, e: int) -> Option<int>
    decreases num_tables(d) - e,
{
    if e < 0 || e >= num_tables(d) {
        None
    } else if entry_tag(d, e) == tag {
        Some(e)
    } else {
        find_entry_from(d, tag, e + 1)
    }
}

pub open spec fn find_entry(d: Seq<u8>, tag: u32) -> Option<int> {
    find_entry_from(d, tag, 0)
}

/// Offset of the first table with the given tag (meaningful when it exists).
pub open spec fn table_offset(d: Seq<u8>, tag: u32) -> int {
    entry_offset(d, find_entry(d, tag).unwrap()) as int
}

pub open spec fn magic_ok(d: Seq<u8>) -> bool {
    u32_at(d, 0) == 0x00010000u32 || u32_at(d, 0) == 0x4F54544Fu32
}

/// The first check of `TtfFont::parse` that the data fails, if any.
pub open spec fn parse_check(d: Seq<u8>) -> Option<TtfError> {
    if d.len() < 12 {
        Some(TtfError::BufferTooSmall)
    } else if !magic_ok(d) {
        Some(TtfError::InvalidMagic)
    } else if 12 + 16 * num_tables(d) > d.len() {
        Some(TtfError::BufferTooSmall)
    } else if find_entry(d, TAG_HEAD) is None || find_entry(d, TAG_HHEA) is None
        || find_entry(d, TAG_MAXP) is None || find_entry(d, TAG_CMAP) is None
        || find_entry(d, TAG_GLYF) is None || find_entry(d, TAG_LOCA) is None
        || find_entry(d, TAG_HMTX) is None {
        Some(TtfError::TableNotFound)
    } else if table_offset(d, TAG_HEAD) + 54 > d.len() {
        Some(TtfError::BufferTooSmall)
    } else if table_offset(d, TAG_HHEA) + 36 > d.len() {
        Some(TtfError::BufferTooSmall)
    } else if table_offset(d, TAG_MAXP) + 6 > d.len() {
        Some(TtfError::BufferTooSmall)
    } else {
        None
    }
}

/// Parsed TTF font
///
/// Borrows the font file bytes, which must live for the whole kernel run.
pub struct TtfFont {
    data: &'static [u8],
    tables: Vec<TableEntry>,
    pub head: HeadTable,
    pub hhea: HheaTable,
    pub maxp: MaxpTable,
    cmap_offset: u32,
    glyf_offset: u32,
    loca_offset: u32,
    hmtx_offset: u32,
}

/// The parsed directory entries agree with the file.
spec fn entries_match(t: Seq<TableEntry>, d: Seq<u8>) -> bool {
    forall|j: int|
        0 <= j < t.len() ==> (#[trigger] t[j]).tag == entry_tag(d, j) && t[j].offset
            == entry_offset(d, j)
}

fn find_table_entry(tables: &Vec<TableEntry>, tag: u32, Ghost(d): Ghost<Seq<u8>>) -> (r: Option<
    u32,
>)
    requires
        tables@.len() == num_tables(d),
        12 + 16 * num_tables(d) <= d.len(),
        entries_match(tables@, d),
    ensures
        match find_entry(d, tag) {
            Some(e) => r == Some(entry_offset(d, e)),
            None => r is None,
        },
{
    let mut i: usize = 0;
    while i < tables.len()
        invariant
            0 <= i <= tables@.len(),
            tables@.len() == num_tables(d),
            entries_match(tables@, d),
            find_entry(d, tag) == find_entry_from(d, tag, i as int),
        decreases tables@.len() - i,
    {
        if tables[i].tag == tag {
            return Some(tables[i].offset);
        }
        i = i + 1;
    }
    None
}

// ---------------------------------------------------------------------------
// cmap model
// ---------------------------------------------------------------------------

/// Whether a cmap encoding record names a Unicode subtable.
pub open spec fn unicode_platform(pid: u16, eid: u16) -> bool {
    (pid == 0 || (pid == 3 && eid == 1)) || (pid == 3 && eid == 10)
}

/// Scan of the cmap encoding records from record `i`: the last Unicode
/// subtable of format 4 and of format 12 (each `None` if there is none).
pub open spec fn cmap_scan(d: Seq<u8>, off: int, ns: int, i: int, f4: Option<int>, f12: Option<int>) -> (
    Option<int>,
    Option<int>,
)
    decreases ns - i,
{
    if i >= ns || off + 4 + i * 8 + 8 > d.len() {
        (f4, f12)
    } else {
        let eo = off + 4 + i * 8;
        let so = off + u32_at(d, eo + 4) as int;
        if so + 2 > d.len() {
            cmap_scan(d, off, ns, i + 1, f4, f12)
        } else if unicode_platform(u16_at(d, eo), u16_at(d, eo + 2)) && u16_at(d, so) == 4 {
            cmap_scan(d, off, ns, i + 1, Some(so), f12)
        } else if unicode_platform(u16_at(d, eo), u16_at(d, eo + 2)) && u16_at(d, so) == 12 {
            cmap_scan(d, off, ns, i + 1, f4, Some(so))
        } else {
            cmap_scan(d, off, ns, i + 1, f4, f12)
        }
    }
}

/// Binary search over the format 4 end codes: first segment whose end
/// code is not below `cp` when the end codes are sorted.
pub open spec fn fmt4_search(d: Seq<u8>, eco: int, cp: u16, low: int, high: int) -> Option<int>
    decreases high - low,
{
    if low >= high {
        Some(low)
    } else {
        let mid = (low + high) / 2;
        if eco + mid * 2 + 2 > d.len() {
            None
        } else if cp > u16_at(d, eco + mid * 2) {
            fmt4_search(d, eco, cp, mid + 1, high)
        } else {
            fmt4_search(d, eco, cp, low, mid)
        }
    }
}

/// Glyph id for `cp` in a format 4 subtable at `off`.
pub open spec fn fmt4_lookup(d: Seq<u8>, off: int, cp: u16) -> Option<u16> {
    if off + 14 > d.len() {
        None
    } else {
        let sc = u16_at(d, off + 6) as int / 2;
        let eco = off + 14;
        let sco = eco + sc * 2 + 2;
        let ido = sco + sc * 2;
        let iro = ido + sc * 2;
        if iro + sc * 2 > d.len() {
            None
        } else {
            match fmt4_search(d, eco, cp, 0, sc) {
                None => None,
                Some(seg) => if seg >= sc {
                    None
                } else if sco + seg * 2 + 2 > d.len() || ido + seg * 2 + 2 > d.len() || iro + seg * 2
                    + 2 > d.len() {
                    None
                } else if cp < u16_at(d, sco + seg * 2) {
                    None
                } else {
                    let start = u16_at(d, sco + seg * 2);
                    let delta = i16_at(d, ido + seg * 2);
                    let ro = u16_at(d, iro + seg * 2);
                    if ro == 0 {
                        let g = cp.wrapping_add(delta as u16);
                        if g == 0 {
                            None
                        } else {
                            Some(g)
                        }
                    } else {
                        let go = iro + seg * 2 + ro as int + (cp - start) * 2;
                        if go + 2 > d.len() {
                            None
                        } else {
                            let raw = u16_at(d, go);
                            let g = if raw == 0 {
                                0u16
                            } else {
                                raw.wrapping_add(delta as u16)
                            };
                            if g == 0 {
                                None
                            } else {
                                Some(g)
                            }
                        }
                    }
                },
            }
        }
    }
}

/// Binary search over the format 12 groups.
pub open spec fn fmt12_search(d: Seq<u8>, go: int, cp: u32, low: int, high: int) -> Option<u16>
    decreases high - low,
{
    if low >= high {
        None
    } else {
        let mid = (low + high) / 2;
        let g = go + mid * 12;
        if g + 12 > d.len() {
            None
        } else if cp < u32_at(d, g) {
            fmt12_search(d, go, cp, low, mid)
        } else if cp > u32_at(d, g + 4) {
            fmt12_search(d, go, cp, mid + 1, high)
        } else {
            Some(u32_at(d, g + 8).wrapping_add((cp - u32_at(d, g)) as u32) as u16)
        }
    }
}

/// Glyph id for `cp` in a format 12 subtable at `off`.
pub open spec fn fmt12_lookup(d: Seq<u8>, off: int, cp: u32) -> Option<u16> {
    if off + 16 > d.len() {
        None
    } else {
        fmt12_search(d, off + 16, cp, 0, u32_at(d, off + 12) as int)
    }
}

/// Glyph id for `cp` through the cmap table at `off`.
pub open spec fn cmap_lookup(d: Seq<u8>, off: int, cp: u32) -> Option<u16> {
    if off + 4 > d.len() {
        None
    } else {
        let (f4, f12) = cmap_scan(d, off, u16_at(d, off + 2) as int, 0, None, None);
        let from12 = match f12 {
            Some(o) => fmt12_lookup(d, o, cp),
            None => None,
        };
        if from12 is Some {
            from12
        } else {
            match f4 {
                Some(o) => if cp <= 0xFFFF {
                    fmt4_lookup(d, o, cp as u16)
                } else {
                    None
                },
                None => None,
            }
        }
    }
}

// ---------------------------------------------------------------------------
// glyf model
// ---------------------------------------------------------------------------

/// Flags of a simple glyph: `n` flags read from `off`, expanding repeats.
/// Returns the flags and the offset after them, `None` when the data ends.
pub open spec fn flags_spec(d: Seq<u8>, off: int, n: int, acc: Seq<u8>) -> Option<(Seq<u8>, int)>
    decreases n - acc.len(),
{
    if acc.len() >= n {
        Some((acc, off))
    } else if off >= d.len() || off < 0 {
        None
    } else {
        let flag = d[off];
        let acc1 = acc.push(flag);
        if flag & 8 != 0 {
            if off + 1 >= d.len() {
                None
            } else {
                let rep = d[off + 1] as int;
                let k = if rep < n - acc1.len() {
                    rep
                } else {
                    n - acc1.len()
                };
                flags_spec(d, off + 2, n, acc1 + Seq::new(k as nat, |j: int| flag))
            }
        } else {
            flags_spec(d, off + 1, n, acc1)
        }
    }
}

/// Coordinates of a simple glyph along one axis: `short` and `same` are the
/// flag bits that select a one-byte delta and its sign / a repeated value.
pub open spec fn coords_spec(
    d: Seq<u8>,
    off: int,
    flags: Seq<u8>,
    short: u8,
    same: u8,
    cur: i16,
    acc: Seq<i16>,
) -> Option<(Seq<i16>, int)>
    decreases flags.len() - acc.len(),
{
    if acc.len() >= flags.len() {
        Some((acc, off))
    } else {
        let flag = flags[acc.len() as int];
        if flag & short != 0 {
            if off >= d.len() || off < 0 {
                None
            } else {
                let dx = d[off] as i16;
                let nx = if flag & same != 0 {
                    cur.wrapping_add(dx)
                } else {
                    cur.wrapping_sub(dx)
                };
                coords_spec(d, off + 1, flags, short, same, nx, acc.push(nx))
            }
        } else if flag & same == 0 {
            if off + 2 > d.len() || off < 0 {
                None
            } else {
                let nx = cur.wrapping_add(i16_at(d, off));
                coords_spec(d, off + 2, flags, short, same, nx, acc.push(nx))
            }
        } else {
            coords_spec(d, off, flags, short, same, cur, acc.push(cur))
        }
    }
}

/// Contour `k` of a simple glyph: the points from the end of the previous
/// contour up to its own end point, cut at the number of points.
pub open spec fn contour_spec(
    ends: Seq<u16>,
    k: int,
    flags: Seq<u8>,
    xs: Seq<i16>,
    ys: Seq<i16>,
) -> Seq<GlyphPoint> {
    let start: int = if k == 0 {
        0
    } else {
        ends[k - 1] as int + 1
    };
    let last: int = if (ends[k] as int) < flags.len() {
        ends[k] as int
    } else {
        flags.len() - 1
    };
    let cnt: int = if last - start + 1 > 0 {
        last - start + 1
    } else {
        0
    };
    Seq::new(
        cnt as nat,
        |j: int|
            GlyphPoint { x: xs[start + j], y: ys[start + j], on_curve: flags[start + j] & 1 != 0 },
    )
}

/// Contour end points of a simple glyph (`None` if they run past the data).
pub open spec fn ends_spec(d: Seq<u8>, off: int, nc: int) -> Option<Seq<u16>> {
    if off + 2 * nc > d.len() {
        None
    } else {
        Some(Seq::new(nc as nat, |k: int| u16_at(d, off + 2 * k)))
    }
}

/// A simple glyph with `nc > 0` contours whose data starts at `off`.
pub open spec fn simple_glyph_spec(
    d: Seq<u8>,
    off: int,
    nc: int,
    bbox: (i16, i16, i16, i16),
) -> Result<OutlineSpec, TtfError> {
    match ends_spec(d, off, nc) {
        None => Err(TtfError::BufferTooSmall),
        Some(ends) => {
            let n = ends[nc - 1].wrapping_add(1u16) as int;
            let o1 = off + 2 * nc;
            if o1 + 2 > d.len() {
                Err(TtfError::BufferTooSmall)
            } else {
                let o2 = o1 + 2 + u16_at(d, o1) as int;
                match flags_spec(d, o2, n, Seq::empty()) {
                    None => Err(TtfError::BufferTooSmall),
                    Some((flags, o3)) => match coords_spec(d, o3, flags, 2, 16, 0, Seq::empty()) {
                        None => Err(TtfError::BufferTooSmall),
                        Some((xs, o4)) => match coords_spec(d, o4, flags, 4, 32, 0, Seq::empty()) {
                            None => Err(TtfError::BufferTooSmall),
                            Some((ys, _o5)) => Ok(
                                OutlineSpec {
                                    x_min: bbox.0,
                                    y_min: bbox.1,
                                    x_max: bbox.2,
                                    y_max: bbox.3,
                                    contours: Seq::new(
                                        nc as nat,
                                        |k: int| contour_spec(ends, k, flags, xs, ys),
                                    ),
                                },
                            ),
                        },
                    },
                }
            }
        },
    }
}

/// Adds `b` to `a`, clamping at the bounds of `i16`.
pub open spec fn sat_add_i16(a: i16, b: i16) -> i16 {
    if (a as int + b as int) > 32767 {
        32767i16
    } else if (a as int + b as int) < -32768 {
        -32768i16
    } else {
        (a + b) as i16
    }
}

/// A contour moved by `(dx, dy)`.
pub open spec fn shift_contour(c: Seq<GlyphPoint>, dx: i16, dy: i16) -> Seq<GlyphPoint> {
    Seq::new(
        c.len(),
        |i: int|
            GlyphPoint {
                x: sat_add_i16(c[i].x, dx),
                y: sat_add_i16(c[i].y, dy),
                on_curve: c[i].on_curve,
            },
    )
}

/// Deepest nesting of compound glyphs that is followed.
pub const MAX_COMPONENT_DEPTH: u32 = 8;

/// Translation of a compound glyph component record at `off`:
/// `(dx, dy, offset after the arguments)`, `None` if the data ends.
pub open spec fn component_args(d: Seq<u8>, off: int, flags: u16) -> Option<(i16, i16, int)> {
    if flags & 1 != 0 {
        if off + 4 > d.len() {
            None
        } else {
            Some((i16_at(d, off), i16_at(d, off + 2), off + 4))
        }
    } else {
        if off + 2 > d.len() {
            None
        } else {
            Some(((d[off] as i8) as i16, (d[off + 1] as i8) as i16, off + 2))
        }
    }
}

/// Bytes of scale data after a component's arguments.
pub open spec fn scale_len(flags: u16) -> int {
    if flags & 8 != 0 {
        2
    } else if flags & 0x40 != 0 {
        4
    } else if flags & 0x80 != 0 {
        8
    } else {
        0
    }
}

impl TtfFont {
    /// The font file bytes.
    pub closed spec fn bytes(&self) -> Seq<u8> {
        self.data@
    }

    pub closed spec fn head_view(&self) -> HeadTable {
        self.head
    }

    pub closed spec fn hhea_view(&self) -> HheaTable {
        self.hhea
    }

    pub closed spec fn maxp_view(&self) -> MaxpTable {
        self.maxp
    }

    pub closed spec fn cmap_off(&self) -> int {
        self.cmap_offset as int
    }

    pub closed spec fn glyf_off(&self) -> int {
        self.glyf_offset as int
    }

    pub closed spec fn loca_off(&self) -> int {
        self.loca_offset as int
    }

    pub closed spec fn hmtx_off(&self) -> int {
        self.hmtx_offset as int
    }

    /// Offset of a glyph's data in the file, `None` for an empty glyph or
    /// an id out of range.
    pub open spec fn glyph_offset_spec(&self, gid: u16) -> Option<int> {
        let d = self.bytes();
        if gid as int >= self.maxp_view().num_glyphs as int {
            None
        } else if self.head_view().index_to_loc_format == 0 {
            let o = self.loca_off() + gid as int * 2;
            if o + 4 > d.len() {
                None
            } else if u16_at(d, o) as int * 2 == u16_at(d, o + 2) as int * 2 {
                None
            } else {
                Some(self.glyf_off() + u16_at(d, o) as int * 2)
            }
        } else {
            let o = self.loca_off() + gid as int * 4;
            if o + 8 > d.len() {
                None
            } else if u32_at(d, o) == u32_at(d, o + 4) {
                None
            } else {
                Some(self.glyf_off() + u32_at(d, o) as int)
            }
        }
    }

    /// Outline of glyph `gid`, following compound glyphs `depth` deep.
    pub open spec fn outline_spec(&self, gid: u16, depth: nat) -> Result<OutlineSpec, TtfError>
        decreases depth, 1int, 0int,
    {
        let d = self.bytes();
        if depth == 0 {
            Err(TtfError::InvalidGlyph)
        } else {
            match self.glyph_offset_spec(gid) {
                None => Ok(empty_outline()),
                Some(off) => if off + 10 > d.len() {
                    Err(TtfError::InvalidOffset)
                } else {
                    let nc = i16_at(d, off);
                    let bbox = (
                        i16_at(d, off + 2),
                        i16_at(d, off + 4),
                        i16_at(d, off + 6),
                        i16_at(d, off + 8),
                    );
                    if nc < 0 {
                        self.compound_spec(
                            off + 10,
                            depth,
                            OutlineSpec {
                                x_min: bbox.0,
                                y_min: bbox.1,
                                x_max: bbox.2,
                                y_max: bbox.3,
                                contours: Seq::empty(),
                            },
                        )
                    } else if nc == 0 {
                        Ok(
                            OutlineSpec {
                                x_min: bbox.0,
                                y_min: bbox.1,
                                x_max: bbox.2,
                                y_max: bbox.3,
                                contours: Seq::empty(),
                            },
                        )
                    } else {
                        simple_glyph_spec(d, off + 10, nc as int, bbox)
                    }
                },
            }
        }
    }

    /// Components of a compound glyph from the record at `off`, appended
    /// to `acc`.
    pub open spec fn compound_spec(&self, off: int, depth: nat, acc: OutlineSpec) -> Result<
        OutlineSpec,
        TtfError,
    >
        decreases depth, 0int, self.bytes().len() - off,
    {
        let d = self.bytes();
        if depth == 0 || off < 0 || off + 4 > d.len() {
            if depth == 0 {
                Ok(acc)
            } else {
                Err(TtfError::BufferTooSmall)
            }
        } else {
            let flags = u16_at(d, off);
            let gi = u16_at(d, off + 2);
            match component_args(d, off + 4, flags) {
                None => Err(TtfError::BufferTooSmall),
                Some((dx, dy, next)) => {
                    let after = next + scale_len(flags);
                    let acc2 = match self.outline_spec(gi, (depth - 1) as nat) {
                        Ok(comp) => OutlineSpec {
                            contours: acc.contours + Seq::new(
                                comp.contours.len(),
                                |i: int| shift_contour(comp.contours[i], dx, dy),
                            ),
                            ..acc
                        },
                        Err(_) => acc,
                    };
                    if flags & 0x20 != 0 {
                        if after + 4 > d.len() {
                            Err(TtfError::BufferTooSmall)
                        } else {
                            self.compound_spec(after, depth, acc2)
                        }
                    } else {
                        Ok(acc2)
                    }
                },
            }
        }
    }

    /// Horizontal metrics of glyph `gid`.
    pub open spec fn h_metrics_spec(&self, gid: u16) -> HMetric {
        let d = self.bytes();
        let nh = self.hhea_view().number_of_h_metrics;
        let off = self.hmtx_off();
        if gid < nh {
            let eo = off + gid as int * 4;
            if eo + 4 <= d.len() {
                HMetric { advance_width: u16_at(d, eo), left_side_bearing: i16_at(d, eo + 2) }
            } else {
                HMetric { advance_width: self.head_view().units_per_em, left_side_bearing: 0 }
            }
        } else if nh == 0 {
            HMetric { advance_width: self.head_view().units_per_em, left_side_bearing: 0 }
        } else {
            let la = off + (nh - 1) * 4;
            let lo = off + nh as int * 4 + (gid - nh) * 2;
            if la + 2 <= d.len() && lo + 2 <= d.len() {
                HMetric { advance_width: u16_at(d, la), left_side_bearing: i16_at(d, lo) }
            } else {
                HMetric { advance_width: self.head_view().units_per_em, left_side_bearing: 0 }
            }
        }
    }
}

/// `head` table fields read at `o`.
pub open spec fn head_spec(d: Seq<u8>, o: int) -> HeadTable {
    HeadTable {
        units_per_em: u16_at(d, o + 18),
        x_min: i16_at(d, o + 36),
        y_min: i16_at(d, o + 38),
        x_max: i16_at(d, o + 40),
        y_max: i16_at(d, o + 42),
        index_to_loc_format: i16_at(d, o + 50),
    }
}

/// `hhea` table fields read at `o`.
pub open spec fn hhea_spec(d: Seq<u8>, o: int) -> HheaTable {
    HheaTable {
        ascender: i16_at(d, o + 4),
        descender: i16_at(d, o + 6),
        line_gap: i16_at(d, o + 8),
        advance_width_max: u16_at(d, o + 10),
        number_of_h_metrics: u16_at(d, o + 34),
    }
}

pub open spec fn outline_result(r: Result<GlyphOutline, TtfError>) -> Result<OutlineSpec, TtfError> {
    match r {
        Ok(o) => Ok(o.spec_model()),
        Err(e) => Err(e),
    }
}

pub open spec fn opt_int(o: Option<u128>) -> Option<int> {
    match o {
        Some(v) => Some(v as int),
        None => None,
    }
}

fn sat_add(a: i16, b: i16) -> (r: i16)
    ensures
        r == sat_add_i16(a, b),
{
    let s = a as i32 + b as i32;
    if s > 32767 {
        32767
    } else if s < -32768 {
        -32768
    } else {
        s as i16
    }
}

impl TtfFont {
    /// The font was parsed from `d`: its tables are the ones `d` describes.
    pub closed spec fn parsed_from(&self, d: Seq<u8>) -> bool {
        &&& self.data@ == d
        &&& self.head == head_spec(d, table_offset(d, TAG_HEAD))
        &&& self.hhea == hhea_spec(d, table_offset(d, TAG_HHEA))
        &&& self.maxp.num_glyphs == u16_at(d, table_offset(d, TAG_MAXP) + 4)
        &&& self.cmap_offset as int == table_offset(d, TAG_CMAP)
        &&& self.glyf_offset as int == table_offset(d, TAG_GLYF)
        &&& self.loca_offset as int == table_offset(d, TAG_LOCA)
        &&& self.hmtx_offset as int == table_offset(d, TAG_HMTX)
    }

    /// What a font parsed from `d` holds: the bytes `d`, and the tables
    /// and table offsets `d`'s directory names.
    pub proof fn lemma_parsed_from(&self, d: Seq<u8>)
        requires
            self.parsed_from(d),
        ensures
            self.bytes() == d,
            self.head_view() == head_spec(d, table_offset(d, TAG_HEAD)),
            self.hhea_view() == hhea_spec(d, table_offset(d, TAG_HHEA)),
            self.maxp_view().num_glyphs == u16_at(d, table_offset(d, TAG_MAXP) + 4),
            self.cmap_off() == table_offset(d, TAG_CMAP),
            self.glyf_off() == table_offset(d, TAG_GLYF),
            self.loca_off() == table_offset(d, TAG_LOCA),
            self.hmtx_off() == table_offset(d, TAG_HMTX),
    {
    }

    /// Parse a TTF font from raw bytes.
    ///
    /// Checks, in this order: the length of the header, the magic number
    /// (TrueType or OpenType), the table directory, the presence of the
    /// `head`, `hhea`, `maxp`, `cmap`, `glyf`, `loca` and `hmtx` tables, and the
    /// room for the `head`, `hhea` and `maxp` tables.
    pub fn parse(data: &'static [u8]) -> (r: Result<Self, TtfError>)
        ensures
            match r {
                Ok(f) => parse_check(data@) is None && f.parsed_from(data@),
                Err(e) => parse_check(data@) == Some(e),
            },
    {
        let ghost d = data@;
        let len = data.len() as u128;
        if len < 12 {
            return Err(TtfError::BufferTooSmall);
        }
        let magic = read_u32_be(data, 0);
        if magic != 0x00010000 && magic != 0x4F54544F {
            return Err(TtfError::InvalidMagic);
        }
        let table_count = read_u16_be(data, 4);
        let mut tables: Vec<TableEntry> = Vec::new();
        let mut offset: u128 = 12;
        let mut i: u16 = 0;
        while i < table_count
            invariant
                d == data@,
                len == d.len(),
                len <= 0xFFFF_FFFF_FFFF_FFFF,
                len >= 12,
                magic_ok(d),
                table_count as int == num_tables(d),
                i <= table_count,
                offset == 12 + 16 * i,
                offset <= len,
                tables@.len() == i,
                entries_match(tables@, d),
            decreases table_count - i,
        {
            if !fits(offset, 16, len) {
                return Err(TtfError::BufferTooSmall);
            }
            let tag = read_u32_be(data, offset);
            let checksum = read_u32_be(data, offset + 4);
            let table_offset = read_u32_be(data, offset + 8);
            let length = read_u32_be(data, offset + 12);
            tables.push(TableEntry { tag, checksum, offset: table_offset, length });
            offset = offset + 16;
            i = i + 1;
        }
        let head_offset = match find_table_entry(&tables, TAG_HEAD, Ghost(d)) {
            Some(o) => o,
            None => return Err(TtfError::TableNotFound),
        };
        let hhea_offset = match find_table_entry(&tables, TAG_HHEA, Ghost(d)) {
            Some(o) => o,
            None => return Err(TtfError::TableNotFound),
        };
        let maxp_offset = match find_table_entry(&tables, TAG_MAXP, Ghost(d)) {
            Some(o) => o,
            None => return Err(TtfError::TableNotFound),
        };
        let cmap_offset = match find_table_entry(&tables, TAG_CMAP, Ghost(d)) {
            Some(o) => o,
            None => return Err(TtfError::TableNotFound),
        };
        let glyf_offset = match find_table_entry(&tables, TAG_GLYF, Ghost(d)) {
            Some(o) => o,
            None => return Err(TtfError::TableNotFound),
        };
        let loca_offset = match find_table_entry(&tables, TAG_LOCA, Ghost(d)) {
            Some(o) => o,
            None => return Err(TtfError::TableNotFound),
        };
        let hmtx_offset = match find_table_entry(&tables, TAG_HMTX, Ghost(d)) {
            Some(o) => o,
            None => return Err(TtfError::TableNotFound),
        };
        let head = Self::parse_head(data, head_offset as u128)?;
        let hhea = Self::parse_hhea(data, hhea_offset as u128)?;
        let maxp = Self::parse_maxp(data, maxp_offset as u128)?;
        Ok(
            Self {
                data,
                tables,
                head,
                hhea,
                maxp,
                cmap_offset,
                glyf_offset,
                loca_offset,
                hmtx_offset,
            },
        )
    }

    fn parse_head(data: &[u8], offset: u128) -> (r: Result<HeadTable, TtfError>)
        ensures
            offset + 54 > data@.len() ==> r == Err::<HeadTable, TtfError>(TtfError::BufferTooSmall),
            offset + 54 <= data@.len() ==> r == Ok::<HeadTable, TtfError>(
                head_spec(data@, offset as int),
            ),
    {
        if !fits(offset, 54, data.len() as u128) {
            return Err(TtfError::BufferTooSmall);
        }
        Ok(
            HeadTable {
                units_per_em: read_u16_be(data, offset + 18),
                x_min: read_i16_be(data, offset + 36),
                y_min: read_i16_be(data, offset + 38),
                x_max: read_i16_be(data, offset + 40),
                y_max: read_i16_be(data, offset + 42),
                index_to_loc_format: read_i16_be(data, offset + 50),
            },
        )
    }

    fn parse_hhea(data: &[u8], offset: u128) -> (r: Result<HheaTable, TtfError>)
        ensures
            offset + 36 > data@.len() ==> r == Err::<HheaTable, TtfError>(TtfError::BufferTooSmall),
            offset + 36 <= data@.len() ==> r == Ok::<HheaTable, TtfError>(
                hhea_spec(data@, offset as int),
            ),
    {
        if !fits(offset, 36, data.len() as u128) {
            return Err(TtfError::BufferTooSmall);
        }
        Ok(
            HheaTable {
                ascender: read_i16_be(data, offset + 4),
                descender: read_i16_be(data, offset + 6),
                line_gap: read_i16_be(data, offset + 8),
                advance_width_max: read_u16_be(data, offset + 10),
                number_of_h_metrics: read_u16_be(data, offset + 34),
            },
        )
    }

    fn parse_maxp(data: &[u8], offset: u128) -> (r: Result<MaxpTable, TtfError>)
        ensures
            offset + 6 > data@.len() ==> r == Err::<MaxpTable, TtfError>(TtfError::BufferTooSmall),
            offset + 6 <= data@.len() ==> r == Ok::<MaxpTable, TtfError>(
                MaxpTable { num_glyphs: u16_at(data@, offset + 4) },
            ),
    {
        if !fits(offset, 6, data.len() as u128) {
            return Err(TtfError::BufferTooSmall);
        }
        Ok(MaxpTable { num_glyphs: read_u16_be(data, offset + 4) })
    }
}

impl TtfFont {
    /// Get the glyph ID for a Unicode code point.
    ///
    /// Prefers a Unicode format 12 subtable, then a format 4 subtable for
    /// code points of the Basic Multilingual Plane.
    pub fn get_glyph_id(&self, codepoint: u32) -> (r: Option<u16>)
        ensures
            r == cmap_lookup(self.bytes(), self.cmap_off(), codepoint),
    {
        self.lookup_cmap(codepoint)
    }

    fn lookup_cmap(&self, codepoint: u32) -> (r: Option<u16>)
        ensures
            r == cmap_lookup(self.bytes(), self.cmap_off(), codepoint),
    {
        let ghost d = self.data@;
        let data = self.data;
        let len = data.len() as u128;
        let offset = self.cmap_offset as u128;
        if !fits(offset, 4, len) {
            return None;
        }
        let num_subtables = read_u16_be(data, offset + 2);
        let mut format4_offset: Option<u128> = None;
        let mut format12_offset: Option<u128> = None;
        let mut i: u16 = 0;
        while i < num_subtables && fits(offset + 4 + (i as u128) * 8, 8, len)
            invariant
                d == data@,
                d == self.data@,
                len == d.len(),
                len <= 0xFFFF_FFFF_FFFF_FFFF,
                offset + 4 <= len,
                offset == self.cmap_off(),
                i <= num_subtables,
                num_subtables == u16_at(d, offset + 2),
                format4_offset matches Some(v) ==> v + 2 <= len,
                format12_offset matches Some(v) ==> v + 2 <= len,
                cmap_scan(d, offset as int, num_subtables as int, 0, None, None) == cmap_scan(
                    d,
                    offset as int,
                    num_subtables as int,
                    i as int,
                    opt_int(format4_offset),
                    opt_int(format12_offset),
                ),
            decreases num_subtables - i,
        {
            let entry_offset = offset + 4 + (i as u128) * 8;
            let platform_id = read_u16_be(data, entry_offset);
            let encoding_id = read_u16_be(data, entry_offset + 2);
            let subtable_offset = offset + read_u32_be(data, entry_offset + 4) as u128;
            if !fits(subtable_offset, 2, len) {
                i = i + 1;
                continue;
            }
            let format = read_u16_be(data, subtable_offset);
            if (platform_id == 0 || (platform_id == 3 && encoding_id == 1)) || (platform_id == 3
                && encoding_id == 10) {
                if format == 4 {
                    format4_offset = Some(subtable_offset);
                } else if format == 12 {
                    format12_offset = Some(subtable_offset);
                }
            }
            i = i + 1;
        }
        if let Some(off) = format12_offset {
            if let Some(glyph) = self.lookup_cmap_format12(off, codepoint) {
                return Some(glyph);
            }
        }
        if let Some(off) = format4_offset {
            if codepoint <= 0xFFFF {
                return self.lookup_cmap_format4(off, codepoint as u16);
            }
        }
        None
    }

    /// Look up in cmap format 4 (segment mapping to delta values)
    fn lookup_cmap_format4(&self, offset: u128, codepoint: u16) -> (r: Option<u16>)
        requires
            offset <= self.bytes().len(),
        ensures
            r == fmt4_lookup(self.bytes(), offset as int, codepoint),
    {
        let ghost d = self.data@;
        let data = self.data;
        let len = data.len() as u128;
        if !fits(offset, 14, len) {
            return None;
        }
        let seg_count = (read_u16_be(data, offset + 6) / 2) as u128;
        let end_code_offset = offset + 14;
        let start_code_offset = end_code_offset + seg_count * 2 + 2;
        let id_delta_offset = start_code_offset + seg_count * 2;
        let id_range_offset_base = id_delta_offset + seg_count * 2;
        if !fits(id_range_offset_base, seg_count * 2, len) {
            return None;
        }
        let mut low: u128 = 0;
        let mut high: u128 = seg_count;
        while low < high
            invariant
                d == data@,
                len == d.len(),
                len <= 0xFFFF_FFFF_FFFF_FFFF,
                d == self.data@,
                low <= high <= seg_count,
                seg_count <= 32767,
                seg_count == u16_at(d, offset + 6) as int / 2,
                end_code_offset == offset + 14,
                end_code_offset <= len,
                fmt4_search(d, end_code_offset as int, codepoint, 0, seg_count as int)
                    == fmt4_search(d, end_code_offset as int, codepoint, low as int, high as int),
            decreases high - low,
        {
            let mid = (low + high) / 2;
            if !fits(end_code_offset + mid * 2, 2, len) {
                return None;
            }
            let end_code = read_u16_be(data, end_code_offset + mid * 2);
            if codepoint > end_code {
                low = mid + 1;
            } else {
                high = mid;
            }
        }
        if low >= seg_count {
            return None;
        }
        let seg_idx = low;
        if !fits(start_code_offset + seg_idx * 2, 2, len) || !fits(id_delta_offset + seg_idx * 2, 2, len)
            || !fits(id_range_offset_base + seg_idx * 2, 2, len) {
            return None;
        }
        let start_code = read_u16_be(data, start_code_offset + seg_idx * 2);
        if codepoint < start_code {
            return None;
        }
        let id_delta = read_i16_be(data, id_delta_offset + seg_idx * 2);
        let id_range_offset = read_u16_be(data, id_range_offset_base + seg_idx * 2);
        let glyph_id = if id_range_offset == 0 {
            codepoint.wrapping_add(id_delta as u16)
        } else {
            let glyph_offset = id_range_offset_base + seg_idx * 2 + id_range_offset as u128 + ((
            codepoint - start_code) as u128) * 2;
            if !fits(glyph_offset, 2, len) {
                return None;
            }
            let glyph = read_u16_be(data, glyph_offset);
            if glyph == 0 {
                0
            } else {
                glyph.wrapping_add(id_delta as u16)
            }
        };
        if glyph_id == 0 {
            None
        } else {
            Some(glyph_id)
        }
    }

    /// Look up in cmap format 12 (segmented coverage)
    fn lookup_cmap_format12(&self, offset: u128, codepoint: u32) -> (r: Option<u16>)
        requires
            offset <= self.bytes().len(),
        ensures
            r == fmt12_lookup(self.bytes(), offset as int, codepoint),
    {
        let ghost d = self.data@;
        let data = self.data;
        let len = data.len() as u128;
        if !fits(offset, 16, len) {
            return None;
        }
        let num_groups = read_u32_be(data, offset + 12) as u128;
        let groups_offset = offset + 16;
        let mut low: u128 = 0;
        let mut high: u128 = num_groups;
        while low < high
            invariant
                d == data@,
                len == d.len(),
                len <= 0xFFFF_FFFF_FFFF_FFFF,
                d == self.data@,
                low <= high <= num_groups,
                num_groups <= 0xFFFF_FFFF,
                num_groups == u32_at(d, offset + 12),
                groups_offset == offset + 16,
                groups_offset <= len,
                fmt12_search(d, groups_offset as int, codepoint, 0, num_groups as int)
                    == fmt12_search(d, groups_offset as int, codepoint, low as int, high as int),
            decreases high - low,
        {
            let mid = (low + high) / 2;
            let group_offset = groups_offset + mid * 12;
            if !fits(group_offset, 12, len) {
                return None;
            }
            let start_char = read_u32_be(data, group_offset);
            let end_char = read_u32_be(data, group_offset + 4);
            if codepoint < start_char {
                high = mid;
            } else if codepoint > end_char {
                low = mid + 1;
            } else {
                let start_glyph = read_u32_be(data, group_offset + 8);
                return Some(start_glyph.wrapping_add(codepoint - start_char) as u16);
            }
        }
        None
    }

    /// Get glyph offset from loca table
    fn get_glyph_offset(&self, glyph_id: u16) -> (r: Option<u128>)
        ensures
            opt_int(r) == self.glyph_offset_spec(glyph_id),
    {
        let data = self.data;
        let len = data.len() as u128;
        if glyph_id as u32 >= self.maxp.num_glyphs as u32 {
            return None;
        }
        let loca_offset = self.loca_offset as u128;
        if self.head.index_to_loc_format == 0 {
            let offset = loca_offset + (glyph_id as u128) * 2;
            if !fits(offset, 4, len) {
                return None;
            }
            let off1 = read_u16_be(data, offset) as u128 * 2;
            let off2 = read_u16_be(data, offset + 2) as u128 * 2;
            if off1 == off2 {
                return None;
            }
            Some(self.glyf_offset as u128 + off1)
        } else {
            let offset = loca_offset + (glyph_id as u128) * 4;
            if !fits(offset, 8, len) {
                return None;
            }
            let off1 = read_u32_be(data, offset) as u128;
            let off2 = read_u32_be(data, offset + 4) as u128;
            if off1 == off2 {
                return None;
            }
            Some(self.glyf_offset as u128 + off1)
        }
    }

    /// Get horizontal metrics for a glyph
    ///
    /// Glyphs past the long metrics share the last advance width.  A font
    /// with no long metrics at all, or a read that falls outside the data,
    /// gives the default metric (the em size as advance, no bearing).
    pub fn get_h_metrics(&self, glyph_id: u16) -> (r: HMetric)
        ensures
            r == self.h_metrics_spec(glyph_id),
    {
        let data = self.data;
        let len = data.len() as u128;
        let num_h_metrics = self.hhea.number_of_h_metrics;
        let offset = self.hmtx_offset as u128;
        if glyph_id < num_h_metrics {
            let entry_offset = offset + (glyph_id as u128) * 4;
            if fits(entry_offset, 4, len) {
                return HMetric {
                    advance_width: read_u16_be(data, entry_offset),
                    left_side_bearing: read_i16_be(data, entry_offset + 2),
                };
            }
        } else if num_h_metrics > 0 {
            let last_aw_offset = offset + ((num_h_metrics - 1) as u128) * 4;
            let lsb_offset = offset + (num_h_metrics as u128) * 4 + ((glyph_id - num_h_metrics) as u128)
                * 2;
            if fits(last_aw_offset, 2, len) && fits(lsb_offset, 2, len) {
                return HMetric {
                    advance_width: read_u16_be(data, last_aw_offset),
                    left_side_bearing: read_i16_be(data, lsb_offset),
                };
            }
        }
        HMetric { advance_width: self.head.units_per_em, left_side_bearing: 0 }
    }

    /// Get the number of glyphs in the font
    pub fn num_glyphs(&self) -> (r: u16)
        ensures
            r == self.maxp_view().num_glyphs,
    {
        self.maxp.num_glyphs
    }

    /// Get units per em
    pub fn units_per_em(&self) -> (r: u16)
        ensures
            r == self.head_view().units_per_em,
    {
        self.head.units_per_em
    }
}

impl TtfFont {
    /// Get glyph outline data.
    ///
    /// An empty glyph (or an id out of range) gives an empty outline.
    /// Compound glyphs are followed `MAX_COMPONENT_DEPTH` levels deep; a
    /// component that cannot be read is left out.
    pub fn get_glyph_outline(&self, glyph_id: u16) -> (r: Result<GlyphOutline, TtfError>)
        ensures
            outline_result(r) == self.outline_spec(glyph_id, MAX_COMPONENT_DEPTH as nat),
    {
        self.outline_at_depth(glyph_id, MAX_COMPONENT_DEPTH)
    }

    fn outline_at_depth(&self, glyph_id: u16, depth: u32) -> (r: Result<GlyphOutline, TtfError>)
        ensures
            outline_result(r) == self.outline_spec(glyph_id, depth as nat),
        decreases depth, 1int,
    {
        if depth == 0 {
            return Err(TtfError::InvalidGlyph);
        }
        let data = self.data;
        let len = data.len() as u128;
        let offset = match self.get_glyph_offset(glyph_id) {
            Some(off) => off as u128,
            None => {
                let r = GlyphOutline::empty();
                assert(r.spec_model().contours =~= Seq::<Seq<GlyphPoint>>::empty());
                return Ok(r);
            },
        };
        if !fits(offset, 10, len) {
            return Err(TtfError::InvalidOffset);
        }
        let num_contours = read_i16_be(data, offset);
        let x_min = read_i16_be(data, offset + 2);
        let y_min = read_i16_be(data, offset + 4);
        let x_max = read_i16_be(data, offset + 6);
        let y_max = read_i16_be(data, offset + 8);
        if num_contours < 0 {
            return self.parse_compound_glyph(offset + 10, x_min, y_min, x_max, y_max, depth);
        }
        if num_contours == 0 {
            let r = GlyphOutline { x_min, y_min, x_max, y_max, contours: Vec::new() };
            assert(r.spec_model().contours =~= Seq::<Seq<GlyphPoint>>::empty());
            return Ok(r);
        }
        self.parse_simple_glyph(offset + 10, num_contours as u16, x_min, y_min, x_max, y_max)
    }

    /// Parse a simple glyph
    #[verifier::loop_isolation(false)]
    fn parse_simple_glyph(
        &self,
        offset: u128,
        num_contours: u16,
        x_min: i16,
        y_min: i16,
        x_max: i16,
        y_max: i16,
    ) -> (r: Result<GlyphOutline, TtfError>)
        requires
            num_contours > 0,
            offset <= self.bytes().len(),
        ensures
            outline_result(r) == simple_glyph_spec(
                self.bytes(),
                offset as int,
                num_contours as int,
                (x_min, y_min, x_max, y_max),
            ),
    {
        let ghost d = self.data@;
        let data = self.data;
        let len = data.len() as u128;
        let nc = num_contours as u128;
        // Read end points of contours
        let mut contour_ends: Vec<u16> = Vec::new();
        let mut off = offset;
        let mut k: u128 = 0;
        while k < nc
            invariant
                d == data@,
                len == d.len(),
                len <= 0xFFFF_FFFF_FFFF_FFFF,
                offset <= len,
                k <= nc,
                nc == num_contours,
                off == offset + 2 * k,
                off <= len,
                contour_ends@ =~= Seq::new(k as nat, |j: int| u16_at(d, offset + 2 * j)),
            decreases nc - k,
        {
            if !fits(off, 2, len) {
                return Err(TtfError::BufferTooSmall);
            }
            contour_ends.push(read_u16_be(data, off));
            off = off + 2;
            k = k + 1;
        }
        let ghost ends = contour_ends@;
        assert(ends_spec(d, offset as int, nc as int) == Some(ends));
        let last = contour_ends[contour_ends.len() - 1];
        let num_points = last.wrapping_add(1) as usize;
        // Skip instruction length and instructions
        if !fits(off, 2, len) {
            return Err(TtfError::BufferTooSmall);
        }
        let instruction_len = read_u16_be(data, off) as u128;
        off = off + 2 + instruction_len;
        let ghost o2 = off as int;
        // Read flags
        let mut flags: Vec<u8> = Vec::new();
        while flags.len() < num_points
            invariant
                d == data@,
                len == d.len(),
                len <= 0xFFFF_FFFF_FFFF_FFFF,
                off <= len + 0x1_0000,
                flags@.len() <= num_points,
                flags_spec(d, o2, num_points as int, Seq::empty()) == flags_spec(
                    d,
                    off as int,
                    num_points as int,
                    flags@,
                ),
            decreases num_points - flags@.len(),
        {
            if off >= len {
                return Err(TtfError::BufferTooSmall);
            }
            let flag = data[off as usize];
            off = off + 1;
            let ghost acc1 = flags@.push(flag);
            flags.push(flag);
            if (flag & 0x08) != 0 {
                if off >= len {
                    return Err(TtfError::BufferTooSmall);
                }
                let repeat = data[off as usize] as usize;
                off = off + 1;
                let mut rcount: usize = 0;
                while rcount < repeat && flags.len() < num_points
                    invariant
                        flags@ =~= acc1 + Seq::new(rcount as nat, |j: int| flag),
                        acc1.len() + rcount <= num_points,
                        rcount <= repeat,
                    decreases repeat - rcount,
                {
                    flags.push(flag);
                    rcount = rcount + 1;
                }
                proof {
                    let k = if (repeat as int) < num_points - acc1.len() {
                        repeat as int
                    } else {
                        num_points - acc1.len()
                    };
                    assert(rcount as int == k);
                }
            }
        }
        let ghost fl = flags@;
        let ghost o3 = off as int;
        assert(flags_spec(d, o2, num_points as int, Seq::empty()) == Some((fl, o3)));
        // Read x coordinates
        let mut x_coords: Vec<i16> = Vec::new();
        let mut x: i16 = 0;
        while x_coords.len() < flags.len()
            invariant
                d == data@,
                len == d.len(),
                len <= 0xFFFF_FFFF_FFFF_FFFF,
                off <= len + 0x1_0000,
                flags@ == fl,
                x_coords@.len() <= fl.len(),
                coords_spec(d, o3, fl, 2, 16, 0, Seq::empty()) == coords_spec(
                    d,
                    off as int,
                    fl,
                    2,
                    16,
                    x,
                    x_coords@,
                ),
            decreases fl.len() - x_coords@.len(),
        {
            let flag = flags[x_coords.len()];
            let x_short = (flag & 0x02) != 0;
            let x_same_or_positive = (flag & 0x10) != 0;
            if x_short {
                if off >= len {
                    return Err(TtfError::BufferTooSmall);
                }
                let dx = data[off as usize] as i16;
                off = off + 1;
                x = if x_same_or_positive {
                    x.wrapping_add(dx)
                } else {
                    x.wrapping_sub(dx)
                };
            } else if !x_same_or_positive {
                if !fits(off, 2, len) {
                    return Err(TtfError::BufferTooSmall);
                }
                x = x.wrapping_add(read_i16_be(data, off));
                off = off + 2;
            }
            x_coords.push(x);
        }
        let ghost xs = x_coords@;
        let ghost o4 = off as int;
        assert(coords_spec(d, o3, fl, 2, 16, 0, Seq::empty()) == Some((xs, o4)));
        // Read y coordinates
        let mut y_coords: Vec<i16> = Vec::new();
        let mut y: i16 = 0;
        while y_coords.len() < flags.len()
            invariant
                d == data@,
                len == d.len(),
                len <= 0xFFFF_FFFF_FFFF_FFFF,
                off <= len + 0x1_0000,
                flags@ == fl,
                y_coords@.len() <= fl.len(),
                coords_spec(d, o4, fl, 4, 32, 0, Seq::empty()) == coords_spec(
                    d,
                    off as int,
                    fl,
                    4,
                    32,
                    y,
                    y_coords@,
                ),
            decreases fl.len() - y_coords@.len(),
        {
            let flag = flags[y_coords.len()];
            let y_short = (flag & 0x04) != 0;
            let y_same_or_positive = (flag & 0x20) != 0;
            if y_short {
                if off >= len {
                    return Err(TtfError::BufferTooSmall);
                }
                let dy = data[off as usize] as i16;
                off = off + 1;
                y = if y_same_or_positive {
                    y.wrapping_add(dy)
                } else {
                    y.wrapping_sub(dy)
                };
            } else if !y_same_or_positive {
                if !fits(off, 2, len) {
                    return Err(TtfError::BufferTooSmall);
                }
                y = y.wrapping_add(read_i16_be(data, off));
                off = off + 2;
            }
            y_coords.push(y);
        }
        let ghost ys = y_coords@;
        assert(coords_spec(d, o4, fl, 4, 32, 0, Seq::empty()) == Some((ys, off as int)));
        // Build contours
        let mut contours: Vec<Vec<GlyphPoint>> = Vec::new();
        let mut start_idx: usize = 0;
        let mut ci: usize = 0;
        while ci < contour_ends.len()
            invariant
                contour_ends@ == ends,
                ends.len() == nc,
                flags@ == fl,
                x_coords@ == xs,
                y_coords@ == ys,
                xs.len() == fl.len(),
                ys.len() == fl.len(),
                ci <= ends.len(),
                ci == 0 ==> start_idx == 0,
                ci > 0 ==> start_idx == ends[ci - 1] as int + 1,
                contours@.len() == ci,
                forall|k: int|
                    0 <= k < ci ==> (#[trigger] contours@[k])@ == contour_spec(ends, k, fl, xs, ys),
            decreases ends.len() - ci,
        {
            let end = contour_ends[ci] as usize;
            let mut contour: Vec<GlyphPoint> = Vec::new();
            let mut i = start_idx;
            while i <= end && i < flags.len()
                invariant
                    flags@ == fl,
                    x_coords@ == xs,
                    y_coords@ == ys,
                    xs.len() == fl.len(),
                    ys.len() == fl.len(),
                    i == start_idx || (i <= end + 1 && i <= fl.len()),
                    i >= start_idx,
                    contour@.len() == i - start_idx,
                    forall|j: int|
                        0 <= j < contour@.len() ==> #[trigger] contour@[j] == (GlyphPoint {
                            x: xs[start_idx + j],
                            y: ys[start_idx + j],
                            on_curve: fl[start_idx + j] & 1 != 0,
                        }),
                decreases fl.len() - i,
            {
                contour.push(
                    GlyphPoint { x: x_coords[i], y: y_coords[i], on_curve: (flags[i] & 0x01) != 0 },
                );
                i = i + 1;
            }
            assert(contour@ =~= contour_spec(ends, ci as int, fl, xs, ys));
            contours.push(contour);
            start_idx = end + 1;
            ci = ci + 1;
        }
        let r = GlyphOutline { x_min, y_min, x_max, y_max, contours };
        assert(contours_view(r.contours@) =~= Seq::new(
            nc as nat,
            |k: int| contour_spec(ends, k, fl, xs, ys),
        ));
        Ok(r)
    }

    /// Parse a compound glyph (composed of other glyphs moved by an offset;
    /// scale and transformation data are skipped).
    #[verifier::loop_isolation(false)]
    fn parse_compound_glyph(
        &self,
        offset: u128,
        x_min: i16,
        y_min: i16,
        x_max: i16,
        y_max: i16,
        depth: u32,
    ) -> (r: Result<GlyphOutline, TtfError>)
        requires
            depth > 0,
        ensures
            outline_result(r) == self.compound_spec(
                offset as int,
                depth as nat,
                OutlineSpec { x_min, y_min, x_max, y_max, contours: Seq::empty() },
            ),
        decreases depth, 0int,
    {
        let data = self.data;
        let len = data.len() as u128;
        let mut combined = GlyphOutline { x_min, y_min, x_max, y_max, contours: Vec::new() };
        let mut off = offset;
        if !fits(off, 4, len) {
            return Err(TtfError::BufferTooSmall);
        }
        assert(combined.spec_model().contours =~= Seq::<Seq<GlyphPoint>>::empty());
        loop
            invariant
                len == self.bytes().len(),
                len <= 0xFFFF_FFFF_FFFF_FFFF,
                off + 4 <= len,
                depth > 0,
                self.compound_spec(
                    offset as int,
                    depth as nat,
                    OutlineSpec { x_min, y_min, x_max, y_max, contours: Seq::empty() },
                ) == self.compound_spec(off as int, depth as nat, combined.spec_model()),
            decreases len - off,
        {
            let flags = read_u16_be(data, off);
            let glyph_index = read_u16_be(data, off + 2);
            off = off + 4;
            let has_more = (flags & 0x0020) != 0;
            let dx: i16;
            let dy: i16;
            if (flags & 0x0001) != 0 {
                if !fits(off, 4, len) {
                    return Err(TtfError::BufferTooSmall);
                }
                dx = read_i16_be(data, off);
                dy = read_i16_be(data, off + 2);
                off = off + 4;
            } else {
                if !fits(off, 2, len) {
                    return Err(TtfError::BufferTooSmall);
                }
                dx = data[off as usize] as i8 as i16;
                dy = data[off as usize + 1] as i8 as i16;
                off = off + 2;
            }
            if (flags & 0x0008) != 0 {
                off = off + 2;
            } else if (flags & 0x0040) != 0 {
                off = off + 4;
            } else if (flags & 0x0080) != 0 {
                off = off + 8;
            }
            let ghost before = combined.spec_model();
            match self.outline_at_depth(glyph_index, depth - 1) {
                Ok(component) => {
                    let ghost comp = component.spec_model();
                    let mut ci: usize = 0;
                    while ci < component.contours.len()
                        invariant
                            comp == component.spec_model(),
                            ci <= comp.contours.len(),
                            combined.x_min == before.x_min && combined.y_min == before.y_min
                                && combined.x_max == before.x_max && combined.y_max
                                == before.y_max,
                            contours_view(combined.contours@) =~= before.contours + Seq::new(
                                ci as nat,
                                |i: int| shift_contour(comp.contours[i], dx, dy),
                            ),
                        decreases comp.contours.len() - ci,
                    {
                        let contour = &component.contours[ci];
                        let mut transformed: Vec<GlyphPoint> = Vec::new();
                        let mut pi: usize = 0;
                        while pi < contour.len()
                            invariant
                                contour@ == comp.contours[ci as int],
                                pi <= contour@.len(),
                                transformed@ =~= shift_contour(contour@, dx, dy).subrange(
                                    0,
                                    pi as int,
                                ),
                            decreases contour@.len() - pi,
                        {
                            let p = contour[pi];
                            transformed.push(
                                GlyphPoint {
                                    x: sat_add(p.x, dx),
                                    y: sat_add(p.y, dy),
                                    on_curve: p.on_curve,
                                },
                            );
                            pi = pi + 1;
                        }
                        assert(transformed@ =~= shift_contour(comp.contours[ci as int], dx, dy));
                        let ghost prev = combined.contours@;
                        combined.contours.push(transformed);
                        assert(contours_view(combined.contours@) =~= contours_view(prev).push(
                            shift_contour(comp.contours[ci as int], dx, dy),
                        ));
                        ci = ci + 1;
                    }
                },
                Err(_) => {},
            }
            if !has_more {
                return Ok(combined);
            }
            if !fits(off, 4, len) {
                return Err(TtfError::BufferTooSmall);
            }
        }
    }
}

} // verus!
