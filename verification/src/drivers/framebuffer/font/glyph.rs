//! Glyph bitmaps and the glyph cache
//!
//! A glyph bitmap is a grayscale image stored row by row.  The cache
//! keeps rendered glyphs by code point and size, at most
//! `MAX_CACHED_GLYPHS` of them, and evicts the least recently used first.

use vstd::prelude::*;
use vstd::arithmetic::div_mod::lemma_fundamental_div_mod_converse;

verus! {

/// Maximum number of cached glyphs
pub const MAX_CACHED_GLYPHS: usize = 512;

/// Rendered glyph bitmap
pub struct GlyphBitmap {
    /// Width in pixels
    pub width: u16,
    /// Height in pixels
    pub height: u16,
    /// Left bearing (offset from cursor)
    pub bearing_x: i16,
    /// Top bearing (offset from baseline)
    pub bearing_y: i16,
    /// Advance width for cursor positioning
    pub advance: u16,
    /// Grayscale bitmap data (0-255, row-major)
    pub data: Vec<u8>,
}

/// What a glyph bitmap holds.
pub struct GlyphView {
    pub width: u16,
    pub height: u16,
    pub bearing_x: i16,
    pub bearing_y: i16,
    pub advance: u16,
    pub data: Seq<u8>,
}

/// Width of the placeholder glyph of a size: half the size, at least 8.
pub open spec fn placeholder_width(size: int) -> int {
    if size / 2 >= 8 {
        size / 2
    } else {
        8
    }
}

/// The column of the placeholder's descending diagonal in row `y`.
pub open spec fn cross_x1(w: int, h: int, y: int) -> int {
    ((y - h / 4) * (w - 4)) / (h * 3 / 4 - h / 4) + 2
}

/// The column of the placeholder's ascending diagonal in row `y`.
pub open spec fn cross_x2(w: int, h: int, y: int) -> int {
    w - 1 - cross_x1(w, h, y)
}

/// Pixel (x, y) of the placeholder box: its outline at 255, a cross at 200
/// over the rows between a quarter and three quarters of the height
/// (drawn over the outline), 0 elsewhere.
pub open spec fn placeholder_pixel(w: int, h: int, x: int, y: int) -> u8 {
    if h / 4 <= y < h * 3 / 4 && (x == cross_x1(w, h, y) || x == cross_x2(w, h, y)) {
        200
    } else if y == 0 || y == h - 1 || x == 0 || x == w - 1 {
        255
    } else {
        0
    }
}

/// Pixel (x, y) of a bitmap `w` pixels wide.
pub open spec fn pix(data: Seq<u8>, w: int, x: int, y: int) -> u8 {
    data[y * w + x]
}

/// Pixel (x, y) of a `w` x `h` image sits at `y * w + x`, and no other
/// pixel does.
proof fn lemma_pixel_index(w: int, h: int, x: int, y: int, x0: int, y0: int)
    requires
        0 <= x < w,
        0 <= y < h,
        0 <= x0 < w,
        0 <= y0 < h,
    ensures
        0 <= y * w + x < w * h,
        y * w + x == y0 * w + x0 <==> (x == x0 && y == y0),
{
    assert(0 <= y * w + x < w * h) by (nonlinear_arith)
        requires
            0 <= x < w,
            0 <= y < h,
    ;
    if y * w + x == y0 * w + x0 {
        lemma_fundamental_div_mod_converse(y * w + x, w, y, x);
        lemma_fundamental_div_mod_converse(y * w + x, w, y0, x0);
    }
}

/// The diagonal columns lie inside the box, two pixels from its sides.
proof fn lemma_cross_inside(w: int, h: int, y: int)
    requires
        w >= 8,
        h / 4 <= y < h * 3 / 4,
    ensures
        2 <= cross_x1(w, h, y) <= w - 3,
        2 <= cross_x2(w, h, y) <= w - 3,
{
    let n = h * 3 / 4 - h / 4;
    let i = y - h / 4;
    let t = i * (w - 4);
    let q = t / n;
    assert(0 <= i < n);
    assert(0 <= t < n * (w - 4)) by (nonlinear_arith)
        requires
            0 <= i < n,
            w >= 8,
            t == i * (w - 4),
    ;
    vstd::arithmetic::div_mod::lemma_fundamental_div_mod(t, n);
    assert(0 <= q < w - 4) by (nonlinear_arith)
        requires
            n > 0,
            t == n * q + t % n,
            0 <= t % n < n,
            0 <= t < n * (w - 4),
    ;
}

impl GlyphBitmap {
    pub open spec fn view(&self) -> GlyphView {
        GlyphView {
            width: self.width,
            height: self.height,
            bearing_x: self.bearing_x,
            bearing_y: self.bearing_y,
            advance: self.advance,
            data: self.data@,
        }
    }

    /// Create an empty glyph bitmap (for space characters etc.)
    pub fn empty(advance: u16) -> (r: Self)
        ensures
            r.width == 0 && r.height == 0 && r.bearing_x == 0 && r.bearing_y == 0,
            r.advance == advance,
            r.data@.len() == 0,
    {
        GlyphBitmap { width: 0, height: 0, bearing_x: 0, bearing_y: 0, advance, data: Vec::new() }
    }

    /// A copy of the bitmap.
    pub fn copy(&self) -> (r: Self)
        ensures
            r.view() == self.view(),
    {
        GlyphBitmap {
            width: self.width,
            height: self.height,
            bearing_x: self.bearing_x,
            bearing_y: self.bearing_y,
            advance: self.advance,
            data: self.data.clone(),
        }
    }

    /// Create a placeholder glyph (for missing characters): a box with a
    /// cross, `placeholder_width(size)` wide and `size` high.
    pub fn placeholder(size: u16) -> (r: Self)
        requires
            size > 0,
        ensures
            r.width == placeholder_width(size as int),
            r.height == size,
            r.bearing_x == 0,
            r.bearing_y == size as i16,
            r.advance == r.width,
            r.data@.len() == r.width * r.height,
            forall|x: int, y: int|
                0 <= x < r.width && 0 <= y < r.height ==> #[trigger] pix(r.data@, r.width as int, x, y)
                    == placeholder_pixel(r.width as int, r.height as int, x, y),
    {
        let width: u16 = if size / 2 >= 8 {
            size / 2
        } else {
            8
        };
        let height = size;
        let w = width as usize;
        let h = height as usize;
        assert(w * h <= 65535 * 65535) by (nonlinear_arith)
            requires
                w <= 65535,
                h <= 65535,
        ;
        let total = w * h;
        let mut data: Vec<u8> = Vec::new();
        let mut k: usize = 0;
        while k < total
            invariant
                k <= total,
                data@.len() == k,
                forall|j: int| 0 <= j < k ==> data@[j] == 0,
            decreases total - k,
        {
            data.push(0);
            k = k + 1;
        }
        proof {
            assert forall|px: int, py: int| 0 <= px < w && 0 <= py < h implies #[trigger] pix(data@, w as int, px, py) == 0u8 by {
                lemma_pixel_index(w as int, h as int, px, py, 0, 0);
            }
        }
        // Top and bottom edges.
        let mut x: usize = 0;
        while x < w
            invariant
                x <= w,
                w >= 8,
                h >= 1,
                total == w * h,
                data@.len() == total,
                forall|px: int, py: int|
                    0 <= px < w && 0 <= py < h ==> #[trigger] pix(data@, w as int, px, py) == if (py
                        == 0 || py == h - 1) && px < x {
                        255u8
                    } else {
                        0u8
                    },
            decreases w - x,
        {
            proof {
                lemma_pixel_index(w as int, h as int, x as int, 0, 0, 0);
                lemma_pixel_index(w as int, h as int, x as int, h - 1, 0, 0);
            }
            let ghost before = data@;
            data.set(x, 255);
            data.set((h - 1) * w + x, 255);
            proof {
                assert forall|px: int, py: int| 0 <= px < w && 0 <= py < h implies #[trigger] pix(data@, w as int, px, py)
                    == if (py == 0 || py == h - 1) && px < x + 1 { 255u8 } else { 0u8 } by {
                    lemma_pixel_index(w as int, h as int, px, py, x as int, 0);
                    lemma_pixel_index(w as int, h as int, px, py, x as int, h - 1);
                    assert(pix(before, w as int, px, py) == if (py == 0 || py == h - 1) && px < x { 255u8 } else { 0u8 });
                }
            }
            x = x + 1;
        }
        // Left and right edges.
        let mut y: usize = 0;
        while y < h
            invariant
                y <= h,
                w >= 8,
                h >= 1,
                total == w * h,
                data@.len() == total,
                forall|px: int, py: int|
                    0 <= px < w && 0 <= py < h ==> #[trigger] pix(data@, w as int, px, py) == if py
                        == 0 || py == h - 1 || ((px == 0 || px == w - 1) && py < y) {
                        255u8
                    } else {
                        0u8
                    },
            decreases h - y,
        {
            proof {
                lemma_pixel_index(w as int, h as int, 0, y as int, 0, 0);
                lemma_pixel_index(w as int, h as int, w - 1, y as int, 0, 0);
            }
            let ghost before = data@;
            data.set(y * w, 255);
            data.set(y * w + w - 1, 255);
            proof {
                assert forall|px: int, py: int| 0 <= px < w && 0 <= py < h implies #[trigger] pix(data@, w as int, px, py)
                    == if py == 0 || py == h - 1 || ((px == 0 || px == w - 1) && py < y + 1) { 255u8 } else { 0u8 } by {
                    lemma_pixel_index(w as int, h as int, px, py, 0, y as int);
                    lemma_pixel_index(w as int, h as int, px, py, w - 1, y as int);
                    assert(pix(before, w as int, px, py) == if py == 0 || py == h - 1 || ((px == 0 || px == w - 1) && py < y) { 255u8 } else { 0u8 });
                }
            }
            y = y + 1;
        }
        // The cross.
        let mid_start = h / 4;
        let mid_end = h * 3 / 4;
        let n = mid_end - mid_start;
        let mut i: usize = 0;
        while i < n
            invariant
                i <= n,
                n == mid_end - mid_start,
                mid_start == h / 4,
                mid_end == h * 3 / 4,
                w >= 8,
                h >= 1,
                w == placeholder_width(size as int),
                h == size,
                total == w * h,
                data@.len() == total,
                forall|px: int, py: int|
                    0 <= px < w && 0 <= py < h ==> #[trigger] pix(data@, w as int, px, py) == if mid_start
                        <= py < mid_start + i && (px == cross_x1(w as int, h as int, py) || px
                        == cross_x2(w as int, h as int, py)) {
                        200u8
                    } else if py == 0 || py == h - 1 || px == 0 || px == w - 1 {
                        255u8
                    } else {
                        0u8
                    },
            decreases n - i,
        {
            let yy = mid_start + i;
            proof {
                lemma_cross_inside(w as int, h as int, yy as int);
                assert(i * (w - 4) <= n * w) by (nonlinear_arith)
                    requires
                        i < n,
                        w >= 8,
                ;
                assert(n * w <= total) by (nonlinear_arith)
                    requires
                        n <= h,
                        total == w * h,
                ;
            }
            let x1 = (i * (w - 4)) / n + 2;
            assert(x1 == cross_x1(w as int, h as int, yy as int));
            let x2 = w - 3 - x1 + 2;
            let ghost before = data@;
            proof {
                lemma_pixel_index(w as int, h as int, x1 as int, yy as int, 0, 0);
                lemma_pixel_index(w as int, h as int, x2 as int, yy as int, 0, 0);
            }
            if yy < h && x1 < w {
                data.set(yy * w + x1, 200);
            }
            let ghost mid = data@;
            if yy < h && x2 < w {
                data.set(yy * w + x2, 200);
            }
            proof {
                assert forall|px: int, py: int| 0 <= px < w && 0 <= py < h implies #[trigger] pix(data@, w as int, px, py)
                    == if mid_start <= py < mid_start + i + 1 && (px == cross_x1(w as int, h as int, py) || px
                    == cross_x2(w as int, h as int, py)) { 200u8 } else if py == 0 || py == h - 1 || px == 0 || px == w - 1 { 255u8 } else { 0u8 } by {
                    lemma_pixel_index(w as int, h as int, px, py, x1 as int, yy as int);
                    lemma_pixel_index(w as int, h as int, px, py, x2 as int, yy as int);
                    assert(pix(before, w as int, px, py) == if mid_start <= py < mid_start + i && (px == cross_x1(w as int, h as int, py) || px
                        == cross_x2(w as int, h as int, py)) { 200u8 } else if py == 0 || py == h - 1 || px == 0 || px == w - 1 { 255u8 } else { 0u8 });
                }
            }
            i = i + 1;
        }
        GlyphBitmap { width, height, bearing_x: 0, bearing_y: height as i16, advance: width, data }
    }

    /// Get pixel value at (x, y); 0 outside the bitmap.
    pub fn get_pixel(&self, x: u16, y: u16) -> (r: u8)
        requires
            self.data@.len() == self.width * self.height,
        ensures
            r == (if x < self.width && y < self.height {
                pix(self.data@, self.width as int, x as int, y as int)
            } else {
                0
            }),
    {
        if x >= self.width || y >= self.height {
            return 0;
        }
        proof {
            lemma_pixel_index(self.width as int, self.height as int, x as int, y as int, 0, 0);
        }
        let n = self.data.len();
        self.data[(y as usize) * (self.width as usize) + (x as usize)]
    }
}

/// A cache key: code point and size.
pub type GlyphKey = (u32, u16);

/// A cached glyph.
pub struct CacheEntry {
    pub codepoint: u32,
    pub size: u16,
    pub glyph: GlyphBitmap,
}

pub open spec fn entry_key(e: CacheEntry) -> GlyphKey {
    (e.codepoint, e.size)
}

/// Index of the entry for `k` among the first `n`.
pub open spec fn find_key(entries: Seq<CacheEntry>, k: GlyphKey, n: int) -> Option<int>
    decreases n,
{
    if n <= 0 {
        None
    } else if entry_key(entries[n - 1]) == k {
        Some(n - 1)
    } else {
        find_key(entries, k, n - 1)
    }
}

/// The glyph cached for `k`.
pub open spec fn lookup(entries: Seq<CacheEntry>, k: GlyphKey) -> Option<GlyphView> {
    match find_key(entries, k, entries.len() as int) {
        Some(i) => Some(entries[i].glyph.view()),
        None => None,
    }
}

/// `entries` without the entry for `k`.
pub open spec fn remove_key(entries: Seq<CacheEntry>, k: GlyphKey) -> Seq<CacheEntry> {
    match find_key(entries, k, entries.len() as int) {
        Some(i) => entries.remove(i),
        None => entries,
    }
}

/// `order` without any occurrence of `k`.
pub open spec fn without(order: Seq<GlyphKey>, k: GlyphKey) -> Seq<GlyphKey>
    decreases order.len(),
{
    if order.len() == 0 {
        order
    } else if order.last() == k {
        without(order.drop_last(), k)
    } else {
        without(order.drop_last(), k).push(order.last())
    }
}

/// Evict the least recently used glyphs while the cache is full.
pub open spec fn evicted(entries: Seq<CacheEntry>, order: Seq<GlyphKey>) -> (Seq<CacheEntry>, Seq<GlyphKey>)
    decreases order.len(),
{
    if entries.len() >= MAX_CACHED_GLYPHS && order.len() > 0 {
        evicted(remove_key(entries, order[0]), order.drop_first())
    } else {
        (entries, order)
    }
}

/// No key is cached twice, every cached key is in the access order, and
/// the cache holds at most `MAX_CACHED_GLYPHS` glyphs.
pub open spec fn cache_wf(entries: Seq<CacheEntry>, order: Seq<GlyphKey>) -> bool {
    &&& entries.len() <= MAX_CACHED_GLYPHS
    &&& forall|i: int, j: int| 0 <= i < j < entries.len() ==> entry_key(entries[i]) != entry_key(entries[j])
    &&& forall|i: int| 0 <= i < entries.len() ==> order.contains(#[trigger] entry_key(entries[i]))
}

/// Glyph cache with least-recently-used eviction
pub struct GlyphCache {
    entries: Vec<CacheEntry>,
    access_order: Vec<GlyphKey>,
}

/// Finding a key among the entries finds it.
proof fn lemma_find_key(entries: Seq<CacheEntry>, k: GlyphKey, n: int)
    requires
        0 <= n <= entries.len(),
    ensures
        find_key(entries, k, n) matches Some(i) ==> 0 <= i < n && entry_key(entries[i]) == k,
        find_key(entries, k, n) is None ==> forall|i: int| 0 <= i < n ==> entry_key(entries[i]) != k,
    decreases n,
{
    if n > 0 {
        lemma_find_key(entries, k, n - 1);
    }
}

/// The search only looks at keys.
proof fn lemma_find_same_keys(a: Seq<CacheEntry>, b: Seq<CacheEntry>, k: GlyphKey, n: int)
    requires
        0 <= n <= a.len(),
        n <= b.len(),
        forall|i: int| 0 <= i < n ==> entry_key(#[trigger] a[i]) == entry_key(b[i]),
    ensures
        find_key(a, k, n) == find_key(b, k, n),
    decreases n,
{
    if n > 0 {
        lemma_find_same_keys(a, b, k, n - 1);
    }
}

/// What `without` keeps.
proof fn lemma_without(order: Seq<GlyphKey>, k: GlyphKey)
    ensures
        !without(order, k).contains(k),
        forall|x: GlyphKey| x != k && order.contains(x) ==> without(order, k).contains(x),
    decreases order.len(),
{
    if order.len() > 0 {
        lemma_without(order.drop_last(), k);
        assert forall|x: GlyphKey| x != k && order.contains(x) implies without(order, k).contains(x) by {
            let i = choose|i: int| 0 <= i < order.len() && order[i] == x;
            if i < order.len() - 1 {
                assert(order.drop_last()[i] == x);
                assert(order.drop_last().contains(x));
                let w0 = without(order.drop_last(), k);
                assert(w0.contains(x));
                let p = choose|p: int| 0 <= p < w0.len() && w0[p] == x;
                assert(without(order, k)[p] == x);
            } else {
                let w = without(order, k);
                assert(w[w.len() - 1] == x);
            }
        }
    }
}

/// Removing a key from well-formed entries keeps the others.
proof fn lemma_remove_key(entries: Seq<CacheEntry>, order: Seq<GlyphKey>, k: GlyphKey)
    requires
        cache_wf(entries, order),
        order.len() > 0,
        k == order[0],
    ensures
        cache_wf(remove_key(entries, k), order.drop_first()),
        remove_key(entries, k).len() <= entries.len(),
        entries.len() > 0 ==> remove_key(entries, k).len() < entries.len() || find_key(entries, k, entries.len() as int) is None,
{
    lemma_find_key(entries, k, entries.len() as int);
    let r = remove_key(entries, k);
    assert forall|i: int| 0 <= i < r.len() implies order.drop_first().contains(#[trigger] entry_key(r[i])) by {
        let j = if find_key(entries, k, entries.len() as int) matches Some(f) && i >= f { i + 1 } else { i };
        assert(r[i] == entries[j]);
        assert(order.contains(entry_key(entries[j])));
        assert(entry_key(entries[j]) != k);
        let p = choose|p: int| 0 <= p < order.len() && order[p] == entry_key(entries[j]);
        assert(p != 0);
        assert(order.drop_first()[p - 1] == entry_key(entries[j]));
    }
    assert forall|i: int, j: int| 0 <= i < j < r.len() implies entry_key(r[i]) != entry_key(r[j]) by {
        let f = find_key(entries, k, entries.len() as int);
        let ii = if f matches Some(x) && i >= x { i + 1 } else { i };
        let jj = if f matches Some(x) && j >= x { j + 1 } else { j };
        assert(r[i] == entries[ii] && r[j] == entries[jj]);
    }
}

/// Eviction leaves room for one more glyph and keeps the cache well formed.
proof fn lemma_evicted(entries: Seq<CacheEntry>, order: Seq<GlyphKey>)
    requires
        cache_wf(entries, order),
    ensures
        cache_wf(evicted(entries, order).0, evicted(entries, order).1),
        evicted(entries, order).0.len() < MAX_CACHED_GLYPHS,
    decreases order.len(),
{
    if entries.len() >= MAX_CACHED_GLYPHS && order.len() > 0 {
        lemma_remove_key(entries, order, order[0]);
        lemma_evicted(remove_key(entries, order[0]), order.drop_first());
    } else if entries.len() >= MAX_CACHED_GLYPHS {
        assert(order.contains(entry_key(entries[0])));
    }
}

impl GlyphCache {
    pub closed spec fn entries(&self) -> Seq<CacheEntry> {
        self.entries@
    }

    pub closed spec fn order(&self) -> Seq<GlyphKey> {
        self.access_order@
    }

    pub closed spec fn wf(&self) -> bool {
        cache_wf(self.entries@, self.access_order@)
    }

    /// Create a new glyph cache
    pub fn new() -> (r: Self)
        ensures
            r.wf(),
            r.entries().len() == 0,
            r.order().len() == 0,
    {
        GlyphCache { entries: Vec::new(), access_order: Vec::new() }
    }

    fn find(&self, k: GlyphKey) -> (r: Option<usize>)
        ensures
            r matches Some(i) ==> find_key(self.entries@, k, self.entries@.len() as int) == Some(i as int)
                && i < self.entries@.len(),
            r is None ==> find_key(self.entries@, k, self.entries@.len() as int) is None,
    {
        let mut n = self.entries.len();
        while n > 0
            invariant
                n <= self.entries@.len(),
                find_key(self.entries@, k, self.entries@.len() as int) == find_key(self.entries@, k, n as int),
            decreases n,
        {
            let e = &self.entries[n - 1];
            if e.codepoint == k.0 && e.size == k.1 {
                return Some(n - 1);
            }
            n = n - 1;
        }
        None
    }

    /// Get a cached glyph, and mark it most recently used.
    pub fn get(&mut self, codepoint: u32, size: u16) -> (r: Option<&GlyphBitmap>)
        requires
            old(self).wf(),
        ensures
            final(self).wf(),
            final(self).entries() == old(self).entries(),
            match r {
                Some(g) => lookup(old(self).entries(), (codepoint, size)) == Some(g.view())
                    && final(self).order() == without(old(self).order(), (codepoint, size)).push((codepoint, size)),
                None => lookup(old(self).entries(), (codepoint, size)) is None && final(self).order() == old(self).order(),
            },
    {
        let key: GlyphKey = (codepoint, size);
        match self.find(key) {
            None => None,
            Some(i) => {
                let ghost old_order = self.access_order@;
                let mut kept: Vec<GlyphKey> = Vec::new();
                let mut j: usize = 0;
                while j < self.access_order.len()
                    invariant
                        j <= self.access_order@.len(),
                        self.access_order@ == old_order,
                        kept@ == without(old_order.take(j as int), key),
                    decreases self.access_order@.len() - j,
                {
                    let x = self.access_order[j];
                    assert(old_order.take(j + 1).drop_last() =~= old_order.take(j as int));
                    if !(x.0 == key.0 && x.1 == key.1) {
                        kept.push(x);
                    }
                    j = j + 1;
                }
                assert(old_order.take(j as int) =~= old_order);
                kept.push(key);
                proof {
                    lemma_without(old_order, key);
                    assert forall|m: int| 0 <= m < self.entries@.len() implies kept@.contains(#[trigger] entry_key(self.entries@[m])) by {
                        assert(old_order.contains(entry_key(self.entries@[m])));
                        if entry_key(self.entries@[m]) == key {
                            assert(kept@[kept@.len() - 1] == key);
                        } else {
                            let p = choose|p: int| 0 <= p < without(old_order, key).len() && without(old_order, key)[p] == entry_key(self.entries@[m]);
                            assert(kept@[p] == entry_key(self.entries@[m]));
                        }
                    }
                }
                self.access_order = kept;
                Some(&self.entries[i].glyph)
            },
        }
    }

    /// Insert a glyph into the cache, first evicting the least recently
    /// used glyphs while the cache is full.
    pub fn insert(&mut self, codepoint: u32, size: u16, glyph: GlyphBitmap)
        requires
            old(self).wf(),
        ensures
            final(self).wf(),
            lookup(final(self).entries(), (codepoint, size)) == Some(glyph.view()),
            ({
                let (e, o) = evicted(old(self).entries(), old(self).order());
                &&& final(self).order() == o.push((codepoint, size))
                &&& forall|k: GlyphKey| k != (codepoint, size) ==> lookup(final(self).entries(), k) == lookup(e, k)
            }),
    {
        let key: GlyphKey = (codepoint, size);
        let ghost target = evicted(self.entries@, self.access_order@);
        proof {
            lemma_evicted(self.entries@, self.access_order@);
        }
        while self.entries.len() >= MAX_CACHED_GLYPHS && self.access_order.len() > 0
            invariant
                cache_wf(self.entries@, self.access_order@),
                evicted(self.entries@, self.access_order@) == target,
            decreases self.access_order@.len(),
        {
            let ghost e0 = self.entries@;
            let ghost o0 = self.access_order@;
            let oldest = self.access_order.remove(0);
            proof {
                lemma_remove_key(e0, o0, oldest);
                assert(o0.drop_first() =~= self.access_order@);
            }
            match self.find(oldest) {
                Some(i) => {
                    self.entries.remove(i);
                },
                None => {},
            }
            assert(self.entries@ == remove_key(e0, oldest));
        }
        let ghost e = self.entries@;
        let ghost n = e.len() as int;
        proof {
            lemma_find_key(e, key, n);
        }
        match self.find(key) {
            Some(i) => {
                self.entries.set(i, CacheEntry { codepoint, size, glyph });
                proof {
                    let b = self.entries@;
                    assert forall|j: int| 0 <= j < n implies entry_key(#[trigger] b[j]) == entry_key(e[j]) by {}
                    assert forall|k: GlyphKey| true implies find_key(b, k, n) == find_key(e, k, n) by {
                        lemma_find_same_keys(b, e, k, n);
                    }
                    lemma_find_key(b, key, n);
                    assert forall|k: GlyphKey| k != key implies lookup(b, k) == lookup(e, k) by {
                        lemma_find_key(e, k, n);
                    }
                }
            },
            None => {
                self.entries.push(CacheEntry { codepoint, size, glyph });
                proof {
                    let b = self.entries@;
                    assert forall|k: GlyphKey| k != key implies lookup(b, k) == lookup(e, k) by {
                        assert(find_key(b, k, n + 1) == find_key(b, k, n));
                        lemma_find_same_keys(b, e, k, n);
                        lemma_find_key(e, k, n);
                    }
                    assert forall|x: int, y: int| 0 <= x < y < b.len() implies entry_key(b[x]) != entry_key(b[y]) by {
                        if y == n {
                            assert(entry_key(e[x]) != key);
                        }
                    }
                }
            },
        }
        let ghost before_push = self.access_order@;
        self.access_order.push(key);
        proof {
            let b = self.entries@;
            assert forall|m: int| 0 <= m < b.len() implies self.access_order@.contains(#[trigger] entry_key(b[m])) by {
                if entry_key(b[m]) == key {
                    assert(self.access_order@[self.access_order@.len() - 1] == key);
                } else {
                    lemma_find_key(b, entry_key(b[m]), b.len() as int);
                    lemma_find_key(e, entry_key(b[m]), n);
                    let j = find_key(e, entry_key(b[m]), n)->0;
                    assert(before_push.contains(entry_key(e[j])));
                    let p = choose|p: int| 0 <= p < before_push.len() && before_push[p] == entry_key(e[j]);
                    assert(self.access_order@[p] == entry_key(e[j]));
                }
            }
        }
    }

    /// Check if a glyph is cached
    pub fn contains(&self, codepoint: u32, size: u16) -> (r: bool)
        ensures
            r == lookup(self.entries(), (codepoint, size)) is Some,
    {
        self.find((codepoint, size)).is_some()
    }

    /// Clear the cache
    pub fn clear(&mut self)
        ensures
            final(self).wf(),
            final(self).entries().len() == 0,
            final(self).order().len() == 0,
    {
        self.entries = Vec::new();
        self.access_order = Vec::new();
    }

    /// Number of cached glyphs
    pub fn len(&self) -> (r: usize)
        ensures
            r == self.entries().len(),
    {
        self.entries.len()
    }

    /// Check if cache is empty
    pub fn is_empty(&self) -> (r: bool)
        ensures
            r == (self.entries().len() == 0),
    {
        self.entries.len() == 0
    }
}

} // verus!
