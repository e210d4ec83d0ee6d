//! Font manager
//!
//! Keeps the loaded fonts in priority order, picks the font that renders
//! a character, and caches rendered glyphs.  Reading font files and
//! rasterizing outlines (in floating point) happen in the kernel around
//! it.

use vstd::prelude::*;
use super::config::{FontConfig, alias_index, has_part, has_part_exec, bytes_equal, strs};
use super::glyph::{GlyphBitmap, GlyphCache, GlyphView, lookup};
use super::ttf::{TtfError, TtfFont, cmap_lookup, outline_result, parse_check};

verus! {

/// Maximum number of fonts a directory scan loads
pub const MAX_LOADED_FONTS: usize = 4;

/// Default font size in pixels
pub const DEFAULT_FONT_SIZE: u16 = 16;

/// Font manager errors
#[derive(Debug, Clone, Copy, PartialEq, Eq, Structural)]
pub enum FontManagerError {
    /// No fonts found
    NoFontsFound,
    /// Failed to load font file
    LoadFailed,
    /// Failed to parse font
    ParseFailed(TtfError),
}

/// A loaded font with its metadata
pub struct LoadedFont {
    /// Font name (from the file name)
    pub name: Vec<u8>,
    /// Parsed font data
    pub font: TtfFont,
    /// Priority (lower = higher priority)
    pub priority: u8,
}

/// `new` holds the fonts of `old` ordered by priority, fonts of equal
/// priority in their old order.
pub open spec fn stable_by_priority(old: Seq<LoadedFont>, new: Seq<LoadedFont>) -> bool {
    exists|p: Seq<int>|
        #![trigger p.len()]
        {
            &&& p.len() == old.len() && new.len() == old.len()
            &&& forall|i: int| 0 <= i < p.len() ==> 0 <= #[trigger] p[i] < old.len()
            &&& forall|i: int, j: int| 0 <= i < j < p.len() ==> p[i] != p[j]
            &&& forall|i: int| 0 <= i < new.len() ==> #[trigger] new[i] == old[p[i]]
            &&& forall|i: int, j: int|
                0 <= i < j < new.len() ==> new[i].priority < new[j].priority || (new[i].priority
                    == new[j].priority && p[i] < p[j])
        }
}

/// `<[T]>::sort_by_key` on the fonts' priorities.
///
/// Trusted: std documents `sort_by_key` as a stable sort by the key, so
/// the fonts end up a permutation of themselves ordered by priority,
/// equal priorities in their old order; `stable_by_priority` says so.
#[verifier::external_body]
fn sort_by_priority(fonts: &mut Vec<LoadedFont>)
    ensures
        stable_by_priority(old(fonts)@, final(fonts)@),
{
    fonts.sort_by_key(|f| f.priority)
}

/// The file name in a path: what follows its last `/`.
pub open spec fn base_name(path: Seq<u8>) -> Seq<u8>
    decreases path.len(),
{
    if path.len() == 0 {
        path
    } else if path.last() == 47 {
        Seq::empty()
    } else {
        base_name(path.drop_last()).push(path.last())
    }
}

/// `s` without every trailing repetition of `suffix`.
pub open spec fn strip_all(s: Seq<u8>, suffix: Seq<u8>) -> Seq<u8>
    decreases s.len(),
{
    if suffix.len() > 0 && s.len() >= suffix.len() && s.subrange(s.len() - suffix.len(), s.len() as int) == suffix {
        strip_all(s.subrange(0, s.len() - suffix.len()), suffix)
    } else {
        s
    }
}

/// The name a font is known by: its file name without `.ttf` (then
/// without `.TTF`) endings.
pub open spec fn font_name_of(path: Seq<u8>) -> Seq<u8> {
    strip_all(strip_all(base_name(path), seq![46u8, 116, 116, 102]), seq![46u8, 84, 84, 70])
}

/// Index of the first preference among the first `n` that the name holds.
pub open spec fn pref_index(prefs: Seq<Seq<u8>>, name: Seq<u8>, n: int) -> Option<int>
    decreases n,
{
    if n <= 0 {
        None
    } else {
        match pref_index(prefs, name, n - 1) {
            Some(i) => Some(i),
            None => if has_part(name, prefs[n - 1]) {
                Some(n - 1)
            } else {
                None
            },
        }
    }
}

/// "monospace", "sans-serif".
pub open spec fn monospace() -> Seq<u8> {
    seq![109u8, 111, 110, 111, 115, 112, 97, 99, 101]
}

pub open spec fn sans_serif() -> Seq<u8> {
    seq![115u8, 97, 110, 115, 45, 115, 101, 114, 105, 102]
}

/// The font names marking CJK fonts: "CJK", "SC", "CN", "HarmonyOS",
/// "Noto".
pub open spec fn cjk_font(name: Seq<u8>) -> bool {
    has_part(name, seq![67u8, 74, 75]) || has_part(name, seq![83u8, 67]) || has_part(name, seq![67u8, 78])
        || has_part(name, seq![72u8, 97, 114, 109, 111, 110, 121, 79, 83]) || has_part(name, seq![78u8, 111, 116, 111])
}

/// A font's priority: its place among the preferred monospace fonts, else
/// 10 plus its place among the preferred sans-serif fonts, else 20 for a
/// CJK font, else 100.
pub open spec fn priority_of(config: FontConfig, name: Seq<u8>) -> u8 {
    let aliases = config.view().aliases;
    let mono = alias_index(aliases, monospace(), aliases.len() as int);
    let sans = alias_index(aliases, sans_serif(), aliases.len() as int);
    let mono_hit = match mono {
        Some(a) => pref_index(aliases[a].prefer, name, aliases[a].prefer.len() as int),
        None => None,
    };
    let sans_hit = match sans {
        Some(a) => pref_index(aliases[a].prefer, name, aliases[a].prefer.len() as int),
        None => None,
    };
    if mono_hit is Some {
        (mono_hit->0) as u8
    } else if sans_hit is Some {
        (sans_hit->0 + 10) as u8
    } else if cjk_font(name) {
        20
    } else {
        100
    }
}

/// The font has a glyph for the code point.
pub open spec fn font_has(f: LoadedFont, cp: u32) -> bool {
    cmap_lookup(f.font.bytes(), f.font.cmap_off(), cp) is Some
}

/// The first of the first `n` fonts that has a glyph for the code point
/// and an outline for it, with the glyph's id.
pub open spec fn glyph_source(fonts: Seq<LoadedFont>, cp: u32, n: int) -> Option<(int, u16)>
    decreases n,
{
    if n <= 0 {
        None
    } else {
        match glyph_source(fonts, cp, n - 1) {
            Some(s) => Some(s),
            None => match cmap_lookup(fonts[n - 1].font.bytes(), fonts[n - 1].font.cmap_off(), cp) {
                Some(g) => if fonts[n - 1].font.outline_spec(g, super::ttf::MAX_COMPONENT_DEPTH as nat) is Ok {
                    Some((n - 1, g))
                } else {
                    None
                },
                None => None,
            },
        }
    }
}

/// Where a character's glyph comes from.
#[derive(Clone, Copy, Debug, PartialEq, Eq, Structural)]
pub enum GlyphChoice {
    /// Rasterize glyph `glyph_id` of font `font`.
    Rasterize { font: usize, glyph_id: u16 },
    /// No font renders it: draw the placeholder box.
    Placeholder,
}

/// Font manager for loading and rendering fonts
pub struct FontManager {
    config: FontConfig,
    fonts: Vec<LoadedFont>,
    cache: GlyphCache,
    font_size: u16,
}

/// The name of a font loaded from `path` (see `font_name_of`).
pub fn font_name(path: &[u8]) -> (r: Vec<u8>)
    ensures
        r@ == font_name_of(path@),
{
    let mut start: usize = path.len();
    assert(path@.take(start as int) =~= path@);
    assert(base_name(path@) + path@.subrange(start as int, start as int) =~= base_name(path@));
    while start > 0 && path[start - 1] != 47
        invariant
            start <= path@.len(),
            base_name(path@) == base_name(path@.take(start as int)) + path@.subrange(start as int, path@.len() as int),
        decreases start,
    {
        assert(path@.take(start as int).drop_last() =~= path@.take(start - 1));
        assert(path@.subrange(start - 1, path@.len() as int) =~= seq![path@[start - 1]] + path@.subrange(start as int, path@.len() as int));
        start = start - 1;
    }
    assert(base_name(path@.take(start as int)) =~= Seq::<u8>::empty()) by {
        if start > 0 {
            assert(path@.take(start as int).last() == 47);
        }
    }
    let mut name: Vec<u8> = Vec::new();
    let mut i = start;
    while i < path.len()
        invariant
            start <= i <= path@.len(),
            name@ == path@.subrange(start as int, i as int),
        decreases path@.len() - i,
    {
        name.push(path[i]);
        i = i + 1;
        assert(name@ =~= path@.subrange(start as int, i as int));
    }
    assert(name@ =~= base_name(path@));
    let lower: [u8; 4] = [46, 116, 116, 102];
    let upper: [u8; 4] = [46, 84, 84, 70];
    assert(lower@ =~= seq![46u8, 116, 116, 102]);
    assert(upper@ =~= seq![46u8, 84, 84, 70]);
    strip_suffixes(&mut name, &lower);
    strip_suffixes(&mut name, &upper);
    name
}

/// Remove every trailing repetition of `suffix`.
fn strip_suffixes(s: &mut Vec<u8>, suffix: &[u8])
    ensures
        final(s)@ == strip_all(old(s)@, suffix@),
{
    if suffix.len() == 0 {
        return;
    }
    loop
        invariant
            suffix@.len() > 0,
            strip_all(s@, suffix@) == strip_all(old(s)@, suffix@),
        decreases s@.len(),
    {
        let n = s.len();
        let m = suffix.len();
        if n < m {
            return;
        }
        let mut j: usize = 0;
        while j < m
            invariant
                j <= m,
                m == suffix@.len(),
                n == s@.len(),
                m <= n,
                m > 0,
                strip_all(s@, suffix@) == strip_all(old(s)@, suffix@),
                forall|k: int| 0 <= k < j ==> s@[n - m + k] == suffix@[k],
            decreases m - j,
        {
            if s[n - m + j] != suffix[j] {
                assert(s@.subrange(n - m, n as int)[j as int] != suffix@[j as int]);
                assert(s@.subrange(n - m, n as int) != suffix@);
                return;
            }
            j = j + 1;
        }
        assert(s@.subrange(n - m, n as int) =~= suffix@);
        let ghost before = s@;
        s.truncate(n - m);
        assert(s@ =~= before.subrange(0, n - m));
    }
}

/// Index of the first preference the name holds.
fn find_pref(prefs: &[Vec<u8>], name: &Vec<u8>) -> (r: Option<usize>)
    ensures
        r matches Some(i) ==> pref_index(strs(prefs@), name@, prefs@.len() as int) == Some(i as int),
        r is None ==> pref_index(strs(prefs@), name@, prefs@.len() as int) is None,
{
    let mut i: usize = 0;
    while i < prefs.len()
        invariant
            i <= prefs@.len(),
            pref_index(strs(prefs@), name@, i as int) is None,
        decreases prefs@.len() - i,
    {
        if has_part_exec(name.as_slice(), prefs[i].as_slice()) {
            proof {
                assert(strs(prefs@)[i as int] == prefs@[i as int]@);
                lemma_pref_index_stable(strs(prefs@), name@, i + 1, prefs@.len() as int);
            }
            return Some(i);
        }
        i = i + 1;
    }
    None
}

proof fn lemma_pref_index_stable(prefs: Seq<Seq<u8>>, name: Seq<u8>, n: int, m: int)
    requires
        0 <= n <= m,
        pref_index(prefs, name, n) is Some,
    ensures
        pref_index(prefs, name, m) == pref_index(prefs, name, n),
    decreases m - n,
{
    if m > n {
        lemma_pref_index_stable(prefs, name, n, m - 1);
    }
}

proof fn lemma_glyph_source_stable(fonts: Seq<LoadedFont>, cp: u32, n: int, m: int)
    requires
        0 <= n <= m,
        glyph_source(fonts, cp, n) is Some,
    ensures
        glyph_source(fonts, cp, m) == glyph_source(fonts, cp, n),
    decreases m - n,
{
    if m > n {
        lemma_glyph_source_stable(fonts, cp, n, m - 1);
    }
}

impl FontManager {
    pub closed spec fn fonts_view(&self) -> Seq<LoadedFont> {
        self.fonts@
    }

    pub closed spec fn size(&self) -> u16 {
        self.font_size
    }

    pub closed spec fn config_view(&self) -> FontConfig {
        self.config
    }

    pub closed spec fn cache_view(&self) -> GlyphCache {
        self.cache
    }

    pub closed spec fn wf(&self) -> bool {
        self.cache.wf()
    }

    /// Create a new font manager with the given configuration
    pub fn new(config: FontConfig) -> (r: Self)
        ensures
            r.wf(),
            r.fonts_view().len() == 0,
            r.size() == DEFAULT_FONT_SIZE,
            r.config_view() == config,
            r.cache_view().entries().len() == 0,
    {
        FontManager { config, fonts: Vec::new(), cache: GlyphCache::new(), font_size: DEFAULT_FONT_SIZE }
    }

    /// The loaded fonts, in priority order once loading is done.
    pub fn fonts(&self) -> (r: &[LoadedFont])
        ensures
            r@ == self.fonts_view(),
    {
        self.fonts.as_slice()
    }

    /// Calculate font priority based on configuration and name (see
    /// `priority_of`).
    pub fn calculate_priority(&self, name: &Vec<u8>) -> (r: u8)
        ensures
            r == priority_of(self.config_view(), name@),
    {
        let mono: Vec<u8> = vec![109, 111, 110, 111, 115, 112, 97, 99, 101];
        let sans: Vec<u8> = vec![115, 97, 110, 115, 45, 115, 101, 114, 105, 102];
        assert(mono@ =~= monospace());
        assert(sans@ =~= sans_serif());
        if let Some(prefs) = self.config.get_preferred(&mono) {
            if let Some(i) = find_pref(prefs, name) {
                return i as u8;
            }
        }
        if let Some(prefs) = self.config.get_preferred(&sans) {
            if let Some(i) = find_pref(prefs, name) {
                let r = (i as u8).wrapping_add(10);
                assert(r == (i + 10) as u8) by (bit_vector)
                    requires
                        r == (i as u8).wrapping_add(10),
                ;
                return r;
            }
        }
        let cjk: [u8; 3] = [67, 74, 75];
        let sc: [u8; 2] = [83, 67];
        let cn: [u8; 2] = [67, 78];
        let harmony: [u8; 9] = [72, 97, 114, 109, 111, 110, 121, 79, 83];
        let noto: [u8; 4] = [78, 111, 116, 111];
        assert(cjk@ =~= seq![67u8, 74, 75]);
        assert(sc@ =~= seq![83u8, 67]);
        assert(cn@ =~= seq![67u8, 78]);
        assert(harmony@ =~= seq![72u8, 97, 114, 109, 111, 110, 121, 79, 83]);
        assert(noto@ =~= seq![78u8, 111, 116, 111]);
        if has_part_exec(name.as_slice(), &cjk) || has_part_exec(name.as_slice(), &sc) || has_part_exec(name.as_slice(), &cn)
            || has_part_exec(name.as_slice(), &harmony) || has_part_exec(name.as_slice(), &noto) {
            return 20;
        }
        100
    }

    /// Whether a font of this name is loaded.
    fn has_font_named(&self, name: &Vec<u8>) -> (r: bool)
        ensures
            r == exists|i: int| 0 <= i < self.fonts_view().len() && #[trigger] self.fonts_view()[i].name@ == name@,
    {
        let mut i: usize = 0;
        while i < self.fonts.len()
            invariant
                i <= self.fonts@.len(),
                forall|j: int| 0 <= j < i ==> self.fonts@[j].name@ != name@,
            decreases self.fonts@.len() - i,
        {
            if bytes_equal(&self.fonts[i].name, name) {
                assert(self.fonts_view()[i as int].name@ == name@);
                return true;
            }
            i = i + 1;
        }
        false
    }

    /// Load the font file at `path` whose bytes are `data` (none where the
    /// file could not be read): nothing if a font of its name is loaded,
    /// `LoadFailed` without data, `ParseFailed` where the data is no font,
    /// else the font joins the others with its priority.
    pub fn try_load_font(&mut self, path: &[u8], data: Option<&'static [u8]>) -> (r: Result<(), FontManagerError>)
        requires
            old(self).wf(),
        ensures
            final(self).wf(),
            final(self).config_view() == old(self).config_view(),
            final(self).size() == old(self).size(),
            final(self).cache_view() == old(self).cache_view(),
            (exists|i: int| 0 <= i < old(self).fonts_view().len() && #[trigger] old(self).fonts_view()[i].name@ == font_name_of(path@))
                ==> r is Ok && final(self).fonts_view() == old(self).fonts_view(),
            !(exists|i: int| 0 <= i < old(self).fonts_view().len() && #[trigger] old(self).fonts_view()[i].name@ == font_name_of(path@)) ==> match data {
                None => r == Err::<(), FontManagerError>(FontManagerError::LoadFailed) && final(self).fonts_view() == old(self).fonts_view(),
                Some(d) => match parse_check(d@) {
                    Some(e) => r == Err::<(), FontManagerError>(FontManagerError::ParseFailed(e)) && final(self).fonts_view() == old(self).fonts_view(),
                    None => r is Ok && final(self).fonts_view().len() == old(self).fonts_view().len() + 1
                        && final(self).fonts_view().drop_last() == old(self).fonts_view()
                        && final(self).fonts_view().last().name@ == font_name_of(path@)
                        && final(self).fonts_view().last().priority == priority_of(old(self).config_view(), font_name_of(path@))
                        && final(self).fonts_view().last().font.parsed_from(d@),
                },
            },
    {
        let name = font_name(path);
        if self.has_font_named(&name) {
            return Ok(());
        }
        let d = match data {
            Some(d) => d,
            None => return Err(FontManagerError::LoadFailed),
        };
        let font = match TtfFont::parse(d) {
            Ok(f) => f,
            Err(e) => return Err(FontManagerError::ParseFailed(e)),
        };
        let priority = self.calculate_priority(&name);
        self.fonts.push(LoadedFont { name, font, priority });
        Ok(())
    }

    /// Finish loading: `NoFontsFound` without fonts, else the fonts are put
    /// in priority order (see `stable_by_priority`).
    pub fn load_fonts(&mut self) -> (r: Result<(), FontManagerError>)
        requires
            old(self).wf(),
        ensures
            final(self).wf(),
            final(self).config_view() == old(self).config_view(),
            final(self).size() == old(self).size(),
            final(self).cache_view() == old(self).cache_view(),
            old(self).fonts_view().len() == 0 ==> r == Err::<(), FontManagerError>(FontManagerError::NoFontsFound)
                && final(self).fonts_view() == old(self).fonts_view(),
            old(self).fonts_view().len() > 0 ==> r is Ok && stable_by_priority(old(self).fonts_view(), final(self).fonts_view()),
    {
        if self.fonts.len() == 0 {
            return Err(FontManagerError::NoFontsFound);
        }
        sort_by_priority(&mut self.fonts);
        Ok(())
    }

    /// Set the font size; a new size empties the glyph cache.
    pub fn set_font_size(&mut self, size: u16)
        requires
            old(self).wf(),
        ensures
            final(self).wf(),
            final(self).size() == size,
            final(self).fonts_view() == old(self).fonts_view(),
            final(self).config_view() == old(self).config_view(),
            size == old(self).size() ==> final(self).cache_view() == old(self).cache_view(),
            size != old(self).size() ==> final(self).cache_view().entries().len() == 0,
    {
        if size != self.font_size {
            self.font_size = size;
            self.cache.clear();
        }
    }

    /// Get the current font size
    pub fn font_size(&self) -> (r: u16)
        ensures
            r == self.size(),
    {
        self.font_size
    }

    /// Check if a character can be rendered: some font has a glyph for it.
    pub fn has_glyph(&self, ch: char) -> (r: bool)
        ensures
            r == exists|i: int| 0 <= i < self.fonts_view().len() && font_has(#[trigger] self.fonts_view()[i], ch as u32),
    {
        let codepoint = ch as u32;
        let mut i: usize = 0;
        while i < self.fonts.len()
            invariant
                i <= self.fonts@.len(),
                codepoint == ch as u32,
                forall|j: int| 0 <= j < i ==> !font_has(#[trigger] self.fonts@[j], codepoint),
            decreases self.fonts@.len() - i,
        {
            if self.fonts[i].font.get_glyph_id(codepoint).is_some() {
                assert(font_has(self.fonts_view()[i as int], ch as u32));
                return true;
            }
            i = i + 1;
        }
        false
    }

    /// Where a character's glyph comes from: the first font with a glyph
    /// and an outline for it, else the placeholder box.
    pub fn get_glyph(&self, ch: char) -> (r: GlyphChoice)
        ensures
            r == match glyph_source(self.fonts_view(), ch as u32, self.fonts_view().len() as int) {
                Some((f, g)) => GlyphChoice::Rasterize { font: f as usize, glyph_id: g },
                None => GlyphChoice::Placeholder,
            },
    {
        let codepoint = ch as u32;
        let mut i: usize = 0;
        while i < self.fonts.len()
            invariant
                i <= self.fonts@.len(),
                codepoint == ch as u32,
                glyph_source(self.fonts@, codepoint, i as int) is None,
            decreases self.fonts@.len() - i,
        {
            if let Some(glyph_id) = self.fonts[i].font.get_glyph_id(codepoint) {
                if self.fonts[i].font.get_glyph_outline(glyph_id).is_ok() {
                    proof {
                        lemma_glyph_source_stable(self.fonts@, codepoint, i + 1, self.fonts@.len() as int);
                    }
                    return GlyphChoice::Rasterize { font: i, glyph_id };
                }
            }
            i = i + 1;
        }
        GlyphChoice::Placeholder
    }

    /// A cached glyph, marked most recently used.
    pub fn cached_glyph(&mut self, ch: char, size: u16) -> (r: Option<GlyphBitmap>)
        requires
            old(self).wf(),
        ensures
            final(self).wf(),
            final(self).fonts_view() == old(self).fonts_view(),
            final(self).size() == old(self).size(),
            final(self).cache_view().entries() == old(self).cache_view().entries(),
            match r {
                Some(g) => lookup(old(self).cache_view().entries(), (ch as u32, size)) == Some(g.view()),
                None => lookup(old(self).cache_view().entries(), (ch as u32, size)) is None,
            },
    {
        match self.cache.get(ch as u32, size) {
            Some(g) => Some(g.copy()),
            None => None,
        }
    }

    /// Cache a rendered glyph.
    pub fn store_glyph(&mut self, ch: char, size: u16, glyph: GlyphBitmap)
        requires
            old(self).wf(),
        ensures
            final(self).wf(),
            final(self).fonts_view() == old(self).fonts_view(),
            final(self).size() == old(self).size(),
            lookup(final(self).cache_view().entries(), (ch as u32, size)) == Some(glyph.view()),
    {
        self.cache.insert(ch as u32, size, glyph);
    }

    /// Get the number of loaded fonts
    pub fn font_count(&self) -> (r: usize)
        ensures
            r == self.fonts_view().len(),
    {
        self.fonts.len()
    }

    /// Cache statistics: cached glyphs and the font limit.
    pub fn cache_stats(&self) -> (r: (usize, usize))
        ensures
            r == (self.cache_view().entries().len() as usize, MAX_LOADED_FONTS),
    {
        (self.cache.len(), MAX_LOADED_FONTS)
    }

    /// Clear the glyph cache
    pub fn clear_cache(&mut self)
        ensures
            final(self).wf(),
            final(self).fonts_view() == old(self).fonts_view(),
            final(self).size() == old(self).size(),
            final(self).config_view() == old(self).config_view(),
            final(self).cache_view().entries().len() == 0,
    {
        self.cache.clear();
    }
}

} // verus!
