//! Font configuration parser
//!
//! Parses fontconfig-style XML configuration files to determine font
//! directories, preferences, and fallback chains.  Supports a subset of
//! the fontconfig format:
//! - `<dir>` elements for font directories
//! - `<cachedir>` for the cache directory
//! - `<include>` elements for including further files
//! - `<alias>` elements for font family preferences
//!
//! The parser works on the file's bytes.  Every byte it looks for is
//! ASCII, and text is trimmed of ASCII whitespace; paths and names are
//! kept as bytes.

use vstd::prelude::*;
use vstd::utf8::valid_utf8;
use crate::text::str_from_utf8;

verus! {

/// Maximum number of font directories
pub const MAX_FONT_DIRS: usize = 16;

/// Maximum number of font preferences per family
pub const MAX_PREFERENCES: usize = 8;

/// Whitespace skipped between XML items.
pub open spec fn is_gap(b: u8) -> bool {
    b == 32 || b == 9 || b == 10 || b == 13
}

/// ASCII whitespace, trimmed from text and splitting a tag's name from its
/// attributes.
pub open spec fn is_space(b: u8) -> bool {
    b == 32 || b == 9 || b == 10 || b == 11 || b == 12 || b == 13
}

fn gap(b: u8) -> (r: bool)
    ensures
        r == is_gap(b),
{
    b == 32 || b == 9 || b == 10 || b == 13
}

fn space(b: u8) -> (r: bool)
    ensures
        r == is_space(b),
{
    b == 32 || b == 9 || b == 10 || b == 11 || b == 12 || b == 13
}

/// First position from `pos` that is not a gap.
pub open spec fn skip_gaps(c: Seq<u8>, pos: int) -> int
    decreases c.len() - pos,
{
    if 0 <= pos < c.len() && is_gap(c[pos]) {
        skip_gaps(c, pos + 1)
    } else {
        pos
    }
}

/// `pat` occurs at `pos`.
pub open spec fn occurs_at(c: Seq<u8>, pos: int, pat: Seq<u8>) -> bool {
    0 <= pos && pos + pat.len() <= c.len() && c.subrange(pos, pos + pat.len()) == pat
}

/// First position from `pos` where `pat` occurs.
pub open spec fn find_from(c: Seq<u8>, pos: int, pat: Seq<u8>) -> Option<int>
    decreases c.len() + 1 - pos,
{
    if pos < 0 || pos + pat.len() > c.len() {
        None
    } else if occurs_at(c, pos, pat) {
        Some(pos)
    } else {
        find_from(c, pos + 1, pat)
    }
}

/// Start of `[a, b)` without leading whitespace.
pub open spec fn trim_start(c: Seq<u8>, a: int, b: int) -> int
    decreases b - a,
{
    if a < b && is_space(c[a]) {
        trim_start(c, a + 1, b)
    } else {
        a
    }
}

/// End of `[a, b)` without trailing whitespace.
pub open spec fn trim_end(c: Seq<u8>, a: int, b: int) -> int
    decreases b - a,
{
    if a < b && is_space(c[b - 1]) {
        trim_end(c, a, b - 1)
    } else {
        b
    }
}

/// First whitespace position in `[a, b)`, else `b`.
pub open spec fn first_space(c: Seq<u8>, a: int, b: int) -> int
    decreases b - a,
{
    if a < b && !is_space(c[a]) {
        first_space(c, a + 1, b)
    } else {
        a
    }
}

/// An XML item: a range of bytes for each part.
#[derive(Clone, Copy, Debug)]
pub enum XmlEvent {
    StartElement { name: (usize, usize), attrs: (usize, usize) },
    EndElement { name: (usize, usize) },
    Text { text: (usize, usize) },
}

/// `[a, b)` trimmed.
pub open spec fn trimmed(c: Seq<u8>, a: int, b: int) -> (usize, usize) {
    (trim_start(c, a, b) as usize, trim_end(c, trim_start(c, a, b), b) as usize)
}

/// The start tag whose `<` is at `pos` and `>` at `gt`.
pub open spec fn start_tag(c: Seq<u8>, pos: int, gt: int) -> XmlEvent {
    let ts = pos + 1;
    let te = if gt > ts && c[gt - 1] == 47 {
        gt - 1
    } else {
        gt
    };
    let w = first_space(c, ts, te);
    XmlEvent::StartElement {
        name: trimmed(c, ts, w),
        attrs: if w < te {
            trimmed(c, w + 1, te)
        } else {
            (te as usize, te as usize)
        },
    }
}

/// The next item from `pos` and the position after it; none at the end,
/// or inside a comment, declaration or doctype that does not end.
pub open spec fn xml_next(c: Seq<u8>, pos0: int) -> (Option<XmlEvent>, int)
    decreases c.len() - pos0,
{
    let pos = skip_gaps(c, pos0);
    if pos0 < 0 || pos >= c.len() {
        (None, pos)
    } else if pos < pos0 {
        (None, pos)
    } else if occurs_at(c, pos, seq![60u8, 33, 45, 45]) {
        match find_from(c, pos, seq![45u8, 45, 62]) {
            Some(e) => if e >= pos && e + 3 <= c.len() {
                xml_next(c, e + 3)
            } else {
                (None, pos)
            },
            None => (None, pos),
        }
    } else if occurs_at(c, pos, seq![60u8, 33]) || occurs_at(c, pos, seq![60u8, 63]) {
        match find_from(c, pos, seq![62u8]) {
            Some(e) => if e >= pos && e + 1 <= c.len() {
                xml_next(c, e + 1)
            } else {
                (None, pos)
            },
            None => (None, pos),
        }
    } else if c[pos] == 60 {
        match find_from(c, pos, seq![62u8]) {
            Some(e) => if e < pos {
                (None, pos)
            } else if occurs_at(c, pos, seq![60u8, 47]) {
                (Some(XmlEvent::EndElement { name: trimmed(c, pos + 2, e) }), e + 1)
            } else {
                (Some(start_tag(c, pos, e)), e + 1)
            },
            None => xml_next(c, pos + 1),
        }
    } else {
        let te = match find_from(c, pos, seq![60u8]) {
            Some(e) => e,
            None => c.len() as int,
        };
        if te <= pos || te > c.len() {
            (None, pos)
        } else if trim_start(c, pos, te) < trim_end(c, trim_start(c, pos, te), te) {
            (Some(XmlEvent::Text { text: trimmed(c, pos, te) }), te)
        } else {
            xml_next(c, te)
        }
    }
}

/// Text up to the next tag from `pos` (trimmed), and the position after
/// it; none at the end or right before a tag.
pub open spec fn text_at(c: Seq<u8>, pos0: int) -> (Option<(usize, usize)>, int) {
    let pos = skip_gaps(c, pos0);
    if pos >= c.len() {
        (None, pos)
    } else {
        let te = match find_from(c, pos, seq![60u8]) {
            Some(e) => e,
            None => c.len() as int,
        };
        if te > pos {
            (Some(trimmed(c, pos, te)), te)
        } else {
            (None, pos)
        }
    }
}

pub proof fn lemma_skip_gaps(c: Seq<u8>, pos: int)
    requires
        0 <= pos <= c.len(),
    ensures
        pos <= skip_gaps(c, pos) <= c.len(),
        skip_gaps(c, pos) < c.len() ==> !is_gap(c[skip_gaps(c, pos)]),
    decreases c.len() - pos,
{
    if pos < c.len() && is_gap(c[pos]) {
        lemma_skip_gaps(c, pos + 1);
    }
}

pub proof fn lemma_find_from(c: Seq<u8>, pos: int, pat: Seq<u8>)
    requires
        0 <= pos,
    ensures
        find_from(c, pos, pat) matches Some(e) ==> pos <= e && occurs_at(c, e, pat),
    decreases c.len() + 1 - pos,
{
    if pos + pat.len() <= c.len() && !occurs_at(c, pos, pat) {
        lemma_find_from(c, pos + 1, pat);
    }
}

pub proof fn lemma_trim(c: Seq<u8>, a: int, b: int)
    requires
        a <= b,
    ensures
        a <= trim_start(c, a, b) <= b,
        trim_start(c, a, b) <= trim_end(c, trim_start(c, a, b), b) <= b,
        a <= first_space(c, a, b) <= b,
    decreases b - a,
{
    if a < b {
        lemma_trim(c, a + 1, b);
        lemma_trim_end(c, trim_start(c, a, b), b);
    } else {
        lemma_trim_end(c, a, b);
    }
}

pub proof fn lemma_trim_end(c: Seq<u8>, a: int, b: int)
    requires
        a <= b,
    ensures
        a <= trim_end(c, a, b) <= b,
    decreases b - a,
{
    if a < b && is_space(c[b - 1]) {
        lemma_trim_end(c, a, b - 1);
    }
}

/// The item after `pos` ends after `pos`, within the content.
pub proof fn lemma_xml_next(c: Seq<u8>, pos: int)
    requires
        0 <= pos <= c.len(),
    ensures
        xml_next(c, pos).0 is Some ==> pos < xml_next(c, pos).1 <= c.len(),
    decreases c.len() - pos,
{
    lemma_skip_gaps(c, pos);
    let p = skip_gaps(c, pos);
    if p < c.len() {
        lemma_find_from(c, p, seq![45u8, 45, 62]);
        lemma_find_from(c, p, seq![62u8]);
        lemma_find_from(c, p, seq![60u8]);
        if occurs_at(c, p, seq![60u8, 33, 45, 45]) {
            if let Some(e) = find_from(c, p, seq![45u8, 45, 62]) {
                lemma_xml_next(c, e + 3);
            }
        } else if occurs_at(c, p, seq![60u8, 33]) || occurs_at(c, p, seq![60u8, 63]) {
            if let Some(e) = find_from(c, p, seq![62u8]) {
                lemma_xml_next(c, e + 1);
            }
        } else if c[p] == 60 {
            if find_from(c, p, seq![62u8]) is None {
                lemma_xml_next(c, p + 1);
            }
        } else {
            let te = match find_from(c, p, seq![60u8]) {
                Some(e) => e,
                None => c.len() as int,
            };
            if te > p {
                lemma_xml_next(c, te);
            }
        }
    }
}

/// Simple XML parser for fontconfig files
pub struct XmlParser<'a> {
    content: &'a [u8],
    pos: usize,
}

impl<'a> XmlParser<'a> {
    pub closed spec fn content(&self) -> Seq<u8> {
        self.content@
    }

    pub closed spec fn pos(&self) -> int {
        self.pos as int
    }

    pub closed spec fn wf(&self) -> bool {
        self.pos <= self.content@.len() && self.content@.len() <= usize::MAX
    }

    pub fn new(content: &'a [u8]) -> (r: Self)
        ensures
            r.wf(),
            r.content() == content@,
            r.pos() == 0,
    {
        let n = content.len();
        XmlParser { content, pos: 0 }
    }

    fn skip_whitespace(&mut self)
        requires
            old(self).wf(),
        ensures
            final(self).wf(),
            final(self).content() == old(self).content(),
            final(self).pos() == skip_gaps(old(self).content(), old(self).pos()),
    {
        let n = self.content.len();
        proof {
            lemma_skip_gaps(self.content@, self.pos as int);
        }
        while self.pos < n && gap(self.content[self.pos])
            invariant
                n == self.content@.len(),
                self.pos <= n,
                self.content == old(self).content,
                skip_gaps(self.content@, self.pos as int) == skip_gaps(old(self).content@, old(self).pos as int),
            decreases n - self.pos,
        {
            self.pos = self.pos + 1;
        }
    }

    fn occurs(&self, at: usize, pat: &[u8]) -> (r: bool)
        ensures
            r == occurs_at(self.content@, at as int, pat@),
    {
        if at > self.content.len() || pat.len() > self.content.len() - at {
            return false;
        }
        let mut i: usize = 0;
        while i < pat.len()
            invariant
                i <= pat@.len(),
                at + pat@.len() <= self.content.len(),
                self.content@.len() == self.content.len(),
                forall|j: int| 0 <= j < i ==> self.content@[at + j] == pat@[j],
            decreases pat@.len() - i,
        {
            if self.content[at + i] != pat[i] {
                assert(self.content@.subrange(at as int, at + pat@.len())[i as int] != pat@[i as int]);
                return false;
            }
            i = i + 1;
        }
        assert(self.content@.subrange(at as int, at + pat@.len()) =~= pat@);
        true
    }

    fn find(&self, from: usize, pat: &[u8]) -> (r: Option<usize>)
        requires
            pat@.len() > 0,
        ensures
            r matches Some(e) ==> find_from(self.content@, from as int, pat@) == Some(e as int),
            r is None ==> find_from(self.content@, from as int, pat@) is None,
    {
        let n = self.content.len();
        if from > n {
            return None;
        }
        let mut i = from;
        while i < n
            invariant
                from <= i <= n,
                n == self.content@.len(),
                pat@.len() > 0,
                find_from(self.content@, from as int, pat@) == find_from(self.content@, i as int, pat@),
            decreases n - i,
        {
            if pat.len() > n - i {
                return None;
            }
            if self.occurs(i, pat) {
                return Some(i);
            }
            i = i + 1;
        }
        None
    }

    fn trim(&self, a: usize, b: usize) -> (r: (usize, usize))
        requires
            a <= b <= self.content@.len(),
        ensures
            r == trimmed(self.content@, a as int, b as int),
    {
        let mut s = a;
        while s < b && space(self.content[s])
            invariant
                a <= s <= b,
                b <= self.content@.len(),
                trim_start(self.content@, a as int, b as int) == trim_start(self.content@, s as int, b as int),
            decreases b - s,
        {
            s = s + 1;
        }
        let mut e = b;
        while e > s && space(self.content[e - 1])
            invariant
                s <= e <= b,
                b <= self.content@.len(),
                trim_end(self.content@, s as int, b as int) == trim_end(self.content@, s as int, e as int),
            decreases e - s,
        {
            e = e - 1;
        }
        (s, e)
    }

    /// The next item, and the position moves past it (see `xml_next`).
    pub fn next(&mut self) -> (r: Option<XmlEvent>)
        requires
            old(self).wf(),
        ensures
            final(self).wf(),
            final(self).content() == old(self).content(),
            (r, final(self).pos()) == xml_next(old(self).content(), old(self).pos()),
    {
        let ghost c = self.content@;
        let ghost start = self.pos as int;
        loop
            invariant
                self.wf(),
                self.content@ == c,
                c == old(self).content@,
                start == old(self).pos as int,
                xml_next(c, self.pos as int) == xml_next(c, start),
            decreases c.len() - self.pos,
        {
            let ghost p0 = self.pos as int;
            self.skip_whitespace();
            proof {
                lemma_skip_gaps(c, p0);
            }
            let n = self.content.len();
            let pos = self.pos;
            if pos >= n {
                return None;
            }
            if self.occurs(pos, &[60u8, 33, 45, 45]) {
                assert([60u8, 33, 45, 45]@ =~= seq![60u8, 33, 45, 45]);
                assert([45u8, 45, 62]@ =~= seq![45u8, 45, 62]);
                match self.find(pos, &[45u8, 45, 62]) {
                    Some(e) => {
                        proof {
                            lemma_find_from(c, pos as int, seq![45u8, 45, 62]);
                        }
                        self.pos = e + 3;
                        continue;
                    },
                    None => return None,
                }
            }
            assert([60u8, 33, 45, 45]@ =~= seq![60u8, 33, 45, 45]);
            assert([60u8, 33]@ =~= seq![60u8, 33]);
            assert([60u8, 63]@ =~= seq![60u8, 63]);
            assert([62u8]@ =~= seq![62u8]);
            assert([60u8, 47]@ =~= seq![60u8, 47]);
            assert([60u8]@ =~= seq![60u8]);
            if self.occurs(pos, &[60u8, 33]) || self.occurs(pos, &[60u8, 63]) {
                match self.find(pos, &[62u8]) {
                    Some(e) => {
                        proof {
                            lemma_find_from(c, pos as int, seq![62u8]);
                        }
                        self.pos = e + 1;
                        continue;
                    },
                    None => return None,
                }
            }
            if self.content[pos] == 60 {
                match self.find(pos, &[62u8]) {
                    Some(e) => {
                        proof {
                            lemma_find_from(c, pos as int, seq![62u8]);
                        }
                        if self.occurs(pos, &[60u8, 47]) {
                            let name = self.trim(pos + 2, e);
                            self.pos = e + 1;
                            return Some(XmlEvent::EndElement { name });
                        }
                        let ts = pos + 1;
                        let te = if e > ts && self.content[e - 1] == 47 {
                            e - 1
                        } else {
                            e
                        };
                        let mut w = ts;
                        while w < te && !space(self.content[w])
                            invariant
                                ts <= w <= te,
                                te <= c.len(),
                                self.content@ == c,
                                first_space(c, ts as int, te as int) == first_space(c, w as int, te as int),
                            decreases te - w,
                        {
                            w = w + 1;
                        }
                        let name = self.trim(ts, w);
                        let attrs = if w < te {
                            self.trim(w + 1, te)
                        } else {
                            (te, te)
                        };
                        self.pos = e + 1;
                        return Some(XmlEvent::StartElement { name, attrs });
                    },
                    None => {
                        self.pos = pos + 1;
                        continue;
                    },
                }
            }
            let te = match self.find(pos, &[60u8]) {
                Some(e) => e,
                None => n,
            };
            proof {
                lemma_find_from(c, pos as int, seq![60u8]);
            }
            let (a, b) = self.trim(pos, te);
            proof {
                lemma_trim(c, pos as int, te as int);
            }
            self.pos = te;
            if a < b {
                return Some(XmlEvent::Text { text: (a, b) });
            }
        }
    }

    /// The text up to the next tag, trimmed (see `text_at`).
    pub fn read_text(&mut self) -> (r: Option<(usize, usize)>)
        requires
            old(self).wf(),
        ensures
            final(self).wf(),
            final(self).content() == old(self).content(),
            (r, final(self).pos()) == text_at(old(self).content(), old(self).pos()),
    {
        self.skip_whitespace();
        proof {
            lemma_skip_gaps(self.content@, old(self).pos as int);
        }
        if self.pos >= self.content.len() {
            return None;
        }
        assert([60u8]@ =~= seq![60u8]);
        let te = match self.find(self.pos, &[60u8]) {
            Some(e) => e,
            None => self.content.len(),
        };
        proof {
            lemma_find_from(self.content@, self.pos as int, seq![60u8]);
        }
        if te > self.pos {
            let t = self.trim(self.pos, te);
            self.pos = te;
            return Some(t);
        }
        None
    }
}

/// A font family with its preferred fonts.
pub struct AliasView {
    pub family: Seq<u8>,
    pub prefer: Seq<Seq<u8>>,
}

/// What a configuration holds.
pub struct ConfigView {
    pub dirs: Seq<Seq<u8>>,
    pub aliases: Seq<AliasView>,
    pub cache_dir: Option<Seq<u8>>,
}

/// Font family alias with preference list
pub struct FontAlias {
    pub family: Vec<u8>,
    pub prefer: Vec<Vec<u8>>,
}

/// Font configuration
pub struct FontConfig {
    /// Font directories to search
    pub directories: Vec<Vec<u8>>,
    /// Font aliases (family -> preferred fonts)
    pub aliases: Vec<FontAlias>,
    /// Cache directory
    pub cache_dir: Option<Vec<u8>>,
}

pub open spec fn strs(v: Seq<Vec<u8>>) -> Seq<Seq<u8>> {
    v.map_values(|x: Vec<u8>| x@)
}

impl FontAlias {
    pub open spec fn view(&self) -> AliasView {
        AliasView { family: self.family@, prefer: strs(self.prefer@) }
    }
}

pub open spec fn alias_views(v: Seq<FontAlias>) -> Seq<AliasView> {
    v.map_values(|a: FontAlias| a.view())
}

pub open spec fn opt_bytes(o: Option<Vec<u8>>) -> Option<Seq<u8>> {
    match o {
        Some(v) => Some(v@),
        None => None,
    }
}

impl FontConfig {
    pub open spec fn view(&self) -> ConfigView {
        ConfigView {
            dirs: strs(self.directories@),
            aliases: alias_views(self.aliases@),
            cache_dir: opt_bytes(self.cache_dir),
        }
    }
}

/// The bytes of a range of `c`.
pub open spec fn range_bytes(c: Seq<u8>, r: (usize, usize)) -> Seq<u8> {
    c.subrange(r.0 as int, r.1 as int)
}

/// `s` occurs somewhere in `t`.
pub open spec fn has_part(t: Seq<u8>, s: Seq<u8>) -> bool {
    find_from(t, 0, s) is Some
}

/// "/root/.local/share/", "/root", "/usr/share/fonts".
pub open spec fn xdg_home() -> Seq<u8> {
    seq![47u8, 114, 111, 111, 116, 47, 46, 108, 111, 99, 97, 108, 47, 115, 104, 97, 114, 101, 47]
}

pub open spec fn root_home() -> Seq<u8> {
    seq![47u8, 114, 111, 111, 116]
}

pub open spec fn default_font_dir() -> Seq<u8> {
    seq![47u8, 117, 115, 114, 47, 115, 104, 97, 114, 101, 47, 102, 111, 110, 116, 115]
}

/// `prefix="xdg"` and `prefix='xdg'`.
pub open spec fn xdg_attr(quote: u8) -> Seq<u8> {
    seq![112u8, 114, 101, 102, 105, 120, 61, quote, 120, 100, 103, quote]
}

/// A `<dir>` path as the kernel searches it: under the XDG data home for
/// `prefix="xdg"`, `~` expanded to `/root`, absolute paths kept, and
/// relative paths dropped (empty).
pub open spec fn expanded_dir(path: Seq<u8>, attrs: Seq<u8>) -> Seq<u8> {
    if has_part(attrs, xdg_attr(34)) || has_part(attrs, xdg_attr(39)) {
        xdg_home() + path
    } else if path.len() >= 2 && path[0] == 126 && path[1] == 47 {
        root_home() + path.skip(1)
    } else if path == seq![126u8] {
        root_home()
    } else if path.len() == 0 || path[0] != 47 {
        Seq::empty()
    } else {
        path
    }
}

/// `dirs` with the first `n` of `other` added, each where there is room
/// and it is not there yet.
pub open spec fn merged_dirs(dirs: Seq<Seq<u8>>, other: Seq<Seq<u8>>, n: int) -> Seq<Seq<u8>>
    decreases n,
{
    if n <= 0 {
        dirs
    } else {
        let d = merged_dirs(dirs, other, n - 1);
        if d.len() < MAX_FONT_DIRS && !d.contains(other[n - 1]) {
            d.push(other[n - 1])
        } else {
            d
        }
    }
}

/// Preferences with the first `n` of `other` added, each where there is
/// room and it is not there yet.
pub open spec fn merged_prefs(prefer: Seq<Seq<u8>>, other: Seq<Seq<u8>>, n: int) -> Seq<Seq<u8>>
    decreases n,
{
    if n <= 0 {
        prefer
    } else {
        let p = merged_prefs(prefer, other, n - 1);
        if p.len() < MAX_PREFERENCES && !p.contains(other[n - 1]) {
            p.push(other[n - 1])
        } else {
            p
        }
    }
}

/// Index of the first alias of a family.
pub open spec fn alias_index(aliases: Seq<AliasView>, family: Seq<u8>, n: int) -> Option<int>
    decreases n,
{
    if n <= 0 {
        None
    } else {
        match alias_index(aliases, family, n - 1) {
            Some(i) => Some(i),
            None => if aliases[n - 1].family == family {
                Some(n - 1)
            } else {
                None
            },
        }
    }
}

/// Aliases with the first `n` of `other` merged in: preferences added to
/// the family's alias where there is one, else the alias appended.
pub open spec fn merged_aliases(aliases: Seq<AliasView>, other: Seq<AliasView>, n: int) -> Seq<AliasView>
    decreases n,
{
    if n <= 0 {
        aliases
    } else {
        let a = merged_aliases(aliases, other, n - 1);
        let o = other[n - 1];
        match alias_index(a, o.family, a.len() as int) {
            Some(i) => a.update(i, AliasView { family: a[i].family, prefer: merged_prefs(a[i].prefer, o.prefer, o.prefer.len() as int) }),
            None => a.push(o),
        }
    }
}

/// `cfg` with `other` merged in.
pub open spec fn merged(cfg: ConfigView, other: ConfigView) -> ConfigView {
    ConfigView {
        dirs: merged_dirs(cfg.dirs, other.dirs, other.dirs.len() as int),
        aliases: merged_aliases(cfg.aliases, other.aliases, other.aliases.len() as int),
        cache_dir: if cfg.cache_dir is None {
            other.cache_dir
        } else {
            cfg.cache_dir
        },
    }
}

/// The range names the given element.
pub open spec fn names(c: Seq<u8>, r: (usize, usize), name: Seq<u8>) -> bool {
    range_bytes(c, r) == name
}

pub open spec fn tag_dir() -> Seq<u8> {
    seq![100u8, 105, 114]
}

pub open spec fn tag_cachedir() -> Seq<u8> {
    seq![99u8, 97, 99, 104, 101, 100, 105, 114]
}

pub open spec fn tag_include() -> Seq<u8> {
    seq![105u8, 110, 99, 108, 117, 100, 101]
}

pub open spec fn tag_alias() -> Seq<u8> {
    seq![97u8, 108, 105, 97, 115]
}

pub open spec fn tag_family() -> Seq<u8> {
    seq![102u8, 97, 109, 105, 108, 121]
}

pub open spec fn tag_prefer() -> Seq<u8> {
    seq![112u8, 114, 101, 102, 101, 114]
}

/// The alias being read: its family and preferences once the items from
/// `pos` up to `</alias>` (or the end) are read, and the position after.
pub open spec fn alias_run(c: Seq<u8>, pos: int, family: Option<Seq<u8>>, prefer: Seq<Seq<u8>>, in_prefer: bool) -> (Option<AliasView>, int)
    decreases c.len() - pos,
{
    let fin = match family {
        Some(f) => Some(AliasView { family: f, prefer }),
        None => None,
    };
    if pos < 0 || pos > c.len() {
        (fin, pos)
    } else {
        proof {
            lemma_xml_next(c, pos);
        }
        match xml_next(c, pos) {
            (None, p) => (fin, p),
            (Some(XmlEvent::StartElement { name, attrs: _ }), p) => if names(c, name, tag_family()) {
                proof {
                    lemma_text_at(c, p);
                }
                match text_at(c, p) {
                    (Some(t), p2) => if family is None && !in_prefer {
                        alias_run(c, p2, Some(range_bytes(c, t)), prefer, in_prefer)
                    } else if in_prefer && prefer.len() < MAX_PREFERENCES {
                        alias_run(c, p2, family, prefer.push(range_bytes(c, t)), in_prefer)
                    } else {
                        alias_run(c, p2, family, prefer, in_prefer)
                    },
                    (None, p2) => alias_run(c, p2, family, prefer, in_prefer),
                }
            } else if names(c, name, tag_prefer()) {
                alias_run(c, p, family, prefer, true)
            } else {
                alias_run(c, p, family, prefer, in_prefer)
            },
            (Some(XmlEvent::EndElement { name }), p) => if names(c, name, tag_alias()) {
                (fin, p)
            } else if names(c, name, tag_prefer()) {
                alias_run(c, p, family, prefer, false)
            } else {
                alias_run(c, p, family, prefer, in_prefer)
            },
            (Some(XmlEvent::Text { text: _ }), p) => alias_run(c, p, family, prefer, in_prefer),
        }
    }
}

/// One item read into `cfg`: the position after it, the configuration
/// and the count of `<include>` elements read; none at the end.  `inc[k]`
/// is what the `k`-th `<include>` loaded.
pub open spec fn config_step(c: Seq<u8>, pos: int, cfg: ConfigView, inc: Seq<Option<ConfigView>>, k: int) -> Option<(int, ConfigView, int)> {
    match xml_next(c, pos) {
        (None, _) => None,
        (Some(XmlEvent::StartElement { name, attrs }), p) => Some(
            if names(c, name, tag_dir()) {
                match text_at(c, p) {
                    (Some(t), p2) => if cfg.dirs.len() < MAX_FONT_DIRS && expanded_dir(range_bytes(c, t), range_bytes(c, attrs)).len() > 0 {
                        (p2, ConfigView { dirs: cfg.dirs.push(expanded_dir(range_bytes(c, t), range_bytes(c, attrs))), ..cfg }, k)
                    } else {
                        (p2, cfg, k)
                    },
                    (None, p2) => (p2, cfg, k),
                }
            } else if names(c, name, tag_cachedir()) {
                match text_at(c, p) {
                    (Some(t), p2) => (p2, ConfigView { cache_dir: Some(range_bytes(c, t)), ..cfg }, k),
                    (None, p2) => (p2, cfg, k),
                }
            } else if names(c, name, tag_include()) {
                match text_at(c, p) {
                    (Some(_), p2) => (
                        p2,
                        if 0 <= k < inc.len() && inc[k] is Some {
                            merged(cfg, inc[k]->0)
                        } else {
                            cfg
                        },
                        k + 1,
                    ),
                    (None, p2) => (p2, cfg, k),
                }
            } else if names(c, name, tag_alias()) {
                match alias_run(c, p, None, Seq::empty(), false) {
                    (Some(a), p2) => (p2, ConfigView { aliases: cfg.aliases.push(a), ..cfg }, k),
                    (None, p2) => (p2, cfg, k),
                }
            } else {
                (p, cfg, k)
            },
        ),
        (Some(_), p) => Some((p, cfg, k)),
    }
}

/// The configuration once the items from `pos` on are read into `cfg`.
pub open spec fn config_run(c: Seq<u8>, pos: int, cfg: ConfigView, inc: Seq<Option<ConfigView>>, k: int) -> ConfigView
    decreases c.len() - pos,
{
    match config_step(c, pos, cfg, inc, k) {
        None => cfg,
        Some((p, cfg2, k2)) => if pos < p <= c.len() {
            config_run(c, p, cfg2, inc, k2)
        } else {
            cfg
        },
    }
}

/// The `<include>` paths one item names, and the position after it; none
/// at the end.
pub open spec fn include_step(c: Seq<u8>, pos: int) -> Option<(int, Seq<Seq<u8>>)> {
    match xml_next(c, pos) {
        (None, _) => None,
        (Some(XmlEvent::StartElement { name, attrs: _ }), p) => Some(
            if names(c, name, tag_dir()) || names(c, name, tag_cachedir()) {
                (text_at(c, p).1, Seq::empty())
            } else if names(c, name, tag_include()) {
                match text_at(c, p) {
                    (Some(t), p2) => (p2, seq![range_bytes(c, t)]),
                    (None, p2) => (p2, Seq::empty()),
                }
            } else if names(c, name, tag_alias()) {
                (alias_run(c, p, None, Seq::empty(), false).1, Seq::empty())
            } else {
                (p, Seq::empty())
            },
        ),
        (Some(_), p) => Some((p, Seq::empty())),
    }
}

/// The paths named by the `<include>` elements from `pos` on, in order.
pub open spec fn include_run(c: Seq<u8>, pos: int) -> Seq<Seq<u8>>
    decreases c.len() - pos,
{
    match include_step(c, pos) {
        None => Seq::empty(),
        Some((p, found)) => if pos < p <= c.len() {
            found + include_run(c, p)
        } else {
            Seq::empty()
        },
    }
}

/// The configuration `parse` builds: the items read into an empty
/// configuration, with `/usr/share/fonts` as the only directory where
/// none is named.
pub open spec fn parsed(c: Seq<u8>, inc: Seq<Option<ConfigView>>) -> ConfigView {
    let cfg = config_run(c, 0, ConfigView { dirs: Seq::empty(), aliases: Seq::empty(), cache_dir: None }, inc, 0);
    if cfg.dirs.len() == 0 {
        ConfigView { dirs: seq![default_font_dir()], ..cfg }
    } else {
        cfg
    }
}

pub proof fn lemma_text_at(c: Seq<u8>, pos: int)
    requires
        0 <= pos <= c.len(),
    ensures
        pos <= text_at(c, pos).1 <= c.len(),
        c.len() <= usize::MAX ==> (text_at(c, pos).0 matches Some(t) ==> pos <= t.0 <= t.1 <= c.len()),
{
    lemma_skip_gaps(c, pos);
    let p = skip_gaps(c, pos);
    if p < c.len() {
        lemma_find_from(c, p, seq![60u8]);
        let te = match find_from(c, p, seq![60u8]) {
            Some(e) => e,
            None => c.len() as int,
        };
        if te > p {
            lemma_trim(c, p, te);
        }
    }
}

pub proof fn lemma_alias_run(c: Seq<u8>, pos: int, family: Option<Seq<u8>>, prefer: Seq<Seq<u8>>, in_prefer: bool)
    requires
        0 <= pos <= c.len(),
    ensures
        pos <= alias_run(c, pos, family, prefer, in_prefer).1 <= c.len(),
    decreases c.len() - pos,
{
    lemma_xml_next(c, pos);
    lemma_skip_gaps(c, pos);
    match xml_next(c, pos) {
        (None, p) => {
            lemma_xml_next_none(c, pos);
        },
        (Some(XmlEvent::StartElement { name, attrs: _ }), p) => {
            lemma_text_at(c, p);
            let p2 = text_at(c, p).1;
            if names(c, name, tag_family()) {
                match text_at(c, p) {
                    (Some(t), p2) => {
                        lemma_alias_run(c, p2, Some(range_bytes(c, t)), prefer, in_prefer);
                        lemma_alias_run(c, p2, family, prefer.push(range_bytes(c, t)), in_prefer);
                        lemma_alias_run(c, p2, family, prefer, in_prefer);
                    },
                    (None, p2) => {
                        lemma_alias_run(c, p2, family, prefer, in_prefer);
                    },
                }
            } else {
                lemma_alias_run(c, p, family, prefer, true);
                lemma_alias_run(c, p, family, prefer, in_prefer);
            }
        },
        (Some(XmlEvent::EndElement { name }), p) => {
            lemma_alias_run(c, p, family, prefer, false);
            lemma_alias_run(c, p, family, prefer, in_prefer);
        },
        (Some(XmlEvent::Text { text: _ }), p) => {
            lemma_alias_run(c, p, family, prefer, in_prefer);
        },
    }
}

/// Where no item follows, the position stays within the content.
pub proof fn lemma_xml_next_none(c: Seq<u8>, pos: int)
    requires
        0 <= pos <= c.len(),
    ensures
        pos <= xml_next(c, pos).1 <= c.len(),
    decreases c.len() - pos,
{
    lemma_skip_gaps(c, pos);
    let p = skip_gaps(c, pos);
    if p < c.len() {
        lemma_find_from(c, p, seq![45u8, 45, 62]);
        lemma_find_from(c, p, seq![62u8]);
        lemma_find_from(c, p, seq![60u8]);
        if occurs_at(c, p, seq![60u8, 33, 45, 45]) {
            if let Some(e) = find_from(c, p, seq![45u8, 45, 62]) {
                lemma_xml_next_none(c, e + 3);
            }
        } else if occurs_at(c, p, seq![60u8, 33]) || occurs_at(c, p, seq![60u8, 63]) {
            if let Some(e) = find_from(c, p, seq![62u8]) {
                lemma_xml_next_none(c, e + 1);
            }
        } else if c[p] == 60 {
            if find_from(c, p, seq![62u8]) is None {
                lemma_xml_next_none(c, p + 1);
            }
        } else {
            let te = match find_from(c, p, seq![60u8]) {
                Some(e) => e,
                None => c.len() as int,
            };
            if te > p {
                lemma_trim(c, p, te);
                lemma_xml_next_none(c, te);
            }
        }
    }
}

/// Whether `s` occurs at `at` of `t`.
fn occurs_in(t: &[u8], at: usize, pat: &[u8]) -> (r: bool)
    ensures
        r == occurs_at(t@, at as int, pat@),
{
    if at > t.len() || pat.len() > t.len() - at {
        return false;
    }
    let mut i: usize = 0;
    while i < pat.len()
        invariant
            i <= pat@.len(),
            at + pat@.len() <= t.len(),
            t@.len() == t.len(),
            forall|j: int| 0 <= j < i ==> t@[at + j] == pat@[j],
        decreases pat@.len() - i,
    {
        if t[at + i] != pat[i] {
            assert(t@.subrange(at as int, at + pat@.len())[i as int] != pat@[i as int]);
            return false;
        }
        i = i + 1;
    }
    assert(t@.subrange(at as int, at + pat@.len()) =~= pat@);
    true
}

/// Whether `pat` occurs anywhere in `t`.
pub(crate) fn has_part_exec(t: &[u8], pat: &[u8]) -> (r: bool)
    ensures
        r == has_part(t@, pat@),
{
    let n = t.len();
    if pat.len() == 0 {
        assert(occurs_at(t@, 0, pat@)) by {
            assert(t@.subrange(0, 0) =~= pat@);
        }
        return true;
    }
    let mut i: usize = 0;
    while i < n
        invariant
            i <= n,
            n == t@.len(),
            pat@.len() > 0,
            find_from(t@, 0, pat@) == find_from(t@, i as int, pat@),
        decreases n - i,
    {
        if pat.len() > n - i {
            return false;
        }
        if occurs_in(t, i, pat) {
            return true;
        }
        i = i + 1;
    }
    false
}

/// A copy of bytes `[a, b)` of `c`.
fn copy_range(c: &[u8], a: usize, b: usize) -> (r: Vec<u8>)
    requires
        a <= b <= c@.len(),
    ensures
        r@ == c@.subrange(a as int, b as int),
{
    let mut v: Vec<u8> = Vec::new();
    let mut i = a;
    while i < b
        invariant
            a <= i <= b,
            b <= c@.len(),
            v@ == c@.subrange(a as int, i as int),
        decreases b - i,
    {
        v.push(c[i]);
        i = i + 1;
        assert(v@ =~= c@.subrange(a as int, i as int));
    }
    v
}

/// Whether bytes `[a, b)` of `c` are `pat`.
fn range_is(c: &[u8], r: (usize, usize), pat: &[u8]) -> (res: bool)
    requires
        r.0 <= r.1 <= c@.len(),
    ensures
        res == (range_bytes(c@, r) == pat@),
{
    if r.1 - r.0 != pat.len() {
        assert(range_bytes(c@, r).len() != pat@.len());
        return false;
    }
    let ok = occurs_in(c, r.0, pat);
    assert(ok == (c@.subrange(r.0 as int, r.0 + pat@.len()) == pat@));
    ok
}

pub(crate) fn bytes_equal(a: &Vec<u8>, b: &Vec<u8>) -> (r: bool)
    ensures
        r == (a@ == b@),
{
    if a.len() != b.len() {
        return false;
    }
    let mut i: usize = 0;
    while i < a.len()
        invariant
            i <= a@.len(),
            a@.len() == b@.len(),
            forall|j: int| 0 <= j < i ==> a@[j] == b@[j],
        decreases a@.len() - i,
    {
        if a[i] != b[i] {
            return false;
        }
        i = i + 1;
    }
    assert(a@ =~= b@);
    true
}

fn copy_bytes(a: &Vec<u8>) -> (r: Vec<u8>)
    ensures
        r@ == a@,
{
    let mut v: Vec<u8> = Vec::new();
    let mut i: usize = 0;
    while i < a.len()
        invariant
            i <= a@.len(),
            v@ == a@.take(i as int),
        decreases a@.len() - i,
    {
        v.push(a[i]);
        i = i + 1;
        assert(v@ =~= a@.take(i as int));
    }
    assert(a@.take(a@.len() as int) =~= a@);
    v
}

/// Whether `list` holds `x`.
fn list_contains(list: &Vec<Vec<u8>>, x: &Vec<u8>) -> (r: bool)
    ensures
        r == strs(list@).contains(x@),
{
    let mut i: usize = 0;
    while i < list.len()
        invariant
            i <= list@.len(),
            forall|j: int| 0 <= j < i ==> list@[j]@ != x@,
        decreases list@.len() - i,
    {
        if bytes_equal(&list[i], x) {
            assert(strs(list@)[i as int] == x@);
            return true;
        }
        i = i + 1;
    }
    assert forall|j: int| 0 <= j < strs(list@).len() implies strs(list@)[j] != x@ by {}
    false
}

fn copy_list(list: &Vec<Vec<u8>>) -> (r: Vec<Vec<u8>>)
    ensures
        strs(r@) == strs(list@),
{
    let mut v: Vec<Vec<u8>> = Vec::new();
    let mut i: usize = 0;
    while i < list.len()
        invariant
            i <= list@.len(),
            v@.len() == i,
            forall|k: int| 0 <= k < i ==> v@[k]@ == list@[k]@,
        decreases list@.len() - i,
    {
        v.push(copy_bytes(&list[i]));
        i = i + 1;
    }
    assert(strs(v@) =~= strs(list@));
    v
}

/// Expand font directory path based on prefix attribute (see
/// `expanded_dir`; an empty result means the path is skipped).
pub fn expand_dir_path(path: &[u8], attrs: &[u8]) -> (r: Vec<u8>)
    ensures
        r@ == expanded_dir(path@, attrs@),
{
    let xdg_double: [u8; 12] = [112, 114, 101, 102, 105, 120, 61, 34, 120, 100, 103, 34];
    let xdg_single: [u8; 12] = [112, 114, 101, 102, 105, 120, 61, 39, 120, 100, 103, 39];
    assert(xdg_double@ =~= xdg_attr(34));
    assert(xdg_single@ =~= xdg_attr(39));
    if has_part_exec(attrs, &xdg_double) || has_part_exec(attrs, &xdg_single) {
        let mut out: Vec<u8> = vec![47, 114, 111, 111, 116, 47, 46, 108, 111, 99, 97, 108, 47, 115, 104, 97, 114, 101, 47];
        assert(out@ =~= xdg_home());
        let mut i: usize = 0;
        while i < path.len()
            invariant
                i <= path@.len(),
                out@ == xdg_home() + path@.take(i as int),
            decreases path@.len() - i,
        {
            out.push(path[i]);
            i = i + 1;
            assert(out@ =~= xdg_home() + path@.take(i as int));
        }
        assert(path@.take(path@.len() as int) =~= path@);
        return out;
    }
    if path.len() >= 2 && path[0] == 126 && path[1] == 47 {
        let mut out: Vec<u8> = vec![47, 114, 111, 111, 116];
        assert(out@ =~= root_home());
        let mut i: usize = 1;
        while i < path.len()
            invariant
                1 <= i <= path@.len(),
                out@ == root_home() + path@.subrange(1, i as int),
            decreases path@.len() - i,
        {
            out.push(path[i]);
            i = i + 1;
            assert(out@ =~= root_home() + path@.subrange(1, i as int));
        }
        assert(path@.subrange(1, path@.len() as int) =~= path@.skip(1));
        return out;
    }
    if path.len() == 1 && path[0] == 126 {
        assert(path@ =~= seq![126u8]);
        let out: Vec<u8> = vec![47, 114, 111, 111, 116];
        assert(out@ =~= root_home());
        return out;
    }
    assert(path@.len() == 1 && path@[0] == 126 <==> path@ == seq![126u8]);
    if path.len() == 0 || path[0] != 47 {
        return Vec::new();
    }
    copy_range(path, 0, path.len())
}

pub open spec fn inc_views(v: Seq<Option<FontConfig>>) -> Seq<Option<ConfigView>> {
    v.map_values(|o: Option<FontConfig>| match o {
        Some(f) => Some(f.view()),
        None => None,
    })
}

impl FontConfig {
    /// Create a default configuration: `/usr/share/fonts`,
    /// `/usr/share/fonts/truetype` and `/usr/local/share/fonts`.
    pub fn default() -> (r: Self)
        ensures
            r.view().dirs == seq![
                default_font_dir(),
                default_font_dir() + seq![47u8, 116, 114, 117, 101, 116, 121, 112, 101],
                seq![47u8, 117, 115, 114, 47, 108, 111, 99, 97, 108, 47, 115, 104, 97, 114, 101, 47, 102, 111, 110, 116, 115],
            ],
            r.view().aliases.len() == 0,
            r.view().cache_dir is None,
    {
        let d0: Vec<u8> = vec![47, 117, 115, 114, 47, 115, 104, 97, 114, 101, 47, 102, 111, 110, 116, 115];
        let d1: Vec<u8> = vec![47, 117, 115, 114, 47, 115, 104, 97, 114, 101, 47, 102, 111, 110, 116, 115, 47, 116, 114, 117, 101, 116, 121, 112, 101];
        let d2: Vec<u8> = vec![47, 117, 115, 114, 47, 108, 111, 99, 97, 108, 47, 115, 104, 97, 114, 101, 47, 102, 111, 110, 116, 115];
        assert(d0@ =~= default_font_dir());
        assert(d1@ =~= default_font_dir() + seq![47u8, 116, 114, 117, 101, 116, 121, 112, 101]);
        assert(d2@ =~= seq![47u8, 117, 115, 114, 47, 108, 111, 99, 97, 108, 47, 115, 104, 97, 114, 101, 47, 102, 111, 110, 116, 115]);
        let mut directories: Vec<Vec<u8>> = Vec::new();
        directories.push(d0);
        directories.push(d1);
        directories.push(d2);
        let r = FontConfig { directories, aliases: Vec::new(), cache_dir: None };
        assert(r.view().dirs =~= seq![
            default_font_dir(),
            default_font_dir() + seq![47u8, 116, 114, 117, 101, 116, 121, 112, 101],
            seq![47u8, 117, 115, 114, 47, 108, 111, 99, 97, 108, 47, 115, 104, 97, 114, 101, 47, 102, 111, 110, 116, 115],
        ]);
        r
    }

    /// All font directories
    pub fn get_directories(&self) -> (r: &[Vec<u8>])
        ensures
            strs(r@) == self.view().dirs,
    {
        self.directories.as_slice()
    }

    /// Preferred fonts of the first alias of a family.
    pub fn get_preferred(&self, family: &Vec<u8>) -> (r: Option<&[Vec<u8>]>)
        ensures
            match alias_index(self.view().aliases, family@, self.view().aliases.len() as int) {
                Some(i) => r matches Some(p) && strs(p@) == self.view().aliases[i].prefer,
                None => r is None,
            },
    {
        let mut i: usize = 0;
        while i < self.aliases.len()
            invariant
                i <= self.aliases@.len(),
                alias_index(self.view().aliases, family@, i as int) is None,
            decreases self.aliases@.len() - i,
        {
            if bytes_equal(&self.aliases[i].family, family) {
                proof {
                    lemma_alias_index_stable(self.view().aliases, family@, i + 1, self.aliases@.len() as int);
                }
                return Some(self.aliases[i].prefer.as_slice());
            }
            i = i + 1;
        }
        None
    }

    /// Merge another configuration into this one (see `merged`).
    pub fn merge(&mut self, other: &FontConfig)
        ensures
            final(self).view() == merged(old(self).view(), other.view()),
    {
        let mut i: usize = 0;
        while i < other.directories.len()
            invariant
                i <= other.directories@.len(),
                strs(self.directories@) == merged_dirs(strs(old(self).directories@), strs(other.directories@), i as int),
                self.aliases@ == old(self).aliases@,
                self.cache_dir == old(self).cache_dir,
            decreases other.directories@.len() - i,
        {
            let d = &other.directories[i];
            if self.directories.len() < MAX_FONT_DIRS && !list_contains(&self.directories, d) {
                self.directories.push(copy_bytes(d));
            }
            i = i + 1;
            assert(strs(self.directories@) =~= merged_dirs(strs(old(self).directories@), strs(other.directories@), i as int));
        }
        let mut j: usize = 0;
        while j < other.aliases.len()
            invariant
                j <= other.aliases@.len(),
                strs(self.directories@) == merged_dirs(strs(old(self).directories@), strs(other.directories@), other.directories@.len() as int),
                alias_views(self.aliases@) == merged_aliases(alias_views(old(self).aliases@), alias_views(other.aliases@), j as int),
                self.cache_dir == old(self).cache_dir,
            decreases other.aliases@.len() - j,
        {
            let a = &other.aliases[j];
            let ghost before = alias_views(self.aliases@);
            let mut found: Option<usize> = None;
            let mut k: usize = 0;
            while k < self.aliases.len() && found.is_none()
                invariant
                    k <= self.aliases@.len(),
                    before == alias_views(self.aliases@),
                    found is None ==> alias_index(before, a.family@, k as int) is None,
                    found matches Some(x) ==> alias_index(before, a.family@, before.len() as int) == Some(x as int) && x < self.aliases@.len(),
                decreases self.aliases@.len() - k + (if found is None { 1int } else { 0int }),
            {
                if bytes_equal(&self.aliases[k].family, &a.family) {
                    proof {
                        assert(before[k as int] == self.aliases@[k as int].view());
                        assert(alias_index(before, a.family@, k + 1) == Some(k as int));
                        lemma_alias_index_stable(before, a.family@, k + 1, before.len() as int);
                        assert(before.len() == self.aliases@.len());
                    }
                    found = Some(k);
                } else {
                    k = k + 1;
                }
            }
            assert(found is None ==> alias_index(before, a.family@, before.len() as int) is None);
            match found {
                Some(x) => {
                    let mut existing = FontAlias { family: Vec::new(), prefer: Vec::new() };
                    std::mem::swap(&mut existing, &mut self.aliases[x]);
                    let mut m: usize = 0;
                    while m < a.prefer.len()
                        invariant
                            m <= a.prefer@.len(),
                            existing.family@ == before[x as int].family,
                            strs(existing.prefer@) == merged_prefs(before[x as int].prefer, strs(a.prefer@), m as int),
                        decreases a.prefer@.len() - m,
                    {
                        let p = &a.prefer[m];
                        if existing.prefer.len() < MAX_PREFERENCES && !list_contains(&existing.prefer, p) {
                            existing.prefer.push(copy_bytes(p));
                        }
                        m = m + 1;
                        assert(strs(existing.prefer@) =~= merged_prefs(before[x as int].prefer, strs(a.prefer@), m as int));
                    }
                    self.aliases.set(x, existing);
                    proof {
                        assert(alias_views(other.aliases@)[j as int] == a.view());
                        assert(alias_views(self.aliases@) =~= before.update(x as int, AliasView { family: before[x as int].family, prefer: merged_prefs(before[x as int].prefer, a.view().prefer, a.view().prefer.len() as int) }));
                    }
                },
                None => {
                    proof {
                        assert(alias_views(other.aliases@)[j as int] == a.view());
                    }
                    self.aliases.push(FontAlias { family: copy_bytes(&a.family), prefer: copy_list(&a.prefer) });
                    proof {
                        assert(alias_views(self.aliases@) =~= before.push(a.view()));
                    }
                },
            }
            j = j + 1;
            assert(alias_views(self.aliases@) =~= merged_aliases(alias_views(old(self).aliases@), alias_views(other.aliases@), j as int));
        }
        if self.cache_dir.is_none() {
            self.cache_dir = match &other.cache_dir {
                Some(c) => Some(copy_bytes(c)),
                None => None,
            };
        }
    }
}

proof fn lemma_alias_index_stable(aliases: Seq<AliasView>, family: Seq<u8>, n: int, m: int)
    requires
        0 <= n <= m,
        alias_index(aliases, family, n) is Some,
    ensures
        alias_index(aliases, family, m) == alias_index(aliases, family, n),
    decreases m - n,
{
    if m > n {
        lemma_alias_index_stable(aliases, family, n, m - 1);
    }
}

/// The ranges an item names lie inside the content, in order.
pub open spec fn event_in(c: Seq<u8>, ev: XmlEvent) -> bool {
    match ev {
        XmlEvent::StartElement { name, attrs } => name.0 <= name.1 <= c.len() && attrs.0 <= attrs.1 <= c.len(),
        XmlEvent::EndElement { name } => name.0 <= name.1 <= c.len(),
        XmlEvent::Text { text } => text.0 <= text.1 <= c.len(),
    }
}

pub proof fn lemma_event_in(c: Seq<u8>, pos: int)
    requires
        0 <= pos <= c.len(),
        c.len() <= usize::MAX,
    ensures
        xml_next(c, pos).0 matches Some(ev) ==> event_in(c, ev),
    decreases c.len() - pos,
{
    lemma_skip_gaps(c, pos);
    let p = skip_gaps(c, pos);
    if p < c.len() {
        lemma_find_from(c, p, seq![45u8, 45, 62]);
        lemma_find_from(c, p, seq![62u8]);
        lemma_find_from(c, p, seq![60u8]);
        if occurs_at(c, p, seq![60u8, 33, 45, 45]) {
            if let Some(e) = find_from(c, p, seq![45u8, 45, 62]) {
                lemma_event_in(c, e + 3);
            }
        } else if occurs_at(c, p, seq![60u8, 33]) || occurs_at(c, p, seq![60u8, 63]) {
            if let Some(e) = find_from(c, p, seq![62u8]) {
                lemma_event_in(c, e + 1);
            }
        } else if c[p] == 60 {
            match find_from(c, p, seq![62u8]) {
                Some(e) => {
                    assert(c.subrange(e, e + 1)[0] == 62u8);
                    if occurs_at(c, p, seq![60u8, 47]) {
                        assert(c.subrange(p, p + 2)[1] == 47u8);
                        assert(e != p && e != p + 1);
                        lemma_trim(c, p + 2, e);
                    } else {
                        let ts = p + 1;
                        let te = if e > ts && c[e - 1] == 47 {
                            e - 1
                        } else {
                            e
                        };
                        lemma_trim(c, ts, te);
                        let w = first_space(c, ts, te);
                        lemma_trim(c, ts, w);
                        if w < te {
                            lemma_trim(c, w + 1, te);
                        }
                    }
                },
                None => {
                    lemma_event_in(c, p + 1);
                },
            }
        } else {
            let te = match find_from(c, p, seq![60u8]) {
                Some(e) => e,
                None => c.len() as int,
            };
            if te > p {
                lemma_trim(c, p, te);
                lemma_event_in(c, te);
            }
        }
    }
}

/// Parse an alias element: its family and preferred fonts, up to its end
/// tag (see `alias_run`).
pub fn parse_alias(parser: &mut XmlParser) -> (r: Option<FontAlias>)
    requires
        old(parser).wf(),
    ensures
        final(parser).wf(),
        final(parser).content() == old(parser).content(),
        (match r {
            Some(a) => Some(a.view()),
            None => None,
        }, final(parser).pos()) == alias_run(old(parser).content(), old(parser).pos(), None, Seq::empty(), false),
{
    let ghost c = parser.content();
    let ghost start = parser.pos();
    let mut family: Option<Vec<u8>> = None;
    let mut prefer: Vec<Vec<u8>> = Vec::new();
    let mut in_prefer = false;
    let family_tag: [u8; 6] = [102, 97, 109, 105, 108, 121];
    let prefer_tag: [u8; 6] = [112, 114, 101, 102, 101, 114];
    let alias_tag: [u8; 5] = [97, 108, 105, 97, 115];
    assert(family_tag@ =~= tag_family());
    assert(prefer_tag@ =~= tag_prefer());
    assert(alias_tag@ =~= tag_alias());
    assert(strs(prefer@) =~= Seq::<Seq<u8>>::empty());
    loop
        invariant
            parser.wf(),
            parser.content() == c,
            c == old(parser).content(),
            start == old(parser).pos(),
            family_tag@ == tag_family(),
            prefer_tag@ == tag_prefer(),
            alias_tag@ == tag_alias(),
            alias_run(c, parser.pos(), opt_bytes(family), strs(prefer@), in_prefer) == alias_run(c, start, None, Seq::empty(), false),
        decreases c.len() - parser.pos(),
    {
        let ghost p0 = parser.pos();
        proof {
            lemma_event_in(c, p0);
            lemma_xml_next(c, p0);
        }
        match parser.next() {
            None => {
                return match family {
                    Some(f) => Some(FontAlias { family: f, prefer }),
                    None => None,
                };
            },
            Some(XmlEvent::StartElement { name, attrs: _ }) => {
                if parser.name_is(name, &family_tag) {
                    let ghost p1 = parser.pos();
                    proof {
                        lemma_text_at(c, p1);
                    }
                    match parser.read_text() {
                        Some(t) => {
                            if family.is_none() && !in_prefer {
                                family = Some(parser.copy(t));
                            } else if in_prefer && prefer.len() < MAX_PREFERENCES {
                                let b = parser.copy(t);
                                let ghost before = strs(prefer@);
                                prefer.push(b);
                                assert(strs(prefer@) =~= before.push(b@));
                            }
                        },
                        None => {},
                    }
                } else if parser.name_is(name, &prefer_tag) {
                    in_prefer = true;
                }
            },
            Some(XmlEvent::EndElement { name }) => {
                if parser.name_is(name, &alias_tag) {
                    return match family {
                        Some(f) => Some(FontAlias { family: f, prefer }),
                        None => None,
                    };
                } else if parser.name_is(name, &prefer_tag) {
                    in_prefer = false;
                }
            },
            Some(XmlEvent::Text { text: _ }) => {},
        }
    }
}

impl<'a> XmlParser<'a> {
    /// Whether a range of the content holds `pat`.
    pub fn name_is(&self, r: (usize, usize), pat: &[u8]) -> (res: bool)
        requires
            r.0 <= r.1 <= self.content().len(),
        ensures
            res == names(self.content(), r, pat@),
    {
        range_is(self.content, r, pat)
    }

    /// A copy of a range of the content.
    pub fn copy(&self, r: (usize, usize)) -> (v: Vec<u8>)
        requires
            r.0 <= r.1 <= self.content().len(),
        ensures
            v@ == range_bytes(self.content(), r),
    {
        copy_range(self.content, r.0, r.1)
    }

    /// A range of the content.
    pub fn slice(&self, r: (usize, usize)) -> (s: &'a [u8])
        requires
            r.0 <= r.1 <= self.content().len(),
        ensures
            s@ == range_bytes(self.content(), r),
    {
        vstd::slice::slice_subrange(self.content, r.0, r.1)
    }
}

impl FontConfig {
    /// Read the next item into the configuration; false once there is
    /// none.
    fn parse_step(&mut self, parser: &mut XmlParser, k: &mut usize, included: &[Option<FontConfig>]) -> (more: bool)
        requires
            old(parser).wf(),
            *old(k) <= old(parser).pos(),
        ensures
            final(parser).wf(),
            final(parser).content() == old(parser).content(),
            *final(k) <= final(parser).pos(),
            old(parser).pos() <= final(parser).pos(),
            more ==> old(parser).pos() < final(parser).pos() <= old(parser).content().len(),
            more ==> config_step(old(parser).content(), old(parser).pos(), old(self).view(), inc_views(included@), *old(k) as int)
                == Some((final(parser).pos(), final(self).view(), *final(k) as int)),
            !more ==> config_step(old(parser).content(), old(parser).pos(), old(self).view(), inc_views(included@), *old(k) as int) is None
                && final(self).view() == old(self).view(),
    {
        let ghost c = parser.content();
        let ghost p0 = parser.pos();
        let ghost inc = inc_views(included@);
        proof {
            lemma_event_in(c, p0);
            lemma_xml_next(c, p0);
            lemma_xml_next_none(c, p0);
        }
        let dir_tag: [u8; 3] = [100, 105, 114];
        let cachedir_tag: [u8; 8] = [99, 97, 99, 104, 101, 100, 105, 114];
        let include_tag: [u8; 7] = [105, 110, 99, 108, 117, 100, 101];
        let alias_tag: [u8; 5] = [97, 108, 105, 97, 115];
        assert(dir_tag@ =~= tag_dir());
        assert(cachedir_tag@ =~= tag_cachedir());
        assert(include_tag@ =~= tag_include());
        assert(alias_tag@ =~= tag_alias());
        match parser.next() {
            None => false,
            Some(XmlEvent::StartElement { name, attrs }) => {
                let ghost p1 = parser.pos();
                proof {
                    lemma_text_at(c, p1);
                    lemma_alias_run(c, p1, None, Seq::empty(), false);
                }
                if parser.name_is(name, &dir_tag) {
                    match parser.read_text() {
                        Some(t) => {
                            if self.directories.len() < MAX_FONT_DIRS {
                                let expanded = expand_dir_path(parser.slice(t), parser.slice(attrs));
                                if expanded.len() > 0 {
                                    let ghost before = self.view();
                                    self.directories.push(expanded);
                                    assert(self.view().dirs =~= before.dirs.push(expanded@));
                                    assert(self.view() == ConfigView { dirs: before.dirs.push(expanded@), ..before });
                                }
                            }
                        },
                        None => {},
                    }
                } else if parser.name_is(name, &cachedir_tag) {
                    match parser.read_text() {
                        Some(t) => {
                            self.cache_dir = Some(parser.copy(t));
                        },
                        None => {},
                    }
                } else if parser.name_is(name, &include_tag) {
                    match parser.read_text() {
                        Some(_) => {
                            if *k < included.len() {
                                match &included[*k] {
                                    Some(other) => {
                                        self.merge(other);
                                    },
                                    None => {},
                                }
                            }
                            *k = *k + 1;
                        },
                        None => {},
                    }
                } else if parser.name_is(name, &alias_tag) {
                    match parse_alias(parser) {
                        Some(a) => {
                            let ghost before = self.view();
                            self.aliases.push(a);
                            assert(self.view().aliases =~= before.aliases.push(a.view()));
                        },
                        None => {},
                    }
                }
                true
            },
            Some(_) => true,
        }
    }

    /// Parse the bytes of a configuration file: `None` unless they are
    /// UTF-8 text, else as `parse` does; `included[k]` is the
    /// configuration the `k`-th `<include>` loaded, if any.
    pub fn parse_file(content: &[u8], included: &[Option<FontConfig>]) -> (r: Option<FontConfig>)
        ensures
            r is Some <==> valid_utf8(content@),
            r matches Some(cfg) ==> cfg.view() == parsed(content@, inc_views(included@)),
    {
        match str_from_utf8(content) {
            Some(_) => Some(Self::parse(content, included)),
            None => None,
        }
    }

    /// Parse fontconfig XML content (see `parsed`); `included[k]` is the
    /// configuration the `k`-th `<include>` loaded, if any.
    pub fn parse(content: &[u8], included: &[Option<FontConfig>]) -> (r: FontConfig)
        ensures
            r.view() == parsed(content@, inc_views(included@)),
    {
        let ghost c = content@;
        let ghost inc = inc_views(included@);
        let ghost empty = ConfigView { dirs: Seq::empty(), aliases: Seq::empty(), cache_dir: None };
        let mut config = FontConfig { directories: Vec::new(), aliases: Vec::new(), cache_dir: None };
        assert(config.view().dirs =~= empty.dirs);
        assert(config.view().aliases =~= empty.aliases);
        assert(config.view() == empty);
        let mut parser = XmlParser::new(content);
        let mut k: usize = 0;
        let n = content.len();
        let mut more = true;
        while more
            invariant
                parser.wf(),
                parser.content() == c,
                c == content@,
                c.len() == n,
                inc == inc_views(included@),
                k <= parser.pos(),
                more ==> config_run(c, parser.pos(), config.view(), inc, k as int) == config_run(c, 0, empty, inc, 0),
                !more ==> config.view() == config_run(c, 0, empty, inc, 0),
            decreases n - parser.pos() + (if more { 1int } else { 0int }),
        {
            more = config.parse_step(&mut parser, &mut k, included);
        }
        if config.directories.len() == 0 {
            let d: Vec<u8> = vec![47, 117, 115, 114, 47, 115, 104, 97, 114, 101, 47, 102, 111, 110, 116, 115];
            assert(d@ =~= default_font_dir());
            let ghost before = config.view();
            config.directories.push(d);
            assert(config.view().dirs =~= seq![default_font_dir()]);
        }
        config
    }

    /// The paths the `<include>` elements name, in order (see
    /// `include_run`).
    pub fn include_paths(content: &[u8]) -> (r: Vec<Vec<u8>>)
        ensures
            strs(r@) == include_run(content@, 0),
    {
        let ghost c = content@;
        let mut out: Vec<Vec<u8>> = Vec::new();
        let mut parser = XmlParser::new(content);
        let dir_tag: [u8; 3] = [100, 105, 114];
        let cachedir_tag: [u8; 8] = [99, 97, 99, 104, 101, 100, 105, 114];
        let include_tag: [u8; 7] = [105, 110, 99, 108, 117, 100, 101];
        let alias_tag: [u8; 5] = [97, 108, 105, 97, 115];
        assert(dir_tag@ =~= tag_dir());
        assert(cachedir_tag@ =~= tag_cachedir());
        assert(include_tag@ =~= tag_include());
        assert(alias_tag@ =~= tag_alias());
        let n = content.len();
        let mut more = true;
        assert(strs(out@) =~= Seq::<Seq<u8>>::empty());
        assert(Seq::<Seq<u8>>::empty() + include_run(c, 0) =~= include_run(c, 0));
        while more
            invariant
                parser.wf(),
                parser.content() == c,
                c == content@,
                c.len() == n,
                dir_tag@ == tag_dir(),
                cachedir_tag@ == tag_cachedir(),
                include_tag@ == tag_include(),
                alias_tag@ == tag_alias(),
                more ==> strs(out@) + include_run(c, parser.pos()) == include_run(c, 0),
                !more ==> strs(out@) == include_run(c, 0),
            decreases n - parser.pos() + (if more { 1int } else { 0int }),
        {
            let ghost p0 = parser.pos();
            proof {
                lemma_event_in(c, p0);
                lemma_xml_next(c, p0);
                lemma_xml_next_none(c, p0);
            }
            match parser.next() {
                None => {
                    assert(strs(out@) =~= strs(out@) + include_run(c, p0));
                    more = false;
                },
                Some(XmlEvent::StartElement { name, attrs: _ }) => {
                    let ghost p1 = parser.pos();
                    proof {
                        lemma_text_at(c, p1);
                        lemma_alias_run(c, p1, None, Seq::empty(), false);
                    }
                    if parser.name_is(name, &dir_tag) || parser.name_is(name, &cachedir_tag) {
                        let _ = parser.read_text();
                    } else if parser.name_is(name, &include_tag) {
                        match parser.read_text() {
                            Some(t) => {
                                let ghost before = strs(out@);
                                let b = parser.copy(t);
                                out.push(b);
                                assert(strs(out@) =~= before.push(b@));
                                assert(before.push(b@) + include_run(c, parser.pos()) =~= before + (seq![b@] + include_run(c, parser.pos())));
                            },
                            None => {},
                        }
                    } else if parser.name_is(name, &alias_tag) {
                        let _ = parse_alias(&mut parser);
                    }
                },
                Some(_) => {},
            }
        }
        out
    }
}

} // verus!
