//! Which font a character is drawn with: the primary sans font where it has the
//! character, else a fallback that covers it (CJK, Arabic and other scripts), so
//! non-Latin titles render instead of showing blanks.

use crate::assoc::{AssocMap, Atom};
use crate::document::text_view;
use crate::picker::bytes_of;
use crate::text::{char_is_white, is_white, same_text};
use ab_glyph::{Font, FontVec};
use vstd::prelude::*;

verus! {

// === Fonts ===

/// A parsed font.
#[verifier::external_type_specification]
#[verifier::external_body]
pub struct ExFontVec(ab_glyph::FontVec);

/// Why bytes are no font.
#[verifier::external_type_specification]
#[verifier::external_body]
pub struct ExInvalidFont(ab_glyph::InvalidFont);

/// The number of the glyph a parsed font has for each character.
pub uninterp spec fn glyphs(font: FontVec) -> Map<char, u16>;

/// The number of the glyph that font data gives each character; nothing where the
/// data is no font.
pub uninterp spec fn font_glyphs(data: Seq<u8>) -> Option<Map<char, u16>>;

/// `FontVec::try_from_vec`: parses exactly the data that has glyphs, into a font
/// with those glyphs.
#[verifier::external_body]
pub(crate) fn parse_font(data: Vec<u8>) -> (r: Result<FontVec, ab_glyph::InvalidFont>)
    ensures
        match r {
            Ok(font) => font_glyphs(data@) == Some(glyphs(font)),
            Err(_) => font_glyphs(data@) is None,
        },
{
    FontVec::try_from_vec(data)
}

/// `Font::glyph_id`: the number of the glyph for a character.
#[verifier::external_body]
pub(crate) fn glyph_number(font: &FontVec, c: char) -> (r: u16)
    ensures
        r == glyphs(*font)[c],
{
    font.glyph_id(c).0
}

/// The glyphs of each font.
pub open spec fn all_glyphs(fonts: Seq<FontVec>) -> Seq<Map<char, u16>> {
    fonts.map_values(|f: FontVec| glyphs(f))
}

// === Choosing ===

impl Atom for char {
    fn same(&self, other: &char) -> (r: bool) {
        *self == *other
    }
}

impl Atom for String {
    fn same(&self, other: &String) -> (r: bool) {
        same_text(self.as_str(), other.as_str())
    }
}

/// The fonts at hand, with what was found out about them.
#[derive(Debug)]
pub struct FontBook {
    fonts: Vec<FontVec>,
    /// Loaded fallback font files, so that none is loaded twice.
    loaded: AssocMap<String, usize>,
    /// The font of each character that was asked for.
    cache: AssocMap<char, usize>,
}

/// What a [`FontBook`] holds.
pub struct FontBookView {
    pub fonts: Seq<Map<char, u16>>,
    pub loaded: Map<Seq<char>, usize>,
    pub cache: Map<char, usize>,
}

impl View for FontBook {
    type V = FontBookView;

    closed spec fn view(&self) -> FontBookView {
        FontBookView {
            fonts: all_glyphs(self.fonts@),
            loaded: self.loaded@,
            cache: self.cache@,
        }
    }
}

impl FontBookView {
    /// There is a primary font, and every number that is kept is that of a font.
    pub open spec fn wf(self) -> bool {
        &&& self.fonts.len() > 0
        &&& forall|path: Seq<char>| #[trigger]
            self.loaded.contains_key(path) ==> self.loaded[path] < self.fonts.len()
        &&& forall|c: char| #[trigger]
            self.cache.contains_key(c) ==> self.cache[c] < self.fonts.len()
    }
}

/// The first font from number `i` on that has a character.
pub open spec fn covering_from(fonts: Seq<Map<char, u16>>, c: char, i: int) -> Option<int>
    decreases fonts.len() - i,
{
    if i < 0 || i >= fonts.len() {
        None
    } else if fonts[i][c] != 0 {
        Some(i)
    } else {
        covering_from(fonts, c, i + 1)
    }
}

/// The font among those at hand that a character is drawn with: the primary for
/// white space, else the first that has it.
pub open spec fn font_at_hand(fonts: Seq<Map<char, u16>>, c: char) -> Option<int> {
    if is_white(c) {
        Some(0)
    } else {
        covering_from(fonts, c, 0)
    }
}

/// The book with the font of a character noted.
pub open spec fn noted(b: FontBookView, c: char, i: usize) -> FontBookView {
    FontBookView { cache: b.cache.insert(c, i), ..b }
}

/// The font of a fallback file for a character: one that was loaded before, or the
/// file itself where it is a font that has the character, or else the primary.
pub open spec fn fallback(
    b: FontBookView,
    c: char,
    path: Option<Seq<char>>,
    data: Option<Seq<u8>>,
) -> (FontBookView, int) {
    match path {
        None => (b, 0),
        Some(p) => if b.loaded.contains_key(p) {
            (b, b.loaded[p] as int)
        } else {
            match data {
                Some(bytes) => match font_glyphs(bytes) {
                    Some(g) if g[c] != 0 => (
                        FontBookView {
                            fonts: b.fonts.push(g),
                            loaded: b.loaded.insert(p, b.fonts.len() as usize),
                            ..b
                        },
                        b.fonts.len() as int,
                    ),
                    _ => (b, 0),
                },
                None => (b, 0),
            }
        },
    }
}

proof fn lemma_noting_keeps_wf(b: FontBookView, c: char, i: usize)
    requires
        b.wf(),
        i < b.fonts.len(),
    ensures
        noted(b, c, i).wf(),
{
    let after = noted(b, c, i);
    assert forall|d: char| #[trigger] after.cache.contains_key(d) implies after.cache[d]
        < after.fonts.len() by {
        assert(d == c || b.cache.contains_key(d));
    }
}

proof fn lemma_falling_back_keeps_wf(
    b: FontBookView,
    c: char,
    path: Option<Seq<char>>,
    data: Option<Seq<u8>>,
)
    requires
        b.wf(),
        b.fonts.len() < usize::MAX,
    ensures
        fallback(b, c, path, data).0.wf(),
        0 <= fallback(b, c, path, data).1 < fallback(b, c, path, data).0.fonts.len(),
{
    let after = fallback(b, c, path, data).0;
    assert forall|p: Seq<char>| #[trigger] after.loaded.contains_key(p) implies after.loaded[p]
        < after.fonts.len() by {
        assert(path == Some(p) || b.loaded.contains_key(p));
    }
    assert forall|d: char| #[trigger] after.cache.contains_key(d) implies after.cache[d]
        < after.fonts.len() by {
        assert(b.cache.contains_key(d));
    }
}

impl FontBook {
    /// A book with a primary font only, where the data is a font.
    pub fn new(data: Vec<u8>) -> (r: Option<FontBook>)
        ensures
            match (r, font_glyphs(data@)) {
                (Some(book), Some(g)) => book@ == (FontBookView {
                    fonts: seq![g],
                    loaded: Map::empty(),
                    cache: Map::empty(),
                }),
                (None, None) => true,
                _ => false,
            },
    {
        match parse_font(data) {
            Ok(font) => {
                let mut fonts: Vec<FontVec> = Vec::new();
                fonts.push(font);
                assert(all_glyphs(fonts@) =~= seq![glyphs(font)]);
                Some(FontBook { fonts, loaded: AssocMap::new(), cache: AssocMap::new() })
            },
            Err(_) => None,
        }
    }

    /// How many fonts there are.
    pub fn len(&self) -> (r: usize)
        ensures
            r == self@.fonts.len(),
    {
        self.fonts.len()
    }

    /// The font number `i`.
    pub fn font(&self, i: usize) -> (r: &FontVec)
        requires
            i < self@.fonts.len(),
        ensures
            glyphs(*r) == self@.fonts[i as int],
    {
        &self.fonts[i]
    }

    /// The number of the font that a character is drawn with, as far as the fonts at
    /// hand go; `None` where a fallback has to be looked for.
    pub fn find(&mut self, c: char) -> (r: Option<usize>)
        requires
            old(self)@.wf(),
        ensures
            final(self)@.wf(),
            if old(self)@.cache.contains_key(c) {
                r == Some(old(self)@.cache[c]) && final(self)@ == old(self)@
            } else {
                match font_at_hand(old(self)@.fonts, c) {
                    Some(i) => r == Some(i as usize) && final(self)@ == noted(
                        old(self)@,
                        c,
                        i as usize,
                    ),
                    None => r is None && final(self)@ == old(self)@,
                }
            },
    {
        if let Some(i) = self.cache.get(&c) {
            return Some(*i);
        }
        if char_is_white(c) {
            proof {
                lemma_noting_keeps_wf(self@, c, 0);
            }
            self.cache.insert(c, 0);
            return Some(0);
        }
        let mut i: usize = 0;
        while i < self.fonts.len()
            invariant
                i <= self.fonts@.len(),
                *self == *old(self),
                self@.wf(),
                !self@.cache.contains_key(c),
                !is_white(c),
                covering_from(self@.fonts, c, 0) == covering_from(self@.fonts, c, i as int),
            decreases self.fonts@.len() - i,
        {
            assert(self@.fonts[i as int] == glyphs(self.fonts@[i as int]));
            if glyph_number(&self.fonts[i], c) != 0 {
                proof {
                    lemma_noting_keeps_wf(self@, c, i);
                }
                self.cache.insert(c, i);
                return Some(i);
            }
            i = i + 1;
        }
        None
    }

    /// Whether a fallback file was loaded before.
    pub fn is_loaded(&self, path: &String) -> (r: bool)
        ensures
            r == self@.loaded.contains_key(path@),
    {
        self.loaded.contains_key(path)
    }

    /// Settle a character that none of the fonts at hand has, with the fallback file
    /// that was found for it and, unless that was loaded before, its data.
    pub fn settle(&mut self, c: char, path: Option<String>, data: Option<Vec<u8>>) -> (r: usize)
        requires
            old(self)@.wf(),
            old(self)@.fonts.len() < usize::MAX,
        ensures
            final(self)@.wf(),
            ({
                let (b, i) = fallback(
                    old(self)@,
                    c,
                    text_view(path),
                    bytes_of(data),
                );
                r == i && final(self)@ == noted(b, c, r)
            }),
    {
        let ghost sought = text_view(path);
        let ghost found = bytes_of(data);
        let mut chosen: usize = 0;
        if let Some(p) = path {
            if let Some(i) = self.loaded.get(&p) {
                chosen = *i;
            } else if let Some(bytes) = data {
                if let Ok(font) = parse_font(bytes) {
                    if glyph_number(&font, c) != 0 {
                        chosen = self.fonts.len();
                        let ghost before = self@.fonts;
                        self.fonts.push(font);
                        assert(all_glyphs(self.fonts@) =~= before.push(glyphs(font)));
                        self.loaded.insert(p, chosen);
                    }
                }
            }
        }
        proof {
            lemma_falling_back_keeps_wf(old(self)@, c, sought, found);
            assert(self@ == fallback(old(self)@, c, sought, found).0);
            lemma_noting_keeps_wf(self@, c, chosen);
        }
        self.cache.insert(c, chosen);
        chosen
    }
}

// === Laws ===

/// A character is drawn with a font that has it, wherever one at hand does, and with
/// the primary one before all others.
pub proof fn covered_characters_are_drawn(fonts: Seq<Map<char, u16>>, c: char)
    requires
        !is_white(c),
    ensures
        match font_at_hand(fonts, c) {
            Some(i) => 0 <= i < fonts.len() && fonts[i][c] != 0 && forall|k: int|
                0 <= k < i ==> (#[trigger] fonts[k])[c] == 0,
            None => forall|k: int| 0 <= k < fonts.len() ==> (#[trigger] fonts[k])[c] == 0,
        },
{
    lemma_covering(fonts, c, 0);
}

proof fn lemma_covering(fonts: Seq<Map<char, u16>>, c: char, i: int)
    requires
        0 <= i <= fonts.len(),
    ensures
        match covering_from(fonts, c, i) {
            Some(j) => i <= j < fonts.len() && fonts[j][c] != 0 && forall|k: int|
                i <= k < j ==> (#[trigger] fonts[k])[c] == 0,
            None => forall|k: int| i <= k < fonts.len() ==> (#[trigger] fonts[k])[c] == 0,
        },
    decreases fonts.len() - i,
{
    if i < fonts.len() && fonts[i][c] == 0 {
        lemma_covering(fonts, c, i + 1);
    }
}

/// A character is settled once: asking again gives the same font.
pub proof fn characters_stay_settled(
    b: FontBookView,
    c: char,
    path: Option<Seq<char>>,
    data: Option<Seq<u8>>,
)
    requires
        b.wf(),
        b.fonts.len() < usize::MAX,
    ensures
        ({
            let (after, i) = fallback(b, c, path, data);
            noted(after, c, i as usize).cache[c] == i
        }),
{
}

} // verus!
