//! The font cache: the bytes of each font that was loaded, by the properties
//! it was asked for.

use vstd::prelude::*;
use crate::shape::{is_shaping_face, shaping_face_parses};
use crate::style::{FontKey, FontProperties};

verus! {

/// Why no font could be had for a style.
#[derive(Clone, Copy, Debug, PartialEq, Eq, Structural)]
pub enum FontError {
    /// The font source has no font for the properties, nor a fallback.
    FontResolutionError,
    /// The font source gave data that is no font to draw or to shape with.
    FontLoadError,
}

/// Whether `ab_glyph` accepts `font_data` as a font with outlines.
pub uninterp spec fn outline_font_parses(font_data: Seq<u8>) -> bool;

/// `ab_glyph::FontRef::try_from_slice`: whether `font_data` parses. The result
/// is a function of the bytes alone.
#[verifier::external_body]
fn is_outline_font(font_data: &[u8]) -> (ok: bool)
    ensures
        ok == outline_font_parses(font_data@),
{
    ab_glyph::FontRef::try_from_slice(font_data).is_ok()
}

/// Font data that both the rasterizer and the shaper accept. Both read the
/// same bytes, so a glyph identifier means the same glyph to both.
pub open spec fn usable_font(font_data: Seq<u8>) -> bool {
    outline_font_parses(font_data) && shaping_face_parses(font_data)
}

/// A loaded font and the properties it was loaded for.
pub struct CachedFont {
    key: FontProperties,
    data: Vec<u8>,
}

/// The fonts loaded so far. Nothing is ever evicted.
pub struct FontManager {
    cached_fonts: Vec<CachedFont>,
}

impl FontManager {
    spec fn position(&self, key: FontKey) -> int {
        choose|i: int| 0 <= i < self.cached_fonts.len() && (#[trigger] self.cached_fonts[i]).key@ == key
    }

    /// The cache as a map from properties to font data.
    pub closed spec fn view(&self) -> Map<FontKey, Seq<u8>> {
        Map::new(
            |key: FontKey|
                exists|i: int|
                    0 <= i < self.cached_fonts.len() && (#[trigger] self.cached_fonts[i]).key@
                        == key,
            |key: FontKey| self.cached_fonts[self.position(key)].data@,
        )
    }

    /// No properties are cached twice, and every cached font is usable.
    pub closed spec fn wf(&self) -> bool {
        &&& forall|i: int, j: int|
            0 <= i < j < self.cached_fonts.len() ==> (#[trigger] self.cached_fonts[i]).key@ != (
            #[trigger] self.cached_fonts[j]).key@
        &&& forall|i: int|
            0 <= i < self.cached_fonts.len() ==> usable_font((#[trigger] self.cached_fonts[i]).data@)
    }

    /// Every font in a well-formed cache is usable.
    pub proof fn lemma_cached_fonts_usable(&self, key: FontKey)
        requires
            self.wf(),
            self@.contains_key(key),
        ensures
            usable_font(self@[key]),
    {
    }

    /// An empty cache.
    pub fn new() -> (manager: Self)
        ensures
            manager.wf(),
            manager@ == Map::<FontKey, Seq<u8>>::empty(),
    {
        let manager = FontManager { cached_fonts: Vec::new() };
        assert(manager@ =~= Map::<FontKey, Seq<u8>>::empty());
        manager
    }

    fn find(&self, font_properties: &FontProperties) -> (found: Option<usize>)
        requires
            self.wf(),
        ensures
            found is Some <==> self@.contains_key(font_properties@),
            found is Some ==> found->0 < self.cached_fonts.len() && self.cached_fonts[found->0 as int].key@
                == font_properties@ && self.cached_fonts[found->0 as int].data@
                == self@[font_properties@],
    {
        let mut i: usize = 0;
        while i < self.cached_fonts.len()
            invariant
                self.wf(),
                i <= self.cached_fonts.len(),
                forall|j: int| 0 <= j < i ==> (#[trigger] self.cached_fonts[j]).key@ != font_properties@,
            decreases self.cached_fonts.len() - i,
        {
            if self.cached_fonts[i].key == *font_properties {
                proof {
                    let j = self.position(font_properties@);
                    assert(self.cached_fonts[i as int].key@ == font_properties@);
                    assert(self.cached_fonts[j].key@ == font_properties@);
                    assert(i == j);
                }
                return Some(i);
            }
            i += 1;
        }
        None
    }

    /// The cached font for `font_properties`, if one was loaded.
    pub fn get_fonts(&self, font_properties: &FontProperties) -> (found: Option<&Vec<u8>>)
        requires
            self.wf(),
        ensures
            found is Some <==> self@.contains_key(font_properties@),
            found is Some ==> found->0@ == self@[font_properties@],
    {
        match self.find(font_properties) {
            Some(i) => Some(&self.cached_fonts[i].data),
            None => None,
        }
    }

    /// Takes what the font source answered for `font_properties` into the
    /// cache. Properties that are cached already keep their font and the answer
    /// is dropped. Otherwise no answer is a resolution error, data that is no
    /// usable font is a load error, and a usable font is kept from now on.
    pub fn load(&mut self, font_properties: &FontProperties, answer: Option<Vec<u8>>) -> (loaded:
        Result<(), FontError>)
        requires
            old(self).wf(),
        ensures
            final(self).wf(),
            final(self)@ == load_result(old(self)@, font_properties@, answer).0,
            loaded == load_result(old(self)@, font_properties@, answer).1,
    {
        if self.find(font_properties).is_some() {
            return Ok(());
        }
        match answer {
            None => Err(FontError::FontResolutionError),
            Some(data) => {
                if is_outline_font(data.as_slice()) && is_shaping_face(data.as_slice()) {
                    let ghost before = *self;
                    self.cached_fonts.push(CachedFont { key: font_properties.clone(), data });
                    proof {
                        let n = before.cached_fonts.len() as int;
                        assert(forall|i: int|
                            0 <= i < n ==> self.cached_fonts[i] == before.cached_fonts[i]);
                        assert(self.cached_fonts[n].key@ == font_properties@);
                        assert forall|key: FontKey| #[trigger]
                            self@.contains_key(key) <==> before@.insert(
                                font_properties@,
                                data@,
                            ).contains_key(key) by {
                            if before@.contains_key(key) {
                                let i = before.position(key);
                                assert(self.cached_fonts[i].key@ == key);
                            }
                        }
                        assert forall|key: FontKey| #[trigger] self@.contains_key(key) implies self@[key]
                            == before@.insert(font_properties@, data@)[key] by {
                            let i = self.position(key);
                            if key != font_properties@ {
                                assert(before.cached_fonts[i].key@ == key);
                                let j = before.position(key);
                                assert(self.cached_fonts[j].key@ == key);
                            }
                        }
                        assert(self@ =~= before@.insert(font_properties@, data@));
                    }
                    Ok(())
                } else {
                    Err(FontError::FontLoadError)
                }
            },
        }
    }
}

/// The cache and the result after the font source's `answer` for `key` was
/// taken into `cache`.
pub open spec fn load_result(cache: Map<FontKey, Seq<u8>>, key: FontKey, answer: Option<Vec<u8>>) -> (
    Map<FontKey, Seq<u8>>,
    Result<(), FontError>,
) {
    if cache.contains_key(key) {
        (cache, Ok(()))
    } else {
        match answer {
            None => (cache, Err(FontError::FontResolutionError)),
            Some(data) => if usable_font(data@) {
                (cache.insert(key, data@), Ok(()))
            } else {
                (cache, Err(FontError::FontLoadError))
            },
        }
    }
}

} // verus!
