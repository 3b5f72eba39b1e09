//! Turning the characters of a word into positioned glyphs of a font.

use vstd::prelude::*;

verus! {

/// One glyph of a shaped word. Advances and offsets are in the font's own units.
#[derive(Clone, Copy, Debug, PartialEq, Eq, Structural)]
pub struct ShapedGlyph {
    pub glyph_id: u32,
    pub x_advance: i32,
    pub x_offset: i32,
    pub y_offset: i32,
}

/// Whether `rustybuzz` accepts `font_data` as a font to shape with.
pub uninterp spec fn shaping_face_parses(font_data: Seq<u8>) -> bool;

/// The glyphs that `rustybuzz` gives for `text` in the font `font_data`.
pub uninterp spec fn shaped_glyphs(font_data: Seq<u8>, text: Seq<char>) -> Seq<ShapedGlyph>;

/// `rustybuzz::Face::from_slice` on the first face of `font_data`: whether the
/// data parses. The result is a function of the bytes alone.
#[verifier::external_body]
pub(crate) fn is_shaping_face(font_data: &[u8]) -> (ok: bool)
    ensures
        ok == shaping_face_parses(font_data@),
{
    rustybuzz::Face::from_slice(font_data, 0).is_some()
}

/// `rustybuzz::shape` on `text`, without features, in the first face of
/// `font_data`. The face is parsed from the bytes for the call, which is why
/// the bytes have to parse. Script and direction are guessed from the text,
/// so the glyphs are a function of the bytes and the text alone. Of each
/// glyph the identifier, the horizontal advance and the two offsets are
/// handed out.
#[verifier::external_body]
pub(crate) fn shape_in_face(font_data: &[u8], text: &str) -> (glyphs: Vec<ShapedGlyph>)
    requires
        shaping_face_parses(font_data@),
    ensures
        glyphs@ == shaped_glyphs(font_data@, text@),
{
    let face = rustybuzz::Face::from_slice(font_data, 0).unwrap();
    let mut buffer = rustybuzz::UnicodeBuffer::new();
    buffer.push_str(text);
    let shaped = rustybuzz::shape(&face, &[], buffer);
    let glyphs = shaped.glyph_infos().iter().zip(shaped.glyph_positions().iter());
    glyphs.map(|(info, pos)| ShapedGlyph {
        glyph_id: info.glyph_id,
        x_advance: pos.x_advance,
        x_offset: pos.x_offset,
        y_offset: pos.y_offset,
    }).collect()
}

/// The horizontal advances of `glyphs` added up.
pub open spec fn advance_sum(glyphs: Seq<ShapedGlyph>) -> int
    decreases glyphs.len(),
{
    if glyphs.len() == 0 {
        0
    } else {
        advance_sum(glyphs.drop_last()) + glyphs.last().x_advance
    }
}

proof fn lemma_advance_sum_bounds(glyphs: Seq<ShapedGlyph>)
    ensures
        -0x8000_0000 * glyphs.len() <= advance_sum(glyphs) <= 0x7fff_ffff * glyphs.len(),
    decreases glyphs.len(),
{
    if glyphs.len() > 0 {
        lemma_advance_sum_bounds(glyphs.drop_last());
    }
}

/// The unscaled width of a shaped word: the sum of its glyphs' advances, where
/// that sum is a 32-bit number.
pub fn advance_width(glyphs: &Vec<ShapedGlyph>) -> (total: Option<i32>)
    ensures
        total is Some <==> i32::MIN <= advance_sum(glyphs@) <= i32::MAX,
        total is Some ==> total->0 == advance_sum(glyphs@),
{
    let mut sum: i128 = 0;
    let mut i: usize = 0;
    while i < glyphs.len()
        invariant
            i <= glyphs.len(),
            sum == advance_sum(glyphs@.take(i as int)),
        decreases glyphs.len() - i,
    {
        proof {
            lemma_advance_sum_bounds(glyphs@.take(i as int));
            assert(glyphs@.take(i + 1).drop_last() == glyphs@.take(i as int));
        }
        sum = sum + glyphs[i].x_advance as i128;
        i += 1;
    }
    assert(glyphs@.take(glyphs.len() as int) == glyphs@);
    if sum < -0x8000_0000 || sum > 0x7fff_ffff {
        None
    } else {
        Some(sum as i32)
    }
}

} // verus!
