//! Line-breaking layout: from tokens to shaped words, and from measured words
//! to positioned glyph runs.

use vstd::prelude::*;
use crate::font::{FontError, FontManager};
use crate::shape::{shape_in_face, shaped_glyphs, shaping_face_parses, ShapedGlyph};
use crate::style::{default_key, FontKey, FontProperties, FontSize, FontStyle, FontWeight};
use crate::text::{split_words, string_views, words_of};
use crate::token::{token_views, Token, TokenView};

verus! {

/// The margin left and right of the text, in pixels.
pub const HSTEP: u32 = 40;

/// The margin above the first baseline, in pixels.
pub const VSTEP: u32 = 40;

/// The size that text is set in, in points.
pub const FONT_SIZE: u32 = 16;

/// A word in its font, shaped.
#[derive(Debug)]
pub struct ShapedWord {
    pub glyphs: Vec<ShapedGlyph>,
    pub font: FontProperties,
    pub size: FontSize,
}

/// A `ShapedWord` with its glyphs as a sequence and its font as a key.
pub struct ShapedWordView {
    pub glyphs: Seq<ShapedGlyph>,
    pub font: FontKey,
    pub size: FontSize,
}

impl View for ShapedWord {
    type V = ShapedWordView;

    open spec fn view(&self) -> ShapedWordView {
        ShapedWordView { glyphs: self.glyphs@, font: self.font@, size: self.size }
    }
}

/// The pixel measures of one word in its font at its size: the width of the
/// word, the width of a space after it, and the distance to the next baseline.
#[derive(Clone, Copy, Debug, PartialEq, Eq, Structural)]
pub struct WordMetrics {
    pub width: u32,
    pub space: u32,
    pub line_height: u32,
}

/// A shaped word with its pixel measures.
#[derive(Debug)]
pub struct MeasuredWord {
    pub word: ShapedWord,
    pub metrics: WordMetrics,
}

/// A `MeasuredWord` with the view of its word.
pub struct MeasuredWordView {
    pub word: ShapedWordView,
    pub metrics: WordMetrics,
}

impl View for MeasuredWord {
    type V = MeasuredWordView;

    open spec fn view(&self) -> MeasuredWordView {
        MeasuredWordView { word: self.word@, metrics: self.metrics }
    }
}

/// One word on the page: its glyphs, where its first glyph starts, the baseline
/// it stands on, and the font and size it is drawn in.
#[derive(Debug)]
pub struct GlyphRun {
    pub glyphs: Vec<ShapedGlyph>,
    pub origin_x: u32,
    pub baseline_y: u32,
    pub font: FontProperties,
    pub size: FontSize,
}

/// A `GlyphRun` with its glyphs as a sequence, its place as integers and
/// its font as a key.
pub struct GlyphRunView {
    pub glyphs: Seq<ShapedGlyph>,
    pub origin_x: int,
    pub baseline_y: int,
    pub font: FontKey,
    pub size: FontSize,
}

impl View for GlyphRun {
    type V = GlyphRunView;

    open spec fn view(&self) -> GlyphRunView {
        GlyphRunView {
            glyphs: self.glyphs@,
            origin_x: self.origin_x as int,
            baseline_y: self.baseline_y as int,
            font: self.font@,
            size: self.size,
        }
    }
}

/// The style after the tag `name`: `i` and `/i` switch italics on and off, `b`
/// and `/b` bold; any other tag changes nothing.
pub open spec fn style_after_tag(style: FontKey, name: Seq<char>) -> FontKey {
    if name == "i"@ {
        FontKey { style: FontStyle::Italic, ..style }
    } else if name == "/i"@ {
        FontKey { style: FontStyle::Normal, ..style }
    } else if name == "b"@ {
        FontKey { weight: FontWeight::Bold, ..style }
    } else if name == "/b"@ {
        FontKey { weight: FontWeight::Normal, ..style }
    } else {
        style
    }
}

/// The style after all the tags among `tokens`, from `start` on.
pub open spec fn style_after(start: FontKey, tokens: Seq<TokenView>) -> FontKey
    decreases tokens.len(),
{
    if tokens.len() == 0 {
        start
    } else {
        match tokens.last() {
            TokenView::Tag(name) => style_after_tag(style_after(start, tokens.drop_last()), name),
            TokenView::Text(_) => style_after(start, tokens.drop_last()),
        }
    }
}

/// A word of the text with the style it stands in.
pub struct StyledWord {
    pub text: Seq<char>,
    pub font: FontKey,
    pub size: FontSize,
}

/// The words of `text`, each in the style `font` at `size`.
pub open spec fn words_in_style(text: Seq<char>, font: FontKey, size: FontSize) -> Seq<StyledWord> {
    Seq::new(words_of(text).len(), |i: int| StyledWord { text: words_of(text)[i], font, size })
}

/// The words of all the text among `tokens` in reading order, each in the
/// style that the tags before it have left, from `start` on.
pub open spec fn styled_words(start: FontKey, size: FontSize, tokens: Seq<TokenView>) -> Seq<
    StyledWord,
>
    decreases tokens.len(),
{
    if tokens.len() == 0 {
        Seq::empty()
    } else {
        let before = styled_words(start, size, tokens.drop_last());
        match tokens.last() {
            TokenView::Tag(_) => before,
            TokenView::Text(content) => before + words_in_style(
                content,
                style_after(start, tokens.drop_last()),
                size,
            ),
        }
    }
}

/// Every style that a word of `words` stands in has a font in `fonts`.
pub open spec fn fonts_present(fonts: Map<FontKey, Seq<u8>>, words: Seq<StyledWord>) -> bool {
    forall|i: int| 0 <= i < words.len() ==> fonts.contains_key((#[trigger] words[i]).font)
}

/// The style of the first of `words` that has no font in `fonts`.
pub open spec fn first_missing(fonts: Map<FontKey, Seq<u8>>, words: Seq<StyledWord>) -> Option<
    FontKey,
>
    decreases words.len(),
{
    if words.len() == 0 {
        None
    } else {
        match first_missing(fonts, words.drop_last()) {
            Some(font) => Some(font),
            None => if fonts.contains_key(words.last().font) {
                None
            } else {
                Some(words.last().font)
            },
        }
    }
}

/// `word` shaped in the font `font_data`.
pub open spec fn shaped_in(font_data: Seq<u8>, word: StyledWord) -> ShapedWordView {
    ShapedWordView {
        glyphs: shaped_glyphs(font_data, word.text),
        font: word.font,
        size: word.size,
    }
}

/// Each of `words` shaped in the font that `fonts` holds for its style.
pub open spec fn shaped_all(fonts: Map<FontKey, Seq<u8>>, words: Seq<StyledWord>) -> Seq<
    ShapedWordView,
> {
    Seq::new(words.len(), |i: int| shaped_in(fonts[words[i].font], words[i]))
}

/// Each of `words` shaped in the one font `font_data`.
pub open spec fn shaped_each(font_data: Seq<u8>, words: Seq<StyledWord>) -> Seq<ShapedWordView> {
    Seq::new(words.len(), |i: int| shaped_in(font_data, words[i]))
}

/// The views of a sequence of shaped words, in order.
pub open spec fn shaped_views(words: Seq<ShapedWord>) -> Seq<ShapedWordView> {
    words.map_values(|w: ShapedWord| w@)
}

/// Where the next word would start: `x` from the left edge, `y` the baseline.
pub struct Cursor {
    pub x: int,
    pub y: int,
}

/// A word of width `metrics.width` at `cursor` would reach the right margin of
/// a window `window_width` wide, so it goes to the next line.
pub open spec fn breaks_line(window_width: int, cursor: Cursor, metrics: WordMetrics) -> bool {
    cursor.x + metrics.width >= window_width - HSTEP
}

/// Where a word with `metrics` is put when the cursor is at `cursor`: there,
/// or at the left margin of the next line.
pub open spec fn origin_of(window_width: int, cursor: Cursor, metrics: WordMetrics) -> Cursor {
    if breaks_line(window_width, cursor, metrics) {
        Cursor { x: HSTEP as int, y: cursor.y + metrics.line_height }
    } else {
        cursor
    }
}

/// The cursor after a word with `metrics` was put: behind the word and a space.
pub open spec fn cursor_past(window_width: int, cursor: Cursor, metrics: WordMetrics) -> Cursor {
    let origin = origin_of(window_width, cursor, metrics);
    Cursor { x: origin.x + metrics.width + metrics.space, y: origin.y }
}

/// The cursor after all of `words` were put, one after the other, from `start` on.
pub open spec fn cursor_after(window_width: int, start: Cursor, words: Seq<MeasuredWordView>) -> Cursor
    decreases words.len(),
{
    if words.len() == 0 {
        start
    } else {
        cursor_past(
            window_width,
            cursor_after(window_width, start, words.drop_last()),
            words.last().metrics,
        )
    }
}

/// The run that `word` makes when the cursor is at `cursor`.
pub open spec fn run_of(window_width: int, cursor: Cursor, word: MeasuredWordView) -> GlyphRunView {
    let origin = origin_of(window_width, cursor, word.metrics);
    GlyphRunView {
        glyphs: word.word.glyphs,
        origin_x: origin.x,
        baseline_y: origin.y,
        font: word.word.font,
        size: word.word.size,
    }
}

/// The display list of `words`: one run for each word, in order, each put
/// where the words before it have left the cursor.
pub open spec fn runs_of(window_width: int, start: Cursor, words: Seq<MeasuredWordView>) -> Seq<
    GlyphRunView,
> {
    Seq::new(
        words.len(),
        |i: int| run_of(window_width, cursor_after(window_width, start, words.take(i)), words[i]),
    )
}

/// A cursor that 32-bit coordinates can hold.
pub open spec fn in_range(cursor: Cursor) -> bool {
    0 <= cursor.x <= u32::MAX && 0 <= cursor.y <= u32::MAX
}

/// Putting `words` one after the other from `start` on never moves the cursor
/// out of the range of 32-bit coordinates.
pub open spec fn fits(window_width: int, start: Cursor, words: Seq<MeasuredWordView>) -> bool {
    forall|i: int|
        0 <= i <= words.len() ==> in_range(
            cursor_after(window_width, start, #[trigger] words.take(i)),
        )
}

/// The views of a sequence of measured words, in order.
pub open spec fn measured_views(words: Seq<MeasuredWord>) -> Seq<MeasuredWordView> {
    words.map_values(|w: MeasuredWord| w@)
}

/// The views of a sequence of runs, in order.
pub open spec fn run_views(runs: Seq<GlyphRun>) -> Seq<GlyphRunView> {
    runs.map_values(|r: GlyphRun| r@)
}

/// The state of a layout pass: where the next word would start, the width of
/// the window, and the style that text is in.
#[derive(Debug)]
pub struct Layout {
    pub cursor_x: u32,
    pub cursor_y: u32,
    pub window_width: u32,
    pub font_properties: FontProperties,
    pub font_size: FontSize,
}

impl Layout {
    /// A pass at its start: the cursor in the upper left corner inside the
    /// margins, in the default font.
    pub fn new(window_width: u32) -> (layout: Self)
        ensures
            layout.cursor_x == HSTEP,
            layout.cursor_y == VSTEP,
            layout.window_width == window_width,
            layout.font_properties@ == default_key(),
            layout.font_size == FontSize(FONT_SIZE),
    {
        Layout {
            cursor_x: HSTEP,
            cursor_y: VSTEP,
            window_width,
            font_properties: FontProperties::default(),
            font_size: FontSize(FONT_SIZE),
        }
    }

    /// Changes the style as the tag `name` asks.
    pub fn tag(&mut self, name: &str)
        ensures
            final(self).font_properties@ == style_after_tag(old(self).font_properties@, name@),
            final(self).cursor_x == old(self).cursor_x,
            final(self).cursor_y == old(self).cursor_y,
            final(self).window_width == old(self).window_width,
            final(self).font_size == old(self).font_size,
    {
        proof {
            reveal_strlit("i");
            reveal_strlit("/i");
            reveal_strlit("b");
            reveal_strlit("/b");
        }
        let n: usize = name.unicode_len();
        if n == 1 {
            let c = name.get_char(0);
            assert(name@ == seq![c]);
            if c == 'i' {
                assert(name@ == "i"@);
                self.font_properties.font_style = FontStyle::Italic;
            } else if c == 'b' {
                assert(name@ == "b"@);
                self.font_properties.font_weight = FontWeight::Bold;
            }
        } else if n == 2 {
            let c = name.get_char(0);
            let d = name.get_char(1);
            assert(name@ == seq![c, d]);
            if c == '/' && d == 'i' {
                assert(name@ == "/i"@);
                self.font_properties.font_style = FontStyle::Normal;
            } else if c == '/' && d == 'b' {
                assert(name@ == "/b"@);
                self.font_properties.font_weight = FontWeight::Normal;
            }
        }
    }

    /// Shapes the words of `text` in `font_data`, the font for the current
    /// style, and appends them to `out`.
    fn text(&self, text: &str, font_data: &Vec<u8>, out: &mut Vec<ShapedWord>)
        requires
            shaping_face_parses(font_data@),
        ensures
            shaped_views(final(out)@) == shaped_views(old(out)@) + shaped_each(
                font_data@,
                words_in_style(text@, self.font_properties@, self.font_size),
            ),
    {
        let words = split_words(text);
        let ghost before = shaped_views(out@);
        let ghost styled = words_in_style(text@, self.font_properties@, self.font_size);
        let mut i: usize = 0;
        while i < words.len()
            invariant
                i <= words.len(),
                shaping_face_parses(font_data@),
                string_views(words@) == words_of(text@),
                styled == words_in_style(text@, self.font_properties@, self.font_size),
                shaped_views(out@) == before + shaped_each(font_data@, styled.take(i as int)),
            decreases words.len() - i,
        {
            let glyphs = shape_in_face(font_data.as_slice(), words[i].as_str());
            let ghost previous = shaped_views(out@);
            out.push(ShapedWord { glyphs, font: self.font_properties.clone(), size: self.font_size });
            proof {
                assert(words[i as int]@ == string_views(words@)[i as int]);
                assert(shaped_views(out@) == previous.push(shaped_in(font_data@, styled[i as int])));
                assert(shaped_each(font_data@, styled.take(i + 1)) == shaped_each(
                    font_data@,
                    styled.take(i as int),
                ).push(shaped_in(font_data@, styled[i as int])));
            }
            i += 1;
        }
        assert(styled.take(words.len() as int) == styled);
    }

    /// Walks `tokens` in order: a tag changes the style, and each word of a
    /// text is shaped in the font that `font_manager` holds for the style it
    /// stands in. Where a word's style has no font there, nothing is shaped
    /// and the pass is left as it was.
    pub fn token(&mut self, tokens: &Vec<Token>, font_manager: &FontManager) -> (words: Result<
        Vec<ShapedWord>,
        FontError,
    >)
        requires
            font_manager.wf(),
        ensures
            final(self).cursor_x == old(self).cursor_x,
            final(self).cursor_y == old(self).cursor_y,
            final(self).window_width == old(self).window_width,
            final(self).font_size == old(self).font_size,
            match words {
                Ok(shaped) => {
                    &&& fonts_present(font_manager@, old(self).styled(tokens@))
                    &&& shaped_views(shaped@) == shaped_all(font_manager@, old(self).styled(tokens@))
                    &&& final(self).font_properties@ == style_after(
                        old(self).font_properties@,
                        token_views(tokens@),
                    )
                },
                Err(e) => {
                    &&& !fonts_present(font_manager@, old(self).styled(tokens@))
                    &&& e == FontError::FontResolutionError
                    &&& final(self).font_properties@ == old(self).font_properties@
                },
            },
    {
        let ghost start = self.font_properties@;
        let ghost size = self.font_size;
        let ghost all = token_views(tokens@);
        let mut pass = Layout {
            cursor_x: self.cursor_x,
            cursor_y: self.cursor_y,
            window_width: self.window_width,
            font_properties: self.font_properties.clone(),
            font_size: self.font_size,
        };
        let mut out: Vec<ShapedWord> = Vec::new();
        let mut i: usize = 0;
        while i < tokens.len()
            invariant
                i <= tokens.len(),
                font_manager.wf(),
                *self == *old(self),
                start == self.font_properties@,
                size == self.font_size,
                all == token_views(tokens@),
                pass.font_size == size,
                pass.font_properties@ == style_after(start, all.take(i as int)),
                fonts_present(font_manager@, styled_words(start, size, all.take(i as int))),
                shaped_views(out@) == shaped_all(
                    font_manager@,
                    styled_words(start, size, all.take(i as int)),
                ),
            decreases tokens.len() - i,
        {
            let ghost seen = all.take(i as int);
            let ghost next = all.take(i + 1);
            proof {
                assert(next.drop_last() == seen);
                assert(next.last() == tokens[i as int]@);
                lemma_styled_words_grow(start, size, all, next);
            }
            match &tokens[i] {
                Token::Tag(name) => {
                    pass.tag(name.as_str());
                },
                Token::Text(content) => {
                    let ghost added = words_in_style(content@, pass.font_properties@, size);
                    assert(styled_words(start, size, next) == styled_words(start, size, seen) + added);
                    match font_manager.get_fonts(&pass.font_properties) {
                        Some(font_data) => {
                            proof {
                                font_manager.lemma_cached_fonts_usable(pass.font_properties@);
                            }
                            pass.text(content.as_str(), font_data, &mut out);
                            proof {
                                assert(shaped_each(font_data@, added) == shaped_all(
                                    font_manager@,
                                    added,
                                ));
                                assert(shaped_all(font_manager@, styled_words(start, size, next))
                                    == shaped_all(font_manager@, styled_words(start, size, seen))
                                    + shaped_all(font_manager@, added));
                            }
                        },
                        None => {
                            if !split_words(content.as_str()).is_empty() {
                                proof {
                                    let k = styled_words(start, size, seen).len() as int;
                                    assert(added.len() > 0);
                                    assert(styled_words(start, size, next)[k] == added[0]);
                                    assert(styled_words(start, size, all)[k] == added[0]);
                                    assert(!font_manager@.contains_key(
                                        styled_words(start, size, all)[k].font,
                                    ));
                                }
                                return Err(FontError::FontResolutionError);
                            }
                            assert(added.len() == 0);
                            assert(styled_words(start, size, next) == styled_words(start, size, seen));
                        },
                    }
                },
            }
            i += 1;
        }
        assert(all.take(tokens.len() as int) == all);
        self.font_properties = pass.font_properties;
        Ok(out)
    }

    /// Where the next word would start.
    pub open spec fn cursor(&self) -> Cursor {
        Cursor { x: self.cursor_x as int, y: self.cursor_y as int }
    }

    /// Puts `word` at the cursor, or at the start of the next line where it
    /// would reach the right margin, appends its run to `display_list` and
    /// moves the cursor behind the word and a space. A word is never split.
    /// Where the cursor would leave the range of 32-bit coordinates, nothing
    /// is changed and the result is `false`.
    pub fn word(&mut self, word: &MeasuredWord, display_list: &mut Vec<GlyphRun>) -> (placed: bool)
        ensures
            placed == in_range(
                cursor_past(old(self).window_width as int, old(self).cursor(), word.metrics),
            ),
            placed ==> {
                &&& final(self).cursor() == cursor_past(
                    old(self).window_width as int,
                    old(self).cursor(),
                    word.metrics,
                )
                &&& run_views(final(display_list)@) == run_views(old(display_list)@).push(
                    run_of(old(self).window_width as int, old(self).cursor(), word@),
                )
            },
            !placed ==> final(self).cursor() == old(self).cursor() && final(display_list)@ == old(
                display_list,
            )@,
            final(self).window_width == old(self).window_width,
            final(self).font_properties == old(self).font_properties,
            final(self).font_size == old(self).font_size,
    {
        let metrics = word.metrics;
        let breaks = self.cursor_x as u64 + metrics.width as u64 + HSTEP as u64
            >= self.window_width as u64;
        let x: u64 = if breaks {
            HSTEP as u64
        } else {
            self.cursor_x as u64
        };
        let y: u64 = if breaks {
            self.cursor_y as u64 + metrics.line_height as u64
        } else {
            self.cursor_y as u64
        };
        let next_x: u64 = x + metrics.width as u64 + metrics.space as u64;
        if y > u32::MAX as u64 || next_x > u32::MAX as u64 {
            return false;
        }
        let ghost before = run_views(display_list@);
        let run = GlyphRun {
            glyphs: word.word.glyphs.clone(),
            origin_x: x as u32,
            baseline_y: y as u32,
            font: word.word.font.clone(),
            size: word.word.size,
        };
        assert(run.glyphs@ == word.word.glyphs@);
        display_list.push(run);
        assert(run_views(display_list@) == before.push(run@));
        self.cursor_x = next_x as u32;
        self.cursor_y = y as u32;
        true
    }

    /// Lays out `words` in order from the cursor on. The result is the display
    /// list, with one run for each word, unless the cursor would leave the
    /// range of 32-bit coordinates on the way: then there is none, and the
    /// pass is left as it was.
    pub fn place(&mut self, words: &Vec<MeasuredWord>) -> (display_list: Option<Vec<GlyphRun>>)
        ensures
            display_list is Some <==> fits(
                old(self).window_width as int,
                old(self).cursor(),
                measured_views(words@),
            ),
            display_list is Some ==> {
                &&& run_views(display_list->0@) == runs_of(
                    old(self).window_width as int,
                    old(self).cursor(),
                    measured_views(words@),
                )
                &&& final(self).cursor() == cursor_after(
                    old(self).window_width as int,
                    old(self).cursor(),
                    measured_views(words@),
                )
            },
            display_list is None ==> final(self).cursor() == old(self).cursor(),
            final(self).window_width == old(self).window_width,
            final(self).font_properties == old(self).font_properties,
            final(self).font_size == old(self).font_size,
    {
        let ghost width = self.window_width as int;
        let ghost start = self.cursor();
        let ghost all = measured_views(words@);
        let start_x = self.cursor_x;
        let start_y = self.cursor_y;
        let mut display_list: Vec<GlyphRun> = Vec::new();
        let mut i: usize = 0;
        assert(all.take(0) == Seq::<MeasuredWordView>::empty());
        while i < words.len()
            invariant
                i <= words.len(),
                all == measured_views(words@),
                width == self.window_width,
                width == old(self).window_width,
                start == old(self).cursor(),
                start == (Cursor { x: start_x as int, y: start_y as int }),
                self.font_properties == old(self).font_properties,
                self.font_size == old(self).font_size,
                self.cursor() == cursor_after(width, start, all.take(i as int)),
                forall|k: int|
                    0 <= k <= i ==> in_range(cursor_after(width, start, #[trigger] all.take(k))),
                run_views(display_list@) == runs_of(width, start, all).take(i as int),
            decreases words.len() - i,
        {
            proof {
                assert(all.take(i + 1).drop_last() == all.take(i as int));
                assert(all.take(i + 1).last() == words[i as int]@);
            }
            if !self.word(&words[i], &mut display_list) {
                self.cursor_x = start_x;
                self.cursor_y = start_y;
                return None;
            }
            proof {
                assert(runs_of(width, start, all).take(i + 1) == runs_of(width, start, all).take(
                    i as int,
                ).push(run_of(width, cursor_after(width, start, all.take(i as int)), all[i as int])));
            }
            i += 1;
        }
        assert(all.take(words.len() as int) == all);
        Some(display_list)
    }

    /// The style of the first word among `tokens` for which `font_manager`
    /// holds no font: the font to ask the font source for next. There is none
    /// exactly where every word has its font.
    pub fn missing_font(&self, tokens: &Vec<Token>, font_manager: &FontManager) -> (missing: Option<
        FontProperties,
    >)
        requires
            font_manager.wf(),
        ensures
            missing is None <==> fonts_present(font_manager@, self.styled(tokens@)),
            match missing {
                Some(font) => first_missing(font_manager@, self.styled(tokens@)) == Some(font@),
                None => first_missing(font_manager@, self.styled(tokens@)) is None,
            },
    {
        let ghost start = self.font_properties@;
        let ghost size = self.font_size;
        let ghost all = token_views(tokens@);
        let mut pass = Layout {
            cursor_x: self.cursor_x,
            cursor_y: self.cursor_y,
            window_width: self.window_width,
            font_properties: self.font_properties.clone(),
            font_size: self.font_size,
        };
        let mut i: usize = 0;
        while i < tokens.len()
            invariant
                i <= tokens.len(),
                font_manager.wf(),
                start == self.font_properties@,
                size == self.font_size,
                all == token_views(tokens@),
                pass.font_size == size,
                pass.font_properties@ == style_after(start, all.take(i as int)),
                first_missing(font_manager@, styled_words(start, size, all.take(i as int))) is None,
            decreases tokens.len() - i,
        {
            let ghost seen = all.take(i as int);
            let ghost next = all.take(i + 1);
            proof {
                assert(next.drop_last() == seen);
                assert(next.last() == tokens[i as int]@);
            }
            match &tokens[i] {
                Token::Tag(name) => {
                    pass.tag(name.as_str());
                },
                Token::Text(content) => {
                    let ghost added = words_in_style(content@, pass.font_properties@, size);
                    proof {
                        lemma_first_missing_append(
                            font_manager@,
                            styled_words(start, size, seen),
                            added,
                        );
                        lemma_first_missing_uniform(font_manager@, added, pass.font_properties@);
                    }
                    if font_manager.get_fonts(&pass.font_properties).is_none() && !split_words(
                        content.as_str(),
                    ).is_empty() {
                        proof {
                            lemma_styled_words_grow(start, size, all, next);
                            lemma_first_missing_grows(
                                font_manager@,
                                styled_words(start, size, all),
                                styled_words(start, size, next).len() as int,
                            );
                            lemma_first_missing_none(font_manager@, styled_words(start, size, all));
                        }
                        return Some(pass.font_properties);
                    }
                },
            }
            i += 1;
        }
        proof {
            assert(all.take(tokens.len() as int) == all);
            lemma_first_missing_none(font_manager@, styled_words(start, size, all));
        }
        None
    }

    /// The words that `tokens` hold for a pass in this state, each with its style.
    pub open spec fn styled(&self, tokens: Seq<Token>) -> Seq<StyledWord> {
        styled_words(self.font_properties@, self.font_size, token_views(tokens))
    }
}

/// What a longer stretch of tokens holds starts with what a shorter one holds.
proof fn lemma_styled_words_grow(
    start: FontKey,
    size: FontSize,
    all: Seq<TokenView>,
    prefix: Seq<TokenView>,
)
    requires
        prefix.len() <= all.len(),
        prefix == all.take(prefix.len() as int),
    ensures
        styled_words(start, size, prefix).len() <= styled_words(start, size, all).len(),
        styled_words(start, size, prefix) == styled_words(start, size, all).take(
            styled_words(start, size, prefix).len() as int,
        ),
    decreases all.len(),
{
    if prefix.len() < all.len() {
        assert(all.drop_last().take(prefix.len() as int) == prefix);
        lemma_styled_words_grow(start, size, all.drop_last(), prefix);
    } else {
        assert(prefix == all);
    }
}

/// Every word stands whole in one run of its own, so no word is broken over
/// two lines: the display list has as many runs as there are words, and the
/// run of a word holds all its glyphs, in its font and size.
pub proof fn lemma_words_stay_whole(window_width: int, start: Cursor, words: Seq<MeasuredWordView>)
    ensures
        runs_of(window_width, start, words).len() == words.len(),
        forall|i: int|
            0 <= i < words.len() ==> {
                let run = #[trigger] runs_of(window_width, start, words)[i];
                &&& run.glyphs == words[i].word.glyphs
                &&& run.font == words[i].word.font
                &&& run.size == words[i].word.size
            },
{
}

/// From the text to the page no word is broken: where the measured words are
/// the shaped words of `words`, the run of each word holds the glyphs of the
/// whole word, shaped in the font of its style, and nothing else.
pub proof fn lemma_runs_hold_whole_words(
    window_width: int,
    start: Cursor,
    fonts: Map<FontKey, Seq<u8>>,
    words: Seq<StyledWord>,
    measured: Seq<MeasuredWordView>,
)
    requires
        measured.len() == words.len(),
        forall|i: int|
            0 <= i < words.len() ==> (#[trigger] measured[i]).word == shaped_all(fonts, words)[i],
    ensures
        runs_of(window_width, start, measured).len() == words.len(),
        forall|i: int|
            0 <= i < words.len() ==> {
                let run = #[trigger] runs_of(window_width, start, measured)[i];
                &&& run.glyphs == shaped_glyphs(fonts[words[i].font], words[i].text)
                &&& run.font == words[i].font
                &&& run.size == words[i].size
            },
{
    assert forall|i: int| 0 <= i < words.len() implies {
        let run = #[trigger] runs_of(window_width, start, measured)[i];
        &&& run.glyphs == shaped_glyphs(fonts[words[i].font], words[i].text)
        &&& run.font == words[i].font
        &&& run.size == words[i].size
    } by {
        assert(measured[i].word == shaped_all(fonts, words)[i]);
    }
}

/// Every run ends left of the right margin, but for a word that is put at the
/// left margin and is too wide for the space between the margins: such a word
/// stands alone at the start of its line and is not broken.
pub proof fn lemma_runs_keep_margin(window_width: int, start: Cursor, words: Seq<MeasuredWordView>)
    ensures
        forall|i: int|
            0 <= i < words.len() ==> {
                let run = #[trigger] runs_of(window_width, start, words)[i];
                let width = words[i].metrics.width;
                ||| run.origin_x + width < window_width - HSTEP
                ||| run.origin_x == HSTEP && HSTEP + width >= window_width - HSTEP
            },
{
}

/// The cursor never moves up: after more words it is on the same baseline or
/// on a lower one.
pub proof fn lemma_cursor_descends(
    window_width: int,
    start: Cursor,
    words: Seq<MeasuredWordView>,
    i: int,
    j: int,
)
    requires
        0 <= i <= j <= words.len(),
    ensures
        cursor_after(window_width, start, words.take(i)).y <= cursor_after(
            window_width,
            start,
            words.take(j),
        ).y,
    decreases j - i,
{
    if i < j {
        lemma_cursor_descends(window_width, start, words, i, j - 1);
        assert(words.take(j).drop_last() == words.take(j - 1));
    }
}

/// The display list runs from top to bottom: a later run stands on the same
/// baseline as an earlier one or on a lower one.
pub proof fn lemma_baselines_descend(window_width: int, start: Cursor, words: Seq<MeasuredWordView>)
    ensures
        forall|i: int, j: int|
            0 <= i <= j < words.len() ==> (#[trigger] runs_of(window_width, start, words)[i]).baseline_y
                <= (#[trigger] runs_of(window_width, start, words)[j]).baseline_y,
{
    assert forall|i: int, j: int| 0 <= i <= j < words.len() implies (#[trigger] runs_of(
        window_width,
        start,
        words,
    )[i]).baseline_y <= (#[trigger] runs_of(window_width, start, words)[j]).baseline_y by {
        if i < j {
            lemma_cursor_descends(window_width, start, words, i + 1, j);
            assert(words.take(i + 1).drop_last() == words.take(i));
        }
    }
}

/// Shaping is a function of its input: the same words shaped twice with the
/// same fonts give the same shaped words, glyph by glyph.
pub proof fn lemma_shaping_is_deterministic(
    first: Seq<ShapedWord>,
    second: Seq<ShapedWord>,
    fonts: Map<FontKey, Seq<u8>>,
    words: Seq<StyledWord>,
)
    requires
        shaped_views(first) == shaped_all(fonts, words),
        shaped_views(second) == shaped_all(fonts, words),
    ensures
        first.len() == second.len(),
        forall|i: int| 0 <= i < first.len() ==> (#[trigger] first[i])@ == second[i]@,
{
    assert(shaped_views(first).len() == first.len());
    assert(shaped_views(second).len() == second.len());
    assert forall|i: int| 0 <= i < first.len() implies (#[trigger] first[i])@ == second[i]@ by {
        assert(shaped_views(first)[i] == first[i]@);
        assert(shaped_views(second)[i] == second[i]@);
    }
}

/// Layout is a function of its input: two display lists laid out from the
/// same words at the same width from the same cursor are the same, run by run.
pub proof fn lemma_layout_is_deterministic(
    first: Seq<GlyphRun>,
    second: Seq<GlyphRun>,
    window_width: int,
    start: Cursor,
    words: Seq<MeasuredWordView>,
)
    requires
        run_views(first) == runs_of(window_width, start, words),
        run_views(second) == runs_of(window_width, start, words),
    ensures
        first.len() == second.len(),
        forall|i: int| 0 <= i < first.len() ==> (#[trigger] first[i])@ == second[i]@,
{
    assert(run_views(first).len() == first.len());
    assert(run_views(second).len() == second.len());
    assert forall|i: int| 0 <= i < first.len() implies (#[trigger] first[i])@ == second[i]@ by {
        assert(run_views(first)[i] == first[i]@);
        assert(run_views(second)[i] == second[i]@);
    }
}

/// No word lacks a font exactly where every word has one.
pub proof fn lemma_first_missing_none(fonts: Map<FontKey, Seq<u8>>, words: Seq<StyledWord>)
    ensures
        first_missing(fonts, words) is None <==> fonts_present(fonts, words),
    decreases words.len(),
{
    if words.len() > 0 {
        lemma_first_missing_none(fonts, words.drop_last());
        if fonts_present(fonts, words) {
            assert forall|i: int| 0 <= i < words.drop_last().len() implies fonts.contains_key(
                (#[trigger] words.drop_last()[i]).font,
            ) by {
                assert(words.drop_last()[i] == words[i]);
            }
            assert(fonts.contains_key(words[words.len() - 1].font));
        }
        if first_missing(fonts, words) is None {
            assert forall|i: int| 0 <= i < words.len() implies fonts.contains_key(
                (#[trigger] words[i]).font,
            ) by {
                if i < words.len() - 1 {
                    assert(words.drop_last()[i] == words[i]);
                }
            }
        }
    }
}

proof fn lemma_first_missing_append(
    fonts: Map<FontKey, Seq<u8>>,
    a: Seq<StyledWord>,
    b: Seq<StyledWord>,
)
    ensures
        first_missing(fonts, a + b) == match first_missing(fonts, a) {
            Some(font) => Some(font),
            None => first_missing(fonts, b),
        },
    decreases b.len(),
{
    if b.len() == 0 {
        assert(a + b == a);
    } else {
        assert((a + b).drop_last() == a + b.drop_last());
        lemma_first_missing_append(fonts, a, b.drop_last());
    }
}

proof fn lemma_first_missing_uniform(
    fonts: Map<FontKey, Seq<u8>>,
    words: Seq<StyledWord>,
    font: FontKey,
)
    requires
        forall|i: int| 0 <= i < words.len() ==> (#[trigger] words[i]).font == font,
    ensures
        first_missing(fonts, words) == if words.len() > 0 && !fonts.contains_key(font) {
            Some(font)
        } else {
            None
        },
    decreases words.len(),
{
    if words.len() > 0 {
        assert forall|i: int| 0 <= i < words.drop_last().len() implies (
        #[trigger] words.drop_last()[i]).font == font by {
            assert(words.drop_last()[i] == words[i]);
        }
        lemma_first_missing_uniform(fonts, words.drop_last(), font);
    }
}

/// The first word without a font among the first `n` words is the first one
/// among all of them.
proof fn lemma_first_missing_grows(fonts: Map<FontKey, Seq<u8>>, words: Seq<StyledWord>, n: int)
    requires
        0 <= n <= words.len(),
        first_missing(fonts, words.take(n)) is Some,
    ensures
        first_missing(fonts, words) == first_missing(fonts, words.take(n)),
    decreases words.len() - n,
{
    if n < words.len() {
        assert(words.take(n + 1).drop_last() == words.take(n));
        lemma_first_missing_grows(fonts, words, n + 1);
    } else {
        assert(words.take(n) == words);
    }
}

} // verus!