//! The browser: a document, its layout for the current window, and how far
//! the window is scrolled down.

use vstd::prelude::*;
use crate::font::{load_result, FontError, FontManager};
use crate::layout::{
    first_missing, fits, fonts_present, lemma_baselines_descend, measured_views, run_views, runs_of, shaped_all,
    shaped_views, styled_words, Cursor, GlyphRun, GlyphRunView, Layout, MeasuredWord,
    MeasuredWordView, ShapedWord, StyledWord, FONT_SIZE, HSTEP, VSTEP,
};
use crate::render::{drawn, is_above, is_below, lemma_walk_ends_safely, visible_runs};
use crate::style::{default_key, FontKey, FontProperties, FontSize};
use crate::token::{lex, token_views, tokens_of, Token, TokenView};

verus! {

/// How far one key press scrolls, in pixels.
pub const SCROLL_STEP: u32 = 20;

/// Where a layout pass starts: in the upper left corner inside the margins.
pub open spec fn start_cursor() -> Cursor {
    Cursor { x: HSTEP as int, y: VSTEP as int }
}

/// The words of a document with the style each stands in.
pub open spec fn document_words(tokens: Seq<TokenView>) -> Seq<StyledWord> {
    styled_words(default_key(), FontSize(FONT_SIZE), tokens)
}

/// The display list of `words` in a window `width` wide. Words whose layout
/// leaves the range of 32-bit coordinates are not shown at all.
pub open spec fn display_of(width: int, words: Seq<MeasuredWordView>) -> Seq<GlyphRunView> {
    if fits(width, start_cursor(), words) {
        runs_of(width, start_cursor(), words)
    } else {
        Seq::empty()
    }
}

/// How far a window `height` high can be scrolled down over `runs`: until the
/// last baseline is one line above its lower edge. An empty page does not
/// scroll, and the offset stays a 32-bit number.
pub open spec fn max_scroll(runs: Seq<GlyphRunView>, height: int) -> int {
    if runs.len() == 0 {
        0
    } else {
        let lowest = runs.last().baseline_y - height + VSTEP;
        if lowest < 0 {
            0
        } else if lowest > u32::MAX {
            u32::MAX as int
        } else {
            lowest
        }
    }
}

/// The offset after scrolling down once from `scroll`.
pub open spec fn scrolled_down(scroll: int, runs: Seq<GlyphRunView>, height: int) -> int {
    if runs.len() == 0 {
        scroll
    } else if scroll + SCROLL_STEP <= max_scroll(runs, height) {
        scroll + SCROLL_STEP
    } else {
        max_scroll(runs, height)
    }
}

/// The offset after scrolling up once from `scroll`.
pub open spec fn scrolled_up(scroll: int) -> int {
    if scroll >= SCROLL_STEP {
        scroll - SCROLL_STEP
    } else {
        0
    }
}

/// `scroll` brought back into the range that `runs` and `height` allow.
pub open spec fn clamped(scroll: int, runs: Seq<GlyphRunView>, height: int) -> int {
    if scroll <= max_scroll(runs, height) {
        scroll
    } else {
        max_scroll(runs, height)
    }
}

pub struct Browser {
    /// How far the window is scrolled down, in pixels.
    pub scroll: u32,
    /// The document. It is kept to be laid out again.
    pub tokens: Vec<Token>,
    /// The words of the document, shaped and measured. They do not depend on
    /// the window, so they are kept to be placed again when it is resized.
    pub words: Vec<MeasuredWord>,
    /// The layout of `words` for the current width.
    pub display_list: Vec<GlyphRun>,
    pub font_manager: FontManager,
    pub width: u32,
    pub height: u32,
}

impl Browser {
    /// The font cache is well formed, the display list is the layout of the
    /// words for the current width, and the scroll offset is in its range.
    pub open spec fn wf(&self) -> bool {
        &&& self.font_manager.wf()
        &&& run_views(self.display_list@) == display_of(
            self.width as int,
            measured_views(self.words@),
        )
        &&& self.scroll <= max_scroll(run_views(self.display_list@), self.height as int)
    }

    /// A browser with an empty page in a window of `width` by `height`.
    pub fn new(width: u32, height: u32) -> (browser: Self)
        ensures
            browser.wf(),
            browser.scroll == 0,
            browser.tokens@.len() == 0,
            browser.words@.len() == 0,
            browser.display_list@.len() == 0,
            browser.font_manager@ == Map::<FontKey, Seq<u8>>::empty(),
            browser.width == width,
            browser.height == height,
    {
        let browser = Browser {
            scroll: 0,
            tokens: Vec::new(),
            words: Vec::new(),
            display_list: Vec::new(),
            font_manager: FontManager::new(),
            width,
            height,
        };
        proof {
            lemma_nothing_fits(width as int);
        }
        browser
    }

    /// Takes `body` as the new document: it is split into tokens, and the page
    /// is empty and scrolled to the top until the document is laid out.
    pub fn load(&mut self, body: &str)
        requires
            old(self).font_manager.wf(),
        ensures
            final(self).wf(),
            token_views(final(self).tokens@) == tokens_of(body@),
            final(self).scroll == 0,
            final(self).words@.len() == 0,
            final(self).display_list@.len() == 0,
            final(self).font_manager == old(self).font_manager,
            final(self).width == old(self).width,
            final(self).height == old(self).height,
    {
        self.tokens = lex(body);
        self.words = Vec::new();
        self.display_list = Vec::new();
        self.scroll = 0;
        proof {
            lemma_nothing_fits(self.width as int);
        }
    }

    /// The style of the first word of the document that has no font yet.
    pub fn missing_font(&self) -> (missing: Option<FontProperties>)
        requires
            self.font_manager.wf(),
        ensures
            missing is None <==> fonts_present(
                self.font_manager@,
                document_words(token_views(self.tokens@)),
            ),
            match missing {
                Some(font) => first_missing(
                    self.font_manager@,
                    document_words(token_views(self.tokens@)),
                ) == Some(font@),
                None => first_missing(self.font_manager@, document_words(token_views(self.tokens@)))
                    is None,
            },
    {
        Layout::new(self.width).missing_font(&self.tokens, &self.font_manager)
    }

    /// Takes the font source's answer for `font_properties` into the font cache.
    pub fn load_font(&mut self, font_properties: &FontProperties, answer: Option<Vec<u8>>) -> (loaded:
        Result<(), FontError>)
        requires
            old(self).font_manager.wf(),
        ensures
            final(self).font_manager.wf(),
            final(self).font_manager@ == load_result(
                old(self).font_manager@,
                font_properties@,
                answer,
            ).0,
            loaded == load_result(old(self).font_manager@, font_properties@, answer).1,
            final(self).scroll == old(self).scroll,
            final(self).tokens == old(self).tokens,
            final(self).words == old(self).words,
            final(self).display_list == old(self).display_list,
            final(self).width == old(self).width,
            final(self).height == old(self).height,
    {
        self.font_manager.load(font_properties, answer)
    }

    /// The words of the document, each shaped in the font of its style.
    pub fn shape(&self) -> (words: Result<Vec<ShapedWord>, FontError>)
        requires
            self.font_manager.wf(),
        ensures
            match words {
                Ok(shaped) => {
                    &&& fonts_present(self.font_manager@, document_words(token_views(self.tokens@)))
                    &&& shaped_views(shaped@) == shaped_all(
                        self.font_manager@,
                        document_words(token_views(self.tokens@)),
                    )
                },
                Err(e) => {
                    &&& !fonts_present(
                        self.font_manager@,
                        document_words(token_views(self.tokens@)),
                    )
                    &&& e == FontError::FontResolutionError
                },
            },
    {
        let mut pass = Layout::new(self.width);
        pass.token(&self.tokens, &self.font_manager)
    }

    fn relayout(&mut self) -> (shown: bool)
        ensures
            shown == fits(old(self).width as int, start_cursor(), measured_views(old(self).words@)),
            run_views(final(self).display_list@) == display_of(
                old(self).width as int,
                measured_views(old(self).words@),
            ),
            final(self).scroll == old(self).scroll,
            final(self).tokens == old(self).tokens,
            final(self).words == old(self).words,
            final(self).font_manager == old(self).font_manager,
            final(self).width == old(self).width,
            final(self).height == old(self).height,
    {
        let mut pass = Layout::new(self.width);
        match pass.place(&self.words) {
            Some(display_list) => {
                self.display_list = display_list;
                true
            },
            None => {
                self.display_list = Vec::new();
                false
            },
        }
    }

    /// Takes `words` as the measured words of the document and lays them out
    /// for the current width. The result says whether there is a layout: where
    /// it leaves the range of 32-bit coordinates, the page stays empty.
    pub fn layout(&mut self, words: Vec<MeasuredWord>) -> (shown: bool)
        requires
            old(self).font_manager.wf(),
        ensures
            final(self).wf(),
            shown == fits(old(self).width as int, start_cursor(), measured_views(words@)),
            final(self).words == words,
            final(self).scroll == clamped(
                old(self).scroll as int,
                run_views(final(self).display_list@),
                old(self).height as int,
            ),
            final(self).tokens == old(self).tokens,
            final(self).font_manager == old(self).font_manager,
            final(self).width == old(self).width,
            final(self).height == old(self).height,
    {
        self.words = words;
        let shown = self.relayout();
        self.reset_scroll();
        shown
    }

    /// The largest scroll offset for the current page and window.
    pub fn scroll_limit(&self) -> (limit: u32)
        ensures
            limit == max_scroll(run_views(self.display_list@), self.height as int),
    {
        let n: usize = self.display_list.len();
        if n == 0 {
            return 0;
        }
        assert(run_views(self.display_list@).last() == self.display_list[n - 1]@);
        let lowest: u64 = self.display_list[n - 1].baseline_y as u64 + VSTEP as u64;
        if lowest < self.height as u64 {
            0
        } else if lowest - self.height as u64 > u32::MAX as u64 {
            u32::MAX
        } else {
            (lowest - self.height as u64) as u32
        }
    }

    /// Brings the scroll offset back into its range.
    pub fn reset_scroll(&mut self)
        ensures
            final(self).scroll == clamped(
                old(self).scroll as int,
                run_views(old(self).display_list@),
                old(self).height as int,
            ),
            final(self).tokens == old(self).tokens,
            final(self).words == old(self).words,
            final(self).display_list == old(self).display_list,
            final(self).font_manager == old(self).font_manager,
            final(self).width == old(self).width,
            final(self).height == old(self).height,
    {
        let limit: u32 = self.scroll_limit();
        if self.scroll > limit {
            self.scroll = limit;
        }
    }

    /// Scrolls down by one step, but not past the end of the page. An empty
    /// page does not scroll.
    pub fn scrolldown(&mut self)
        ensures
            final(self).scroll == scrolled_down(
                old(self).scroll as int,
                run_views(old(self).display_list@),
                old(self).height as int,
            ),
            old(self).wf() ==> final(self).wf(),
            final(self).tokens == old(self).tokens,
            final(self).words == old(self).words,
            final(self).display_list == old(self).display_list,
            final(self).font_manager == old(self).font_manager,
            final(self).width == old(self).width,
            final(self).height == old(self).height,
    {
        if self.display_list.is_empty() {
            return ;
        }
        let limit: u32 = self.scroll_limit();
        if self.scroll as u64 + SCROLL_STEP as u64 <= limit as u64 {
            self.scroll = self.scroll + SCROLL_STEP;
        } else {
            self.scroll = limit;
        }
    }

    /// Scrolls up by one step, but not past the top of the page.
    pub fn scrollup(&mut self)
        ensures
            final(self).scroll == scrolled_up(old(self).scroll as int),
            old(self).wf() ==> final(self).wf(),
            final(self).tokens == old(self).tokens,
            final(self).words == old(self).words,
            final(self).display_list == old(self).display_list,
            final(self).font_manager == old(self).font_manager,
            final(self).width == old(self).width,
            final(self).height == old(self).height,
    {
        if self.scroll >= SCROLL_STEP {
            self.scroll = self.scroll - SCROLL_STEP;
        } else {
            self.scroll = 0;
        }
    }

    /// Takes the new size of the window, lays the words out again for the new
    /// width and brings the scroll offset back into its range. The result says
    /// whether there is a layout, as for `layout`.
    pub fn resize_browser(&mut self, width: u32, height: u32) -> (shown: bool)
        requires
            old(self).font_manager.wf(),
        ensures
            final(self).wf(),
            final(self).width == width,
            final(self).height == height,
            shown == fits(width as int, start_cursor(), measured_views(old(self).words@)),
            final(self).scroll == clamped(
                old(self).scroll as int,
                run_views(final(self).display_list@),
                height as int,
            ),
            final(self).tokens == old(self).tokens,
            final(self).words == old(self).words,
            final(self).font_manager == old(self).font_manager,
    {
        self.width = width;
        self.height = height;
        let shown = self.relayout();
        self.reset_scroll();
        shown
    }

    /// The runs to draw for the current scroll offset, by their indices in
    /// the display list, from top to bottom.
    pub fn draw(&self) -> (indices: Vec<usize>)
        ensures
            indices@.map_values(|i: usize| i as int) == drawn(
                run_views(self.display_list@),
                self.scroll as int,
                self.height as int,
            ),
    {
        visible_runs(&self.display_list, self.scroll, self.height)
    }
}

/// The early end of the walk over the display list loses nothing: of a
/// well-formed browser every run is drawn that lies neither above nor below
/// the window.
pub proof fn lemma_draw_shows_all(browser: Browser)
    requires
        browser.wf(),
    ensures
        forall|i: int|
            0 <= i < browser.display_list.len() && !is_above(
                (#[trigger] browser.display_list[i]).baseline_y as int,
                browser.scroll as int,
            ) && !is_below(
                browser.display_list[i].baseline_y as int,
                browser.scroll as int,
                browser.height as int,
            ) ==> drawn(
                run_views(browser.display_list@),
                browser.scroll as int,
                browser.height as int,
            ).contains(i),
{
    let runs = run_views(browser.display_list@);
    let words = measured_views(browser.words@);
    if fits(browser.width as int, start_cursor(), words) {
        lemma_baselines_descend(browser.width as int, start_cursor(), words);
    }
    lemma_walk_ends_safely(runs, browser.scroll as int, browser.height as int);
    assert forall|i: int|
        0 <= i < browser.display_list.len() && !is_above(
            (#[trigger] browser.display_list[i]).baseline_y as int,
            browser.scroll as int,
        ) && !is_below(
            browser.display_list[i].baseline_y as int,
            browser.scroll as int,
            browser.height as int,
        ) implies drawn(runs, browser.scroll as int, browser.height as int).contains(i) by {
        assert(runs[i] == browser.display_list[i]@);
    }
}

proof fn lemma_nothing_fits(width: int)
    ensures
        display_of(width, Seq::<MeasuredWordView>::empty()) == Seq::<GlyphRunView>::empty(),
        display_of(width, measured_views(Seq::<MeasuredWord>::empty())) == Seq::<
            GlyphRunView,
        >::empty(),
        run_views(Seq::<GlyphRun>::empty()) == Seq::<GlyphRunView>::empty(),
{
    let none = Seq::<MeasuredWordView>::empty();
    assert(measured_views(Seq::<MeasuredWord>::empty()) == none);
    assert(runs_of(width, start_cursor(), none) == Seq::<GlyphRunView>::empty());
}

/// A key press: scroll down or scroll up.
pub enum ScrollCommand {
    Down,
    Up,
}

/// The offset after `commands` were carried out in order, from `scroll` on.
pub open spec fn scrolled(
    scroll: int,
    runs: Seq<GlyphRunView>,
    height: int,
    commands: Seq<ScrollCommand>,
) -> int
    decreases commands.len(),
{
    if commands.len() == 0 {
        scroll
    } else {
        let before = scrolled(scroll, runs, height, commands.drop_last());
        match commands.last() {
            ScrollCommand::Down => scrolled_down(before, runs, height),
            ScrollCommand::Up => scrolled_up(before),
        }
    }
}

/// However the window is scrolled down and up, the offset stays between 0
/// and the largest offset for the page: after every single command.
pub proof fn lemma_scroll_stays_in_range(
    scroll: int,
    runs: Seq<GlyphRunView>,
    height: int,
    commands: Seq<ScrollCommand>,
)
    requires
        0 <= scroll <= max_scroll(runs, height),
    ensures
        forall|n: int|
            0 <= n <= commands.len() ==> 0 <= scrolled(
                scroll,
                runs,
                height,
                #[trigger] commands.take(n),
            ) <= max_scroll(runs, height),
{
    assert forall|n: int| 0 <= n <= commands.len() implies 0 <= scrolled(
        scroll,
        runs,
        height,
        #[trigger] commands.take(n),
    ) <= max_scroll(runs, height) by {
        lemma_scrolled_in_range(scroll, runs, height, commands.take(n));
    }
}

proof fn lemma_scrolled_in_range(
    scroll: int,
    runs: Seq<GlyphRunView>,
    height: int,
    commands: Seq<ScrollCommand>,
)
    requires
        0 <= scroll <= max_scroll(runs, height),
    ensures
        0 <= scrolled(scroll, runs, height, commands) <= max_scroll(runs, height),
    decreases commands.len(),
{
    if commands.len() > 0 {
        lemma_scrolled_in_range(scroll, runs, height, commands.drop_last());
    }
}

} // verus!
