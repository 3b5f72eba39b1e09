use browser_core::browser::{Browser, SCROLL_STEP};
use browser_core::font::FontError;
use browser_core::layout::{MeasuredWord, ShapedWord, WordMetrics};
use browser_core::shape::ShapedGlyph;
use browser_core::style::{FontProperties, FontSize, FontStyle, FontWeight};
use browser_core::token::Token;

fn be16(out: &mut Vec<u8>, values: &[u16]) {
    for v in values {
        out.extend_from_slice(&v.to_be_bytes());
    }
}

fn be32(out: &mut Vec<u8>, values: &[u32]) {
    for v in values {
        out.extend_from_slice(&v.to_be_bytes());
    }
}

/// A font of 1000 units per em with three glyphs and no outlines: glyph 0 for
/// unknown characters, 600 wide; glyph 1 for `A`, 500 wide; glyph 2 for `B`,
/// 700 wide.
fn tiny_font() -> Vec<u8> {
    let mut cmap = Vec::new();
    be16(&mut cmap, &[0, 1, 3, 1]);
    be32(&mut cmap, &[12]);
    be16(&mut cmap, &[4, 32, 0, 4, 4, 1, 0]);
    be16(&mut cmap, &[0x42, 0xffff, 0, 0x41, 0xffff]);
    be16(&mut cmap, &[1u16.wrapping_sub(0x41), 1, 0, 0]);

    let mut head = Vec::new();
    be32(&mut head, &[0x0001_0000, 0x0001_0000, 0, 0x5f0f_3cf5]);
    be16(&mut head, &[0, 1000]);
    be32(&mut head, &[0, 0, 0, 0]);
    be16(&mut head, &[0, 0, 0, 0, 0, 8, 2, 0, 0]);

    let mut hhea = Vec::new();
    be32(&mut hhea, &[0x0001_0000]);
    be16(&mut hhea, &[800, (-200i16) as u16, 0, 700, 0, 0, 0, 1, 0, 0, 0, 0, 0, 0, 0, 3]);

    let mut hmtx = Vec::new();
    be16(&mut hmtx, &[600, 0, 500, 0, 700, 0]);

    let mut maxp = Vec::new();
    be32(&mut maxp, &[0x0000_5000]);
    be16(&mut maxp, &[3]);

    let tables: Vec<(&[u8; 4], Vec<u8>)> =
        vec![(b"cmap", cmap), (b"head", head), (b"hhea", hhea), (b"hmtx", hmtx), (b"maxp", maxp)];
    let mut font = Vec::new();
    be32(&mut font, &[0x0001_0000]);
    be16(&mut font, &[tables.len() as u16, 64, 2, 16]);
    let mut offset = 12 + 16 * tables.len();
    for (tag, data) in &tables {
        font.extend_from_slice(&tag[..]);
        be32(&mut font, &[0, offset as u32, data.len() as u32]);
        offset += (data.len() + 3) / 4 * 4;
    }
    for (_, data) in &tables {
        font.extend_from_slice(data);
        while font.len() % 4 != 0 {
            font.push(0);
        }
    }
    font
}

fn arial(weight: FontWeight) -> FontProperties {
    FontProperties {
        font_family: "Arial Unicode MS".to_string(),
        font_weight: weight,
        font_style: FontStyle::Normal,
    }
}

fn word(width: u32) -> MeasuredWord {
    MeasuredWord {
        word: ShapedWord {
            glyphs: vec![ShapedGlyph { glyph_id: 1, x_advance: 500, x_offset: 0, y_offset: 0 }],
            font: arial(FontWeight::Normal),
            size: FontSize(16),
        },
        metrics: WordMetrics { width, space: 5, line_height: 25 },
    }
}

/// As many words as lines: each word is too wide to share a line, so the
/// baselines are 40, 65, 90 and so on.
fn lines(n: usize) -> Vec<MeasuredWord> {
    (0..n).map(|_| word(500)).collect()
}

/// The pixel measures of a shaped word in the tiny font, computed the way the
/// windowing side computes them.
fn measured(shaped: ShapedWord) -> MeasuredWord {
    let advance: i32 = shaped.glyphs.iter().map(|g| g.x_advance).sum();
    let height_unscaled: f32 = 800.0 - -200.0;
    let scale = shaped.size.0 as f32 * (96.0 / 72.0) * height_unscaled / 1000.0;
    let factor = scale / height_unscaled;
    let metrics = WordMetrics {
        width: (advance as f32 * factor) as u32,
        space: (600.0 * factor) as u32,
        line_height: (scale * 1.2) as u32,
    };
    MeasuredWord { word: shaped, metrics }
}

fn load_fonts(browser: &mut Browser) {
    while let Some(font) = browser.missing_font() {
        assert_eq!(browser.load_font(&font, Some(tiny_font())), Ok(()));
    }
}

fn baselines(browser: &Browser) -> Vec<u32> {
    browser.display_list.iter().map(|r| r.baseline_y).collect()
}

#[test]
fn a_new_browser_shows_an_empty_page() {
    let browser = Browser::new(800, 600);
    assert_eq!((browser.width, browser.height, browser.scroll), (800, 600, 0));
    assert!(browser.tokens.is_empty());
    assert!(browser.words.is_empty());
    assert!(browser.display_list.is_empty());
    assert_eq!(browser.scroll_limit(), 0);
    assert_eq!(browser.draw(), Vec::<usize>::new());
    assert_eq!(browser.missing_font(), None);
}

#[test]
fn an_empty_page_does_not_scroll() {
    let mut browser = Browser::new(800, 600);
    browser.scrolldown();
    assert_eq!(browser.scroll, 0);
    browser.scrollup();
    assert_eq!(browser.scroll, 0);
    browser.scroll = 70;
    browser.scrolldown();
    assert_eq!(browser.scroll, 70);
    browser.reset_scroll();
    assert_eq!(browser.scroll, 0);
}

#[test]
fn loading_splits_the_document_and_clears_the_page() {
    let mut browser = Browser::new(800, 600);
    assert!(browser.layout(lines(100)));
    browser.scrolldown();
    assert_eq!(browser.scroll, 20);
    browser.load("<b>Hi</b> there");
    assert_eq!(
        browser.tokens,
        vec![
            Token::Tag("b".to_string()),
            Token::Text("Hi".to_string()),
            Token::Tag("/b".to_string()),
            Token::Text(" there".to_string()),
        ]
    );
    assert_eq!(browser.scroll, 0);
    assert!(browser.words.is_empty());
    assert!(browser.display_list.is_empty());
    assert_eq!((browser.width, browser.height), (800, 600));
}

#[test]
fn bold_and_plain_word_share_the_first_line() {
    let mut browser = Browser::new(800, 600);
    browser.load("<b>Hi</b> there");
    assert_eq!(browser.shape().err(), Some(FontError::FontResolutionError));
    assert_eq!(browser.missing_font(), Some(arial(FontWeight::Bold)));
    load_fonts(&mut browser);
    assert_eq!(browser.font_manager.get_fonts(&arial(FontWeight::Bold)), Some(&tiny_font()));
    assert_eq!(browser.font_manager.get_fonts(&arial(FontWeight::Normal)), Some(&tiny_font()));
    let words: Vec<MeasuredWord> = browser.shape().unwrap().into_iter().map(measured).collect();
    assert_eq!(words[0].metrics, WordMetrics { width: 25, space: 12, line_height: 25 });
    assert_eq!(words[1].metrics, WordMetrics { width: 64, space: 12, line_height: 25 });
    assert!(browser.layout(words));
    let runs = &browser.display_list;
    assert_eq!(runs.len(), 2);
    assert_eq!(runs[0].glyphs.len(), 2);
    assert_eq!(runs[0].font.font_weight, FontWeight::Bold);
    assert_eq!((runs[0].origin_x, runs[0].baseline_y), (40, 40));
    assert_eq!(runs[1].glyphs.len(), 5);
    assert_eq!(runs[1].font.font_weight, FontWeight::Normal);
    assert_eq!((runs[1].origin_x, runs[1].baseline_y), (77, 40));
    assert_eq!(browser.draw(), vec![0, 1]);
}

#[test]
fn a_font_that_cannot_be_had_fails_the_load() {
    let mut browser = Browser::new(800, 600);
    browser.load("text");
    let font = browser.missing_font().unwrap();
    assert_eq!(font, FontProperties::default());
    assert_eq!(browser.load_font(&font, None), Err(FontError::FontResolutionError));
    assert_eq!(browser.load_font(&font, Some(vec![1, 2, 3])), Err(FontError::FontLoadError));
    assert_eq!(browser.missing_font(), Some(font));
    assert_eq!(browser.shape().err(), Some(FontError::FontResolutionError));
    assert!(browser.display_list.is_empty());
}

#[test]
fn scrolling_down_stops_at_the_end_of_the_page() {
    let mut browser = Browser::new(800, 600);
    assert!(browser.layout(lines(30)));
    assert_eq!(baselines(&browser)[29], 40 + 29 * 25);
    assert_eq!(browser.scroll_limit(), 765 - 600 + 40);
    let mut seen = Vec::new();
    for _ in 0..14 {
        browser.scrolldown();
        seen.push(browser.scroll);
    }
    assert_eq!(seen, vec![20, 40, 60, 80, 100, 120, 140, 160, 180, 200, 205, 205, 205, 205]);
}

#[test]
fn scrolling_up_stops_at_the_top() {
    let mut browser = Browser::new(800, 600);
    assert!(browser.layout(lines(30)));
    browser.scrolldown();
    browser.scrolldown();
    browser.scrolldown();
    assert_eq!(browser.scroll, 60);
    browser.scroll = 50;
    let mut seen = Vec::new();
    for _ in 0..4 {
        browser.scrollup();
        seen.push(browser.scroll);
    }
    assert_eq!(seen, vec![30, 10, 0, 0]);
}

#[test]
fn a_page_that_fits_the_window_does_not_scroll() {
    let mut browser = Browser::new(800, 600);
    assert!(browser.layout(lines(5)));
    assert_eq!(browser.scroll_limit(), 0);
    browser.scrolldown();
    assert_eq!(browser.scroll, 0);
    let mut browser = Browser::new(800, 180);
    assert!(browser.layout(lines(5)));
    assert_eq!(browser.scroll_limit(), 0);
    let mut browser = Browser::new(800, 179);
    assert!(browser.layout(lines(5)));
    assert_eq!(browser.scroll_limit(), 1);
    browser.scrolldown();
    assert_eq!(browser.scroll, 1);
}

#[test]
fn the_offset_stays_in_range_whatever_is_pressed() {
    let mut browser = Browser::new(800, 600);
    assert!(browser.layout(lines(40)));
    let limit = browser.scroll_limit();
    assert_eq!(limit, 40 + 39 * 25 - 600 + 40);
    let presses = "dddduddddddddddddddddddddddddddddduuddduuuuuuuuuuuuuuuuuuuuuuuuuuuuuuuuudud";
    for press in presses.chars() {
        if press == 'd' {
            browser.scrolldown();
        } else {
            browser.scrollup();
        }
        assert!(browser.scroll <= limit);
    }
    assert_eq!(SCROLL_STEP, 20);
}

#[test]
fn resizing_lays_out_again_and_clamps_the_offset() {
    let mut browser = Browser::new(300, 100);
    let words: Vec<MeasuredWord> = (0..8).map(|_| word(100)).collect();
    assert!(browser.layout(words));
    assert_eq!(baselines(&browser), vec![40, 40, 65, 65, 90, 90, 115, 115]);
    assert_eq!(browser.scroll_limit(), 55);
    for _ in 0..5 {
        browser.scrolldown();
    }
    assert_eq!(browser.scroll, 55);
    assert!(browser.resize_browser(500, 100));
    assert_eq!((browser.width, browser.height), (500, 100));
    assert_eq!(baselines(&browser), vec![40, 40, 40, 40, 65, 65, 65, 65]);
    assert_eq!(browser.scroll, 5);
    assert!(browser.resize_browser(500, 120));
    assert_eq!(browser.scroll, 0);
    assert!(browser.resize_browser(300, 100));
    assert_eq!(baselines(&browser), vec![40, 40, 65, 65, 90, 90, 115, 115]);
    assert_eq!(browser.scroll, 0);
    assert_eq!(browser.words.len(), 8);
}

#[test]
fn only_the_runs_in_the_window_are_drawn() {
    let mut browser = Browser::new(800, 100);
    assert!(browser.layout(lines(20)));
    assert_eq!(browser.draw(), vec![0, 1, 2]);
    for _ in 0..6 {
        browser.scrolldown();
    }
    assert_eq!(browser.scroll, 120);
    assert_eq!(baselines(&browser)[..9], [40, 65, 90, 115, 140, 165, 190, 215, 240]);
    assert_eq!(browser.draw(), vec![2, 3, 4, 5, 6, 7]);
}

#[test]
fn a_layout_out_of_range_leaves_the_page_empty() {
    let mut browser = Browser::new(800, 600);
    assert!(browser.layout(lines(30)));
    browser.scrolldown();
    let mut words = lines(2);
    words[1].metrics.line_height = u32::MAX;
    assert!(!browser.layout(words));
    assert!(browser.display_list.is_empty());
    assert_eq!(browser.words.len(), 2);
    assert_eq!(browser.scroll, 0);
    assert_eq!(browser.draw(), Vec::<usize>::new());
}

fn lay_out(browser: &mut Browser) -> bool {
    load_fonts(browser);
    let words: Vec<MeasuredWord> = browser.shape().unwrap().into_iter().map(measured).collect();
    browser.layout(words)
}

#[test]
fn only_the_first_run_is_bold() {
    let mut browser = Browser::new(800, 600);
    browser.load("<b>x</b>y");
    assert_eq!(
        browser.tokens,
        vec![
            Token::Tag("b".to_string()),
            Token::Text("x".to_string()),
            Token::Tag("/b".to_string()),
            Token::Text("y".to_string()),
        ]
    );
    assert!(lay_out(&mut browser));
    assert_eq!(browser.display_list.len(), 2);
    assert_eq!(browser.display_list[0].font, arial(FontWeight::Bold));
    assert_eq!(browser.display_list[1].font, arial(FontWeight::Normal));
}

#[test]
fn a_word_of_two_thousand_letters_is_one_run() {
    let mut browser = Browser::new(800, 600);
    browser.load(&"A".repeat(2000));
    assert!(lay_out(&mut browser));
    assert_eq!(browser.words[0].metrics.width, 21333);
    assert_eq!(browser.display_list.len(), 1);
    assert_eq!(browser.display_list[0].origin_x, 40);
    assert_eq!(browser.display_list[0].baseline_y, 65);
    assert_eq!(browser.display_list[0].glyphs.len(), 2000);
}

#[test]
fn the_same_document_gives_the_same_page_twice() {
    let markup = "<i>AB BA</i> A <b>B AAB</b> <p>BAB</p> ".repeat(40);
    let mut first = Browser::new(333, 200);
    first.load(&markup);
    assert!(lay_out(&mut first));
    let mut second = Browser::new(333, 200);
    second.load(&markup);
    assert!(lay_out(&mut second));
    assert_eq!(first.display_list.len(), 240);
    assert_eq!(first.display_list.len(), second.display_list.len());
    for (a, b) in first.display_list.iter().zip(second.display_list.iter()) {
        assert_eq!((a.origin_x, a.baseline_y), (b.origin_x, b.baseline_y));
        assert_eq!(a.glyphs, b.glyphs);
        assert_eq!(a.font, b.font);
        assert_eq!(a.size, b.size);
    }
    assert!(first.resize_browser(500, 200));
    assert!(first.resize_browser(333, 200));
    for (a, b) in first.display_list.iter().zip(second.display_list.iter()) {
        assert_eq!((a.origin_x, a.baseline_y), (b.origin_x, b.baseline_y));
    }
}
