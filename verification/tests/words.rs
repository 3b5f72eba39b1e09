use browser_core::text::{chars_of, is_whitespace, position_of, split_words, string_of};

#[test]
fn words_are_cut_at_white_space() {
    assert_eq!(split_words("  one two\tthree\nfour  "), vec!["one", "two", "three", "four"]);
}

#[test]
fn text_without_words() {
    assert_eq!(split_words(""), Vec::<String>::new());
    assert_eq!(split_words(" \t\r\n "), Vec::<String>::new());
}

#[test]
fn one_word_alone() {
    assert_eq!(split_words("word"), vec!["word"]);
}

#[test]
fn unicode_spaces_cut_words() {
    assert_eq!(split_words("a\u{a0}b\u{3000}c\u{2003}d\u{85}e"), vec!["a", "b", "c", "d", "e"]);
}

#[test]
fn white_space_is_what_std_calls_white_space() {
    let mut n: u32 = 0;
    while n <= 0x11_0000 {
        if let Some(c) = char::from_u32(n) {
            assert_eq!(is_whitespace(c), c.is_whitespace(), "U+{:04X}", n);
        }
        n += 1;
    }
}

#[test]
fn words_match_std_split() {
    let text = " The quick\u{2028}brown  fox\tj\u{e9}mps \n over\r\nthe lazy dog ";
    let expected: Vec<String> = text.split_whitespace().map(|w| w.to_string()).collect();
    assert_eq!(split_words(text), expected);
}

#[test]
fn characters_and_back() {
    let chars = chars_of("a/b:c");
    assert_eq!(chars, vec!['a', '/', 'b', ':', 'c']);
    assert_eq!(string_of(&chars, 1, 4), "/b:");
    assert_eq!(string_of(&chars, 2, 2), "");
    assert_eq!(position_of(&chars, ':', 0), 3);
    assert_eq!(position_of(&chars, '/', 2), 5);
    assert_eq!(position_of(&chars, 'a', 0), 0);
}
