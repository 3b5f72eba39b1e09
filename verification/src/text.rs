//! Characters and words: searching text, and cutting it at white space.

use vstd::prelude::*;

verus! {

/// `String::push` appends one character.
pub assume_specification[ String::push ](s: &mut String, c: char)
    ensures
        final(s)@ == old(s)@.push(c),
;

/// Whether `c` has Unicode's White_Space property.
pub open spec fn is_space(c: char) -> bool {
    let n = c as u32;
    ||| 0x09 <= n <= 0x0d
    ||| n == 0x20
    ||| n == 0x85
    ||| n == 0xa0
    ||| n == 0x1680
    ||| 0x2000 <= n <= 0x200a
    ||| n == 0x2028
    ||| n == 0x2029
    ||| n == 0x202f
    ||| n == 0x205f
    ||| n == 0x3000
}

/// Whether `c` is white space.
pub fn is_whitespace(c: char) -> (space: bool)
    ensures
        space == is_space(c),
{
    let n: u32 = c as u32;
    (0x09 <= n && n <= 0x0d) || n == 0x20 || n == 0x85 || n == 0xa0 || n == 0x1680 || (0x2000 <= n
        && n <= 0x200a) || n == 0x2028 || n == 0x2029 || n == 0x202f || n == 0x205f || n == 0x3000
}

/// The splitter between two characters: the words that ended so far, and the
/// characters of the word that has not ended yet.
pub struct SplitState {
    pub words: Seq<Seq<char>>,
    pub current: Seq<char>,
}

/// The splitter after one more character.
pub open spec fn split_step(st: SplitState, c: char) -> SplitState {
    if !is_space(c) {
        SplitState { words: st.words, current: st.current.push(c) }
    } else if st.current.len() > 0 {
        SplitState { words: st.words.push(st.current), current: Seq::empty() }
    } else {
        st
    }
}

/// The splitter after all of `s`.
pub open spec fn split_scan(s: Seq<char>) -> SplitState
    decreases s.len(),
{
    if s.len() == 0 {
        SplitState { words: Seq::empty(), current: Seq::empty() }
    } else {
        split_step(split_scan(s.drop_last()), s.last())
    }
}

/// The words of `s`: its longest stretches without white space, in order.
pub open spec fn words_of(s: Seq<char>) -> Seq<Seq<char>> {
    let st = split_scan(s);
    if st.current.len() > 0 {
        st.words.push(st.current)
    } else {
        st.words
    }
}

/// The characters of each string of `strings`.
pub open spec fn string_views(strings: Seq<String>) -> Seq<Seq<char>> {
    strings.map_values(|s: String| s@)
}

/// A word: at least one character, and no white space.
pub open spec fn is_word(w: Seq<char>) -> bool {
    w.len() > 0 && forall|j: int| 0 <= j < w.len() ==> !is_space(#[trigger] w[j])
}

proof fn lemma_split_scan_gives_words(s: Seq<char>)
    ensures
        forall|i: int| 0 <= i < split_scan(s).words.len() ==> is_word(#[trigger] split_scan(s).words[i]),
        forall|j: int|
            0 <= j < split_scan(s).current.len() ==> !is_space(#[trigger] split_scan(s).current[j]),
    decreases s.len(),
{
    if s.len() > 0 {
        lemma_split_scan_gives_words(s.drop_last());
        let before = split_scan(s.drop_last());
        let after = split_scan(s);
        assert(after == split_step(before, s.last()));
        assert forall|i: int| 0 <= i < after.words.len() implies is_word(#[trigger] after.words[i]) by {
            if i < before.words.len() {
                assert(after.words[i] == before.words[i]);
            } else {
                assert(after.words[i] == before.current);
            }
        }
        assert forall|j: int| 0 <= j < after.current.len() implies !is_space(
            #[trigger] after.current[j],
        ) by {
            if j < before.current.len() {
                assert(after.current[j] == before.current[j]);
            }
        }
    }
}

/// Splitting leaves only words: none is empty, none holds white space.
pub proof fn lemma_words_of_gives_words(s: Seq<char>)
    ensures
        forall|i: int| 0 <= i < words_of(s).len() ==> is_word(#[trigger] words_of(s)[i]),
{
    lemma_split_scan_gives_words(s);
}

/// Splits `text` at white space.
pub fn split_words(text: &str) -> (words: Vec<String>)
    ensures
        string_views(words@) == words_of(text@),
        forall|i: int| 0 <= i < words.len() ==> is_word(#[trigger] words[i]@),
{
    let mut words: Vec<String> = Vec::new();
    let mut current = String::new();
    for c in it: text.chars()
        invariant
            it.seq() == text@,
            split_scan(text@.take(it.index() as int)).words == string_views(words@),
            split_scan(text@.take(it.index() as int)).current == current@,
    {
        proof {
            let i = it.index() as int;
            assert(text@.take(i + 1).drop_last() == text@.take(i));
        }
        if !is_whitespace(c) {
            current.push(c);
        } else if !current.as_str().is_empty() {
            words.push(current);
            current = String::new();
        }
    }
    assert(text@.take(text@.len() as int) == text@);
    if !current.as_str().is_empty() {
        words.push(current);
    }
    proof {
        lemma_words_of_gives_words(text@);
        assert(string_views(words@) == words_of(text@));
        assert forall|i: int| 0 <= i < words.len() implies is_word(#[trigger] words[i]@) by {
            assert(words[i]@ == string_views(words@)[i]);
            assert(is_word(words_of(text@)[i]));
        }
    }
    words
}

/// The index of the first `c` in `s` at or behind `from`, or the length of
/// `s` where there is none.
pub open spec fn find_char(s: Seq<char>, c: char, from: int) -> int
    decreases s.len() - from,
{
    if from >= s.len() {
        s.len() as int
    } else if s[from] == c {
        from
    } else {
        find_char(s, c, from + 1)
    }
}

/// `find_char` gives the first place of `c`, and only a place of `c`.
pub proof fn lemma_find_char(s: Seq<char>, c: char, from: int)
    requires
        0 <= from <= s.len(),
    ensures
        from <= find_char(s, c, from) <= s.len(),
        find_char(s, c, from) < s.len() ==> s[find_char(s, c, from)] == c,
        forall|i: int| from <= i < find_char(s, c, from) ==> s[i] != c,
    decreases s.len() - from,
{
    if from < s.len() && s[from] != c {
        lemma_find_char(s, c, from + 1);
    }
}

/// All of a sequence is the sequence.
pub proof fn lemma_take_all<A>(s: Seq<A>)
    ensures
        s.take(s.len() as int) == s,
{
}

/// The characters of `s`.
pub fn chars_of(s: &str) -> (chars: Vec<char>)
    ensures
        chars@ == s@,
{
    let mut chars: Vec<char> = Vec::new();
    for c in it: s.chars()
        invariant
            it.seq() == s@,
            chars@ == s@.take(it.index() as int),
    {
        chars.push(c);
    }
    chars
}

/// The characters of `chars` from `from` up to `to`, as a string.
pub fn string_of(chars: &Vec<char>, from: usize, to: usize) -> (s: String)
    requires
        from <= to <= chars.len(),
    ensures
        s@ == chars@.subrange(from as int, to as int),
{
    let mut s = String::new();
    let mut i: usize = from;
    while i < to
        invariant
            from <= i <= to <= chars.len(),
            s@ == chars@.subrange(from as int, i as int),
        decreases to - i,
    {
        s.push(chars[i]);
        i += 1;
    }
    s
}

/// Where the first `c` stands in `chars` at or behind `from`.
pub fn position_of(chars: &Vec<char>, c: char, from: usize) -> (at: usize)
    requires
        from <= chars.len(),
    ensures
        at == find_char(chars@, c, from as int),
        from <= at <= chars.len(),
{
    let mut i: usize = from;
    while i < chars.len() && chars[i] != c
        invariant
            from <= i <= chars.len(),
            find_char(chars@, c, from as int) == find_char(chars@, c, i as int),
        decreases chars.len() - i,
    {
        i += 1;
    }
    i
}

} // verus!