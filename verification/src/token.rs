//! Splitting markup into tags and text.

use vstd::prelude::*;
use vstd::std_specs::cmp::PartialEqSpecImpl;
use crate::text::lemma_take_all;

verus! {

/// A piece of markup: the name between `<` and `>`, or the text between tags.
#[derive(Debug, Hash)]
pub enum Token {
    Tag(String),
    Text(String),
}

/// What a `Token` holds, as sequences of characters.
pub enum TokenView {
    Tag(Seq<char>),
    Text(Seq<char>),
}

impl View for Token {
    type V = TokenView;

    open spec fn view(&self) -> TokenView {
        match self {
            Token::Tag(name) => TokenView::Tag(name@),
            Token::Text(content) => TokenView::Text(content@),
        }
    }
}

impl PartialEq for Token {
    fn eq(&self, other: &Self) -> (equal: bool) {
        match (self, other) {
            (Token::Tag(a), Token::Tag(b)) => *a == *b,
            (Token::Text(a), Token::Text(b)) => *a == *b,
            _ => false,
        }
    }
}

impl Eq for Token {}

impl PartialEqSpecImpl for Token {
    open spec fn obeys_eq_spec() -> bool {
        true
    }

    open spec fn eq_spec(&self, other: &Self) -> bool {
        self@ == other@
    }
}

/// The views of a sequence of tokens, in order.
pub open spec fn token_views(tokens: Seq<Token>) -> Seq<TokenView> {
    tokens.map_values(|t: Token| t@)
}

/// The scanner between two characters: the tokens emitted so far, the
/// characters gathered since the last token or bracket, and whether the last
/// bracket seen was `<`.
pub struct ScanState {
    pub out: Seq<TokenView>,
    pub buffer: Seq<char>,
    pub in_tag: bool,
}

/// The scanner after one more character.
pub open spec fn scan_step(st: ScanState, c: char) -> ScanState {
    if c == '<' {
        ScanState {
            out: if st.buffer.len() > 0 {
                st.out.push(TokenView::Text(st.buffer))
            } else {
                st.out
            },
            buffer: Seq::empty(),
            in_tag: true,
        }
    } else if c == '>' {
        ScanState { out: st.out.push(TokenView::Tag(st.buffer)), buffer: Seq::empty(), in_tag: false }
    } else {
        ScanState { out: st.out, buffer: st.buffer.push(c), in_tag: st.in_tag }
    }
}

/// The scanner after all of `s`, started with nothing emitted or gathered.
pub open spec fn scan(s: Seq<char>) -> ScanState
    decreases s.len(),
{
    if s.len() == 0 {
        ScanState { out: Seq::empty(), buffer: Seq::empty(), in_tag: false }
    } else {
        scan_step(scan(s.drop_last()), s.last())
    }
}

/// The tokens of `s`: what the scanner emitted, and the gathered text after
/// the last tag if there is any. A tag that is still open at the end is left out.
pub open spec fn tokens_of(s: Seq<char>) -> Seq<TokenView> {
    let st = scan(s);
    if !st.in_tag && st.buffer.len() > 0 {
        st.out.push(TokenView::Text(st.buffer))
    } else {
        st.out
    }
}

/// Splits `body` into tags and text in one pass from left to right.
pub fn lex(body: &str) -> (out: Vec<Token>)
    ensures
        token_views(out@) == tokens_of(body@),
{
    let mut out: Vec<Token> = Vec::new();
    let mut buffer = String::new();
    let mut in_tag = false;
    for c in it: body.chars()
        invariant
            it.seq() == body@,
            scan(body@.take(it.index())).out == token_views(out@),
            scan(body@.take(it.index())).buffer == buffer@,
            scan(body@.take(it.index())).in_tag == in_tag,
    {
        proof {
            let i = it.index();
            assert(body@.take(i + 1).drop_last() == body@.take(i));
        }
        if c == '<' {
            in_tag = true;
            if !buffer.as_str().is_empty() {
                out.push(Token::Text(buffer));
            }
            buffer = String::new();
        } else if c == '>' {
            in_tag = false;
            out.push(Token::Tag(buffer));
            buffer = String::new();
        } else {
            buffer.push(c);
        }
    }
    proof {
        lemma_take_all(body@);
    }
    if !in_tag && !buffer.as_str().is_empty() {
        out.push(Token::Text(buffer));
    }
    out
}

/// Whether the last bracket in `s` is a `<`: whether `s` ends inside a tag.
pub open spec fn inside_tag(s: Seq<char>) -> bool
    decreases s.len(),
{
    if s.len() == 0 {
        false
    } else if s.last() == '<' {
        true
    } else if s.last() == '>' {
        false
    } else {
        inside_tag(s.drop_last())
    }
}

/// Every `<` of `s` stands outside a tag and every `>` inside one.
pub open spec fn brackets_alternate(s: Seq<char>) -> bool
    decreases s.len(),
{
    if s.len() == 0 {
        true
    } else {
        &&& brackets_alternate(s.drop_last())
        &&& s.last() == '<' ==> !inside_tag(s.drop_last())
        &&& s.last() == '>' ==> inside_tag(s.drop_last())
    }
}

/// The brackets of `s` come in pairs `<` ... `>` that do not nest, and the last
/// pair is closed.
pub open spec fn balanced(s: Seq<char>) -> bool {
    brackets_alternate(s) && !inside_tag(s)
}

/// `s` without its brackets and without what stands between `<` and `>`.
pub open spec fn without_tags(s: Seq<char>) -> Seq<char>
    decreases s.len(),
{
    if s.len() == 0 {
        Seq::empty()
    } else if s.last() == '<' || s.last() == '>' || inside_tag(s.drop_last()) {
        without_tags(s.drop_last())
    } else {
        without_tags(s.drop_last()).push(s.last())
    }
}

/// The contents of the `Text` tokens among `tokens`, joined in order.
pub open spec fn text_of(tokens: Seq<TokenView>) -> Seq<char>
    decreases tokens.len(),
{
    if tokens.len() == 0 {
        Seq::empty()
    } else {
        match tokens.last() {
            TokenView::Text(content) => text_of(tokens.drop_last()) + content,
            TokenView::Tag(_) => text_of(tokens.drop_last()),
        }
    }
}

proof fn lemma_text_of_push(tokens: Seq<TokenView>, t: TokenView)
    ensures
        text_of(tokens.push(t)) == match t {
            TokenView::Text(content) => text_of(tokens) + content,
            TokenView::Tag(_) => text_of(tokens),
        },
{
    assert(tokens.push(t).drop_last() == tokens);
}

proof fn lemma_scan_keeps_text(s: Seq<char>)
    requires
        brackets_alternate(s),
    ensures
        scan(s).in_tag == inside_tag(s),
        scan(s).in_tag ==> text_of(scan(s).out) == without_tags(s),
        !scan(s).in_tag ==> text_of(scan(s).out) + scan(s).buffer == without_tags(s),
    decreases s.len(),
{
    if s.len() > 0 {
        let before = scan(s.drop_last());
        lemma_scan_keeps_text(s.drop_last());
        lemma_text_of_push(before.out, TokenView::Text(before.buffer));
        lemma_text_of_push(before.out, TokenView::Tag(before.buffer));
        if s.last() != '<' && s.last() != '>' && !before.in_tag {
            assert(text_of(before.out) + before.buffer.push(s.last()) == (text_of(before.out)
                + before.buffer).push(s.last()));
        }
    }
}

/// In markup whose brackets are balanced, the text tokens joined together are
/// the markup with its tags removed.
pub proof fn lemma_lex_keeps_text(s: Seq<char>)
    requires
        balanced(s),
    ensures
        text_of(tokens_of(s)) == without_tags(s),
{
    lemma_scan_keeps_text(s);
    lemma_text_of_push(scan(s).out, TokenView::Text(scan(s).buffer));
}

} // verus!
