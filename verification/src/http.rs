//! The text of an HTTP/1.0 exchange: the request for a document, and the
//! response split into its header and the document.

use vstd::prelude::*;
use crate::text::{chars_of, find_char, lemma_find_char, position_of, string_of};
use crate::url::URL;

verus! {

/// Why a response holds no document for the browser.
#[derive(Clone, Copy, Debug, PartialEq, Eq, Structural)]
pub enum ResponseError {
    /// The first line does not hold a version, a status and an explanation.
    MalformedStatusLine,
    /// The response ends before the empty line that ends the header.
    TruncatedHeader,
    /// The document is sent in a transfer or content encoding.
    UnsupportedEncoding,
}

/// The request for the document at `url`: a request line for the path, the
/// host line, and an empty line.
pub open spec fn request_for(host: Seq<char>, path: Seq<char>) -> Seq<char> {
    "GET "@ + path + " HTTP/1.0\r\n"@ + "Host: "@ + host + "\r\n"@ + "\r\n"@
}

impl URL {
    /// The text to send to the host to ask for the document.
    pub fn request(&self) -> (text: String)
        ensures
            text@ == request_for(self.host@, self.path@),
    {
        let mut text = String::from_str("GET ");
        text.append(self.path.as_str());
        text.append(" HTTP/1.0\r\n");
        text.append("Host: ");
        text.append(self.host.as_str());
        text.append("\r\n");
        text.append("\r\n");
        text
    }
}

/// The index behind the line that starts at `from`: behind its line feed, or
/// the length of `s` where no line feed follows.
pub open spec fn line_end(s: Seq<char>, from: int) -> int {
    let at = find_char(s, '\n', from);
    if at < s.len() {
        at + 1
    } else {
        s.len() as int
    }
}

/// A status line holds at least two spaces, which part the version, the
/// status and the explanation.
pub open spec fn status_line_ok(line: Seq<char>) -> bool {
    let first = find_char(line, ' ', 0);
    first < line.len() && find_char(line, ' ', first + 1) < line.len()
}

/// The line that ends the header: a carriage return and a line feed, alone.
pub open spec fn is_blank(line: Seq<char>) -> bool {
    line == seq!['\r', '\n']
}

/// `a` is the letter `b` in either case, or the same character.
pub open spec fn same_letter(a: char, b: char) -> bool {
    a == b || ('a' <= b <= 'z' && a as u32 + 32 == b as u32)
}

/// `name` is the lower-case `word` but for the case of its letters.
pub open spec fn same_name(name: Seq<char>, word: Seq<char>) -> bool {
    name.len() == word.len() && forall|i: int|
        0 <= i < name.len() ==> same_letter(#[trigger] name[i], word[i])
}

/// The header line `line` names a transfer or a content encoding: what stands
/// before its first colon is one of the two field names, in any case.
pub open spec fn names_encoding(line: Seq<char>) -> bool {
    let colon = find_char(line, ':', 0);
    colon < line.len() && (same_name(line.take(colon), "transfer-encoding"@) || same_name(
        line.take(colon),
        "content-encoding"@,
    ))
}

/// Where the document starts in `s`, whose header lines start at `from`:
/// behind the first blank line. Without a blank line there is none.
pub open spec fn body_start(s: Seq<char>, from: int) -> Option<int>
    decreases s.len() - from,
{
    let end = line_end(s, from);
    if from >= s.len() || end <= from {
        None
    } else if is_blank(s.subrange(from, end)) {
        Some(end)
    } else {
        body_start(s, end)
    }
}

/// A header line of `s` from `from` on, before the first blank line, names an
/// encoding.
pub open spec fn encoded(s: Seq<char>, from: int) -> bool
    decreases s.len() - from,
{
    let end = line_end(s, from);
    if from >= s.len() || end <= from || is_blank(s.subrange(from, end)) {
        false
    } else {
        names_encoding(s.subrange(from, end)) || encoded(s, end)
    }
}

/// The document in the response `s`, or why there is none. The first line is
/// the status line; header lines follow up to a blank line; all behind that
/// is the document.
pub open spec fn response_body(s: Seq<char>) -> Result<Seq<char>, ResponseError> {
    let header = line_end(s, 0);
    if !status_line_ok(s.take(header)) {
        Err(ResponseError::MalformedStatusLine)
    } else {
        match body_start(s, header) {
            None => Err(ResponseError::TruncatedHeader),
            Some(start) => if encoded(s, header) {
                Err(ResponseError::UnsupportedEncoding)
            } else {
                Ok(s.skip(start))
            },
        }
    }
}

fn end_of_line(chars: &Vec<char>, from: usize) -> (end: usize)
    requires
        from <= chars.len(),
    ensures
        end == line_end(chars@, from as int),
        from <= end <= chars.len(),
        from < chars.len() ==> from < end,
{
    let at: usize = position_of(chars, '\n', from);
    if at < chars.len() {
        at + 1
    } else {
        at
    }
}

fn is_same_name(chars: &Vec<char>, from: usize, to: usize, word: &str) -> (same: bool)
    requires
        from <= to <= chars.len(),
    ensures
        same == same_name(chars@.subrange(from as int, to as int), word@),
{
    let letters = chars_of(word);
    if letters.len() != to - from {
        return false;
    }
    let ghost name = chars@.subrange(from as int, to as int);
    let mut i: usize = 0;
    while i < letters.len()
        invariant
            i <= letters.len() == to - from,
            to <= chars.len(),
            letters@ == word@,
            name == chars@.subrange(from as int, to as int),
            forall|k: int| 0 <= k < i ==> same_letter(#[trigger] name[k], word@[k]),
        decreases letters.len() - i,
    {
        let a = chars[from + i];
        let b = letters[i];
        assert(name[i as int] == a);
        let same = a == b || ('a' <= b && b <= 'z' && b as u32 - 32 == a as u32);
        if !same {
            return false;
        }
        i += 1;
    }
    true
}

fn line_names_encoding(chars: &Vec<char>, from: usize, to: usize) -> (named: bool)
    requires
        from <= to <= chars.len(),
    ensures
        named == names_encoding(chars@.subrange(from as int, to as int)),
{
    let ghost line = chars@.subrange(from as int, to as int);
    let colon: usize = position_of(chars, ':', from);
    proof {
        lemma_find_char(chars@, ':', from as int);
        lemma_find_in_part(chars@, ':', from as int, to as int);
    }
    if colon >= to {
        return false;
    }
    assert(line.take(colon - from) == chars@.subrange(from as int, colon as int));
    is_same_name(chars, from, colon, "transfer-encoding") || is_same_name(
        chars,
        from,
        colon,
        "content-encoding",
    )
}

/// Searching a part of `s` finds what searching `s` from the part's start
/// finds, as far as it lies in the part.
proof fn lemma_find_in_part(s: Seq<char>, c: char, from: int, to: int)
    requires
        0 <= from <= to <= s.len(),
    ensures
        find_char(s.subrange(from, to), c, 0) == if find_char(s, c, from) < to {
            find_char(s, c, from) - from
        } else {
            to - from
        },
{
    let part = s.subrange(from, to);
    lemma_find_char(s, c, from);
    lemma_find_char(part, c, 0);
    let whole_at = find_char(s, c, from);
    let part_at = find_char(part, c, 0);
    if part_at < part.len() {
        assert(part[part_at] == s[from + part_at]);
    }
    if whole_at < to {
        assert(part[whole_at - from] == s[whole_at]);
    }
    assert forall|i: int| 0 <= i < part.len() implies part[i] == s[from + i] by {}
}

fn is_status_line(chars: &Vec<char>, to: usize) -> (ok: bool)
    requires
        to <= chars.len(),
    ensures
        ok == status_line_ok(chars@.take(to as int)),
{
    let first: usize = position_of(chars, ' ', 0);
    proof {
        lemma_find_in_part(chars@, ' ', 0, to as int);
        lemma_find_char(chars@, ' ', 0);
    }
    if first >= to {
        return false;
    }
    let second: usize = position_of(chars, ' ', first + 1);
    proof {
        lemma_find_from_in_part(chars@, ' ', first + 1, to as int);
    }
    second < to
}

/// Searching the start of `s` from `from` on finds what searching `s` finds,
/// as far as it lies in that start.
proof fn lemma_find_from_in_part(s: Seq<char>, c: char, from: int, to: int)
    requires
        0 <= from <= to <= s.len(),
    ensures
        find_char(s.take(to), c, from) == if find_char(s, c, from) < to {
            find_char(s, c, from)
        } else {
            to
        },
    decreases to - from,
{
    if from < to {
        assert(s.take(to)[from] == s[from]);
        if s[from] != c {
            lemma_find_from_in_part(s, c, from + 1, to);
        }
    } else {
        lemma_find_char(s, c, from);
    }
}

/// Splits the response `response` into header and document, and hands out
/// the document where the header is whole and names no encoding.
pub fn read_http_response(response: &str) -> (body: Result<String, ResponseError>)
    ensures
        match body {
            Ok(document) => response_body(response@) == Ok::<Seq<char>, ResponseError>(document@),
            Err(e) => response_body(response@) == Err::<Seq<char>, ResponseError>(e),
        },
{
    let chars = chars_of(response);
    let header: usize = end_of_line(&chars, 0);
    if !is_status_line(&chars, header) {
        return Err(ResponseError::MalformedStatusLine);
    }
    let mut from: usize = header;
    let mut coded = false;
    while from < chars.len()
        invariant
            header <= from <= chars.len(),
            chars@ == response@,
            header == line_end(chars@, 0),
            status_line_ok(chars@.take(header as int)),
            body_start(chars@, header as int) == body_start(chars@, from as int),
            encoded(chars@, header as int) == (coded || encoded(chars@, from as int)),
        decreases chars.len() - from,
    {
        let end: usize = end_of_line(&chars, from);
        if end - from == 2 && chars[from] == '\r' && chars[from + 1] == '\n' {
            assert(chars@.subrange(from as int, end as int) == seq!['\r', '\n']);
            if coded {
                return Err(ResponseError::UnsupportedEncoding);
            }
            return Ok(string_of(&chars, end, chars.len()));
        }
        assert(!is_blank(chars@.subrange(from as int, end as int))) by {
            let line = chars@.subrange(from as int, end as int);
            if is_blank(line) {
                assert(line.len() == 2);
                assert(line[0] == '\r' && line[1] == '\n');
            }
        }
        if line_names_encoding(&chars, from, end) {
            coded = true;
        }
        from = end;
    }
    Err(ResponseError::TruncatedHeader)
}

} // verus!
