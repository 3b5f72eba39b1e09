//! Addresses of documents: `scheme://host:port/path`.

use vstd::prelude::*;
use crate::text::{chars_of, find_char, position_of, string_of};

verus! {

/// The address of a document.
#[derive(Debug)]
pub struct URL {
    pub scheme: String,
    pub host: String,
    pub path: String,
    pub port: String,
}

/// A `URL` with its parts as sequences of characters.
pub struct UrlView {
    pub scheme: Seq<char>,
    pub host: Seq<char>,
    pub path: Seq<char>,
    pub port: Seq<char>,
}

impl View for URL {
    type V = UrlView;

    open spec fn view(&self) -> UrlView {
        UrlView { scheme: self.scheme@, host: self.host@, path: self.path@, port: self.port@ }
    }
}

/// `://` stands in `s` at `at`.
pub open spec fn separator_at(s: Seq<char>, at: int) -> bool {
    0 <= at && at + 3 <= s.len() && s[at] == ':' && s[at + 1] == '/' && s[at + 2] == '/'
}

/// The index of the first `://` in `s` at or behind `from`, or the length of
/// `s` where there is none.
pub open spec fn find_separator(s: Seq<char>, from: int) -> int
    decreases s.len() - from,
{
    if from + 3 > s.len() || from < 0 {
        s.len() as int
    } else if separator_at(s, from) {
        from
    } else {
        find_separator(s, from + 1)
    }
}

/// `find_separator` gives the first place of `://`, and only a place of it.
pub proof fn lemma_find_separator(s: Seq<char>, from: int)
    requires
        0 <= from <= s.len(),
    ensures
        from <= find_separator(s, from) <= s.len(),
        find_separator(s, from) < s.len() ==> separator_at(s, find_separator(s, from)),
        forall|i: int| from <= i < find_separator(s, from) ==> !separator_at(s, i),
    decreases s.len() - from,
{
    if from + 3 <= s.len() && !separator_at(s, from) {
        lemma_find_separator(s, from + 1);
    }
}

/// A scheme that documents are fetched by.
pub open spec fn known_scheme(scheme: Seq<char>) -> bool {
    scheme == "http"@ || scheme == "https"@ || scheme == "file"@
}

/// The port of a URL that names none: 80 for `http`, 443 for any other scheme.
pub open spec fn default_port(scheme: Seq<char>) -> Seq<char> {
    if scheme == "http"@ {
        "80"@
    } else {
        "443"@
    }
}

/// `s` names a known scheme in front of a `://`.
pub open spec fn valid_url(s: Seq<char>) -> bool {
    find_separator(s, 0) < s.len() && known_scheme(s.take(find_separator(s, 0)))
}

/// The parts of the URL `s`. The scheme ends at the first `://`. What follows
/// up to the first `/` names the host and, behind the first `:` in it if there
/// is one, the port. The path is that `/` and all behind it, or `/` alone.
pub open spec fn parse_url(s: Seq<char>) -> UrlView {
    let scheme = s.take(find_separator(s, 0));
    let start = find_separator(s, 0) + 3;
    let slash = find_char(s, '/', start);
    let colon = find_char(s, ':', start);
    UrlView {
        scheme,
        host: if colon < slash {
            s.subrange(start, colon)
        } else {
            s.subrange(start, slash)
        },
        port: if colon < slash {
            s.subrange(colon + 1, slash)
        } else {
            default_port(scheme)
        },
        path: if slash < s.len() {
            s.skip(slash)
        } else {
            seq!['/']
        },
    }
}

fn separator_position(chars: &Vec<char>) -> (at: usize)
    ensures
        at == find_separator(chars@, 0),
        at <= chars.len(),
{
    let n: usize = chars.len();
    if n < 3 {
        return n;
    }
    let mut i: usize = 0;
    while i <= n - 3 && !(chars[i] == ':' && chars[i + 1] == '/' && chars[i + 2] == '/')
        invariant
            3 <= n == chars.len(),
            i <= n - 2,
            find_separator(chars@, 0) == find_separator(chars@, i as int),
        decreases n - i,
    {
        i += 1;
    }
    if i > n - 3 {
        n
    } else {
        i
    }
}

impl URL {
    /// The parts of `url`, where it names a known scheme in front of `://`.
    pub fn parse(url: &str) -> (parsed: Option<Self>)
        ensures
            parsed is Some <==> valid_url(url@),
            parsed is Some ==> parsed->0@ == parse_url(url@),
    {
        let chars = chars_of(url);
        let end: usize = separator_position(&chars);
        if end >= chars.len() {
            return None;
        }
        proof {
            lemma_find_separator(chars@, 0);
        }
        let scheme = string_of(&chars, 0, end);
        let http = scheme == "http".to_owned();
        if !http && scheme != "https".to_owned() && scheme != "file".to_owned() {
            return None;
        }
        let start: usize = end + 3;
        assert(separator_at(chars@, end as int));
        let slash: usize = position_of(&chars, '/', start);
        let colon: usize = position_of(&chars, ':', start);
        let host = if colon < slash {
            string_of(&chars, start, colon)
        } else {
            string_of(&chars, start, slash)
        };
        let port = if colon < slash {
            string_of(&chars, colon + 1, slash)
        } else if http {
            "80".to_owned()
        } else {
            "443".to_owned()
        };
        let path = if slash < chars.len() {
            string_of(&chars, slash, chars.len())
        } else {
            proof {
                reveal_strlit("/");
            }
            assert("/"@ == seq!['/']);
            "/".to_owned()
        };
        Some(URL { scheme, host, path, port })
    }

    /// The parts of `url`.
    pub fn new(url: &str) -> (parsed: Self)
        requires
            valid_url(url@),
        ensures
            parsed@ == parse_url(url@),
    {
        Self::parse(url).unwrap()
    }
}

} // verus!
