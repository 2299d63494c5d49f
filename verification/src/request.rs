//! The parsed request, and the grammar of the head of a request: the request
//! line and the header lines, up to and including the empty line.

use crate::text::{
    decimal_usize, decode_strict, find_char, find_in, lowercase, parse_usize_in, skip_white,
    skip_white_in, skip_word, skip_word_in, string_of, to_lowercase, trim_in, trimmed, chars_of,
};
use vstd::hash_map::StringHashMap;
use vstd::prelude::*;
use vstd::utf8::{decode_utf8, valid_utf8};

verus! {

/// The head of a request as plain values.
pub struct HeadModel {
    pub method: Seq<char>,
    pub path: Seq<char>,
    pub headers: Map<Seq<char>, Seq<char>>,
}

/// A request as plain values.
pub struct RequestModel {
    pub method: Seq<char>,
    pub path: Seq<char>,
    pub headers: Map<Seq<char>, Seq<char>>,
    pub body: Seq<u8>,
}

/// How the reading of one request ended, as plain values.
pub enum OutcomeModel {
    Success(RequestModel),
    Malformed,
    TooLarge,
    IncompleteBody,
    ConnectionClosed,
}

/// The header map with each value taken by its characters.
pub open spec fn header_view(headers: Map<Seq<char>, String>) -> Map<Seq<char>, Seq<char>> {
    headers.map_values(|v: String| v@)
}

/// The request line and the headers of a request.
pub struct RequestHead {
    pub method: String,
    pub path: String,
    pub headers: StringHashMap<String>,
}

impl View for RequestHead {
    type V = HeadModel;

    open spec fn view(&self) -> HeadModel {
        HeadModel {
            method: self.method@,
            path: self.path@,
            headers: header_view(self.headers@),
        }
    }
}

/// One request: method, path, headers by lower-case name, and body.
pub struct ParsedRequest {
    pub method: String,
    pub path: String,
    pub headers: StringHashMap<String>,
    pub body: Vec<u8>,
}

impl View for ParsedRequest {
    type V = RequestModel;

    open spec fn view(&self) -> RequestModel {
        RequestModel {
            method: self.method@,
            path: self.path@,
            headers: header_view(self.headers@),
            body: self.body@,
        }
    }
}

/// How the reading of one request ended.
pub enum ParseOutcome {
    /// A whole request was read.
    Success(ParsedRequest),
    /// The connection failed while the request was read.
    Malformed,
    /// The head or the body went over the size limit.
    TooLarge,
    /// The head declared a length and the body did not have it.
    IncompleteBody,
    /// The peer closed the connection before the head was complete.
    ConnectionClosed,
}

impl View for ParseOutcome {
    type V = OutcomeModel;

    open spec fn view(&self) -> OutcomeModel {
        match self {
            ParseOutcome::Success(request) => OutcomeModel::Success(request@),
            ParseOutcome::Malformed => OutcomeModel::Malformed,
            ParseOutcome::TooLarge => OutcomeModel::TooLarge,
            ParseOutcome::IncompleteBody => OutcomeModel::IncompleteBody,
            ParseOutcome::ConnectionClosed => OutcomeModel::ConnectionClosed,
        }
    }
}

/// The index of the line feed that ends the line starting at `lo`, or the
/// length of `s` if no line feed follows.
pub open spec fn line_break(s: Seq<char>, lo: int) -> int {
    find_char(s, '\n', lo, s.len() as int)
}

/// The end of the line that starts at `lo`: its line feed is left out, and so
/// is one carriage return just before that line feed.
pub open spec fn line_end(s: Seq<char>, lo: int) -> int {
    let nl = line_break(s, lo);
    if nl < s.len() && lo < nl && s[nl - 1] == '\r' {
        nl - 1
    } else {
        nl
    }
}

/// The first word of the first line, or the empty text if it has no word.
pub open spec fn request_method(s: Seq<char>) -> Seq<char> {
    let end = line_end(s, 0);
    let a = skip_white(s, 0, end);
    s.subrange(a, skip_word(s, a, end))
}

/// The second word of the first line, or `/` if it has no second word.
pub open spec fn request_path(s: Seq<char>) -> Seq<char> {
    let end = line_end(s, 0);
    let a = skip_white(s, 0, end);
    let b = skip_word(s, a, end);
    let c = skip_white(s, b, end);
    if c < end {
        s.subrange(c, skip_word(s, c, end))
    } else {
        seq!['/']
    }
}

/// The headers after the line `[lo, hi)` is read: a line with a colon sets the
/// lower-cased, trimmed name before its first colon to the trimmed rest,
/// replacing an earlier value; a line without a colon changes nothing.
pub open spec fn with_header_line(
    headers: Map<Seq<char>, Seq<char>>,
    s: Seq<char>,
    lo: int,
    hi: int,
) -> Map<Seq<char>, Seq<char>> {
    let colon = find_char(s, ':', lo, hi);
    if colon < hi {
        headers.insert(lowercase(trimmed(s, lo, colon)), trimmed(s, colon + 1, hi))
    } else {
        headers
    }
}

/// The headers after every line from `lo` on is read, in order, starting
/// from `headers`.
pub open spec fn headers_from(
    s: Seq<char>,
    lo: int,
    headers: Map<Seq<char>, Seq<char>>,
) -> Map<Seq<char>, Seq<char>>
    decreases s.len() - lo,
{
    if 0 <= lo < s.len() {
        let nl = line_break(s, lo);
        let read = with_header_line(headers, s, lo, line_end(s, lo));
        if lo <= nl < s.len() {
            headers_from(s, nl + 1, read)
        } else {
            read
        }
    } else {
        headers
    }
}

/// What the text of a head means. The first line is the request line; every
/// further line is a header line. Only an empty text has no meaning.
pub open spec fn head_of(s: Seq<char>) -> Option<HeadModel> {
    if s.len() == 0 {
        None
    } else {
        Some(
            HeadModel {
                method: request_method(s),
                path: request_path(s),
                headers: headers_from(s, line_break(s, 0) + 1, Map::empty()),
            },
        )
    }
}

/// The name under which the length of the body is declared.
pub open spec fn content_length_name() -> Seq<char> {
    seq!['c', 'o', 'n', 't', 'e', 'n', 't', '-', 'l', 'e', 'n', 'g', 't', 'h']
}

/// The body length that the headers declare: the value of `content-length` if
/// it is there and is an unsigned decimal number that fits `usize`, else 0.
pub open spec fn declared_length(headers: Map<Seq<char>, Seq<char>>) -> nat {
    if headers.contains_key(content_length_name()) {
        match decimal_usize(headers[content_length_name()]) {
            Some(n) => n as nat,
            None => 0,
        }
    } else {
        0
    }
}

/// Finds where the line starting at `lo` ends.
fn line_bounds(text: &Vec<char>, lo: usize) -> (bounds: (usize, usize))
    requires
        lo <= text@.len(),
    ensures
        bounds.0 == line_end(text@, lo as int),
        bounds.1 == line_break(text@, lo as int),
        lo <= bounds.0 <= bounds.1 <= text@.len(),
{
    let n = text.len();
    let nl = find_in(text, '\n', lo, n);
    if nl < n && lo < nl && text[nl - 1] == '\r' {
        (nl - 1, nl)
    } else {
        (nl, nl)
    }
}

/// Reads the head of a request from its text.
pub fn parse_head(text: &Vec<char>) -> (head: Option<RequestHead>)
    ensures
        match head {
            Some(h) => head_of(text@) == Some(h@),
            None => head_of(text@) is None,
        },
{
    broadcast use vstd::string::group_string_axioms;

    let n = text.len();
    if n == 0 {
        return None;
    }
    let (end, nl) = line_bounds(text, 0);
    let a = skip_white_in(text, 0, end);
    let b = skip_word_in(text, a, end);
    let method = string_of(text, a, b);
    let c = skip_white_in(text, b, end);
    let path = if c < end {
        let d = skip_word_in(text, c, end);
        string_of(text, c, d)
    } else {
        proof {
            reveal_strlit("/");
            assert("/"@ =~= seq!['/']);
        }
        "/".to_string()
    };
    let mut headers: StringHashMap<String> = StringHashMap::new();
    assert(header_view(headers@) =~= Map::empty());
    let mut pos: usize = if nl < n {
        nl + 1
    } else {
        n
    };
    while pos < n
        invariant
            n == text@.len(),
            pos <= n,
            headers_from(text@, pos as int, header_view(headers@)) == headers_from(
                text@,
                line_break(text@, 0) + 1,
                Map::empty(),
            ),
        decreases n - pos,
    {
        let (end, nl) = line_bounds(text, pos);
        let colon = find_in(text, ':', pos, end);
        if colon < end {
            let (a, b) = trim_in(text, pos, colon);
            let name = string_of(text, a, b);
            let key = to_lowercase(name.as_str());
            let (c, d) = trim_in(text, colon + 1, end);
            let value = string_of(text, c, d);
            let ghost before = headers@;
            headers.insert(key, value);
            assert(header_view(headers@) =~= header_view(before).insert(key@, value@));
        }
        pos = if nl < n {
            nl + 1
        } else {
            n
        };
    }
    Some(RequestHead { method, path, headers })
}

impl RequestHead {
    /// The body length that the head declares.
    pub fn content_length(&self) -> (n: usize)
        ensures
            n == declared_length(self@.headers),
    {
        proof {
            reveal_strlit("content-length");
            assert("content-length"@ =~= content_length_name());
        }
        match self.headers.get("content-length") {
            Some(value) => {
                let chars = chars_of(value.as_str());
                assert(chars@.subrange(0, chars@.len() as int) =~= chars@);
                match parse_usize_in(&chars, 0, chars.len()) {
                    Some(n) => n,
                    None => 0,
                }
            },
            None => 0,
        }
    }
}

impl ParsedRequest {
    /// The value of the header `name`; `name` is in lower case.
    pub fn header(&self, name: &str) -> (value: Option<&String>)
        ensures
            match value {
                Some(v) => self@.headers.contains_key(name@) && self@.headers[name@] == v@,
                None => !self@.headers.contains_key(name@),
            },
    {
        self.headers.get(name)
    }

    /// Tells whether the request has a header `name`; `name` is in lower case.
    pub fn has_header(&self, name: &str) -> (has: bool)
        ensures
            has == self@.headers.contains_key(name@),
    {
        self.headers.contains_key(name)
    }

    /// The body as text: the text that the body encodes if the body is valid
    /// UTF-8, and the empty text if it is not.
    pub fn body_text(&self) -> (text: String)
        ensures
            text@ == body_text_of(self@.body),
    {
        match decode_strict(self.body.clone()) {
            Some(text) => text,
            None => String::new(),
        }
    }
}

/// The text of a body: what it encodes if it is valid UTF-8, else nothing.
pub open spec fn body_text_of(body: Seq<u8>) -> Seq<char> {
    if valid_utf8(body) {
        decode_utf8(body)
    } else {
        Seq::empty()
    }
}

} // verus!
