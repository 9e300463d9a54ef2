//! The request parser: from a byte buffer, through its text, to a structured
//! request or the reason why there is none.
use vstd::prelude::*;
use vstd::slice::slice_subrange;
use vstd::utf8::{decode_utf8, valid_utf8};
use crate::decimal::{parse_usize, parse_usize_spec};
use crate::string_map::StringMap;
use crate::theorems::theorem_mandatory_fields;
use crate::text::{
    chars_of, count_within, find_char, find_line_end, index_of_char, has_word, lemma_line_end,
    line_break_at, line_end, scan_whitespace, scan_word, take_bytes, text_of, trim, trim_slice,
    word, word_start,
};

verus! {

/// Why a buffer holds no request.
#[derive(Clone, Copy, Debug, PartialEq, Eq, Structural)]
pub enum ParseFailure {
    /// The first line has fewer than three whitespace-delimited words.
    MalformedRequestLine,
    /// A header line has no colon.
    MalformedHeader,
    /// The value of `Content-Length` is no unsigned decimal numeral, or one
    /// too large for a `usize`.
    InvalidContentLength,
}

/// One HTTP request.
pub struct Request {
    pub method: String,
    pub path: String,
    pub protocol: String,
    pub headers: StringMap,
    pub body: String,
}

/// A request as contracts see it.
pub ghost struct RequestView {
    pub method: Seq<char>,
    pub path: Seq<char>,
    pub protocol: Seq<char>,
    pub headers: Map<Seq<char>, Seq<char>>,
    pub body: Seq<char>,
}

impl View for Request {
    type V = RequestView;

    open spec fn view(&self) -> RequestView {
        RequestView {
            method: self.method@,
            path: self.path@,
            protocol: self.protocol@,
            headers: self.headers@,
            body: self.body@,
        }
    }
}

/// The text that `String::from_utf8_lossy` of the standard library makes of
/// the given bytes.
pub uninterp spec fn utf8_lossy(bytes: Seq<u8>) -> Seq<char>;

/// The request line: the text up to its first line break.
pub open spec fn request_line(text: Seq<char>) -> Seq<char> {
    text.subrange(0, line_end(text, 0))
}

/// The lines from `pos`, where a line begins, up to the first empty line or
/// the end of the text: the header lines where `pos` follows the request line.
pub open spec fn header_lines(text: Seq<char>, pos: int) -> Seq<Seq<char>>
    decreases
            if pos <= text.len() {
                text.len() - pos
            } else {
                0
            },
{
    if pos < 0 || pos >= text.len() || line_end(text, pos) <= pos {
        Seq::empty()
    } else {
        seq![text.subrange(pos, line_end(text, pos))] + header_lines(text, line_end(text, pos) + 2)
    }
}

/// Whether a header line has the colon that parts name from value.
pub open spec fn has_colon(line: Seq<char>) -> bool {
    index_of_char(line, ':', 0) < line.len()
}

/// The name in a header line: what stands before its first colon, trimmed.
pub open spec fn header_name(line: Seq<char>) -> Seq<char> {
    trim(line.subrange(0, index_of_char(line, ':', 0)))
}

/// The value in a header line: what stands after its first colon, trimmed.
pub open spec fn header_value(line: Seq<char>) -> Seq<char> {
    trim(line.subrange(index_of_char(line, ':', 0) + 1, line.len() as int))
}

/// The header table that the given lines make, a later line replacing an
/// earlier one of the same name.
pub open spec fn headers_of(lines: Seq<Seq<char>>) -> Map<Seq<char>, Seq<char>>
    decreases lines.len(),
{
    if lines.len() == 0 {
        Map::empty()
    } else {
        headers_of(lines.drop_last()).insert(
            header_name(lines.last()),
            header_value(lines.last()),
        )
    }
}

/// Whether an empty line follows a line break at `i`: two line breaks in a row.
pub open spec fn blank_line_at(text: Seq<char>, i: int) -> bool {
    line_break_at(text, i) && line_break_at(text, i + 2)
}

/// The first index at or after `from` where two line breaks stand in a row, or
/// the end.
pub open spec fn first_blank_line(text: Seq<char>, from: int) -> int
    decreases text.len() - from,
{
    if from >= text.len() {
        text.len() as int
    } else if blank_line_at(text, from) {
        from
    } else {
        first_blank_line(text, from + 1)
    }
}

/// What follows the first two line breaks in a row; nothing where there are
/// none.
pub open spec fn body_text(text: Seq<char>) -> Seq<char> {
    let at = first_blank_line(text, 0);
    if at < text.len() {
        text.subrange(at + 4, text.len() as int)
    } else {
        Seq::empty()
    }
}

/// The request that a text holds, or why it holds none.
///
/// The first line must hold three words: method, path and protocol. The lines
/// after it, up to the first empty one, are headers. A body is read only under
/// a `Content-Length` header: it is what follows the empty line, as far as the
/// declared number of bytes of UTF-8 reaches, cut short at the end of the text
/// and before a character that would go beyond.
pub open spec fn parse_spec(text: Seq<char>) -> Result<RequestView, ParseFailure> {
    let line = request_line(text);
    let lines = header_lines(text, line_end(text, 0) + 2);
    let headers = headers_of(lines);
    if !has_word(line, 2) {
        Err(ParseFailure::MalformedRequestLine)
    } else if exists|i: int| 0 <= i < lines.len() && !has_colon(#[trigger] lines[i]) {
        Err(ParseFailure::MalformedHeader)
    } else if !headers.contains_key("Content-Length"@) {
        Ok(
            RequestView {
                method: word(line, 0),
                path: word(line, 1),
                protocol: word(line, 2),
                headers,
                body: Seq::empty(),
            },
        )
    } else {
        match parse_usize_spec(headers["Content-Length"@]) {
            None => Err(ParseFailure::InvalidContentLength),
            Some(n) => Ok(
                RequestView {
                    method: word(line, 0),
                    path: word(line, 1),
                    protocol: word(line, 2),
                    headers,
                    body: take_bytes(body_text(text), n as int),
                },
            ),
        }
    }
}

/// The request of an outcome, if it is one.
pub open spec fn success_of(outcome: Result<RequestView, ParseFailure>) -> Option<RequestView> {
    match outcome {
        Ok(request) => Some(request),
        Err(_) => None,
    }
}

/// A request that may be missing, as contracts see it.
pub open spec fn option_view(r: Option<Request>) -> Option<RequestView> {
    match r {
        Some(request) => Some(request@),
        None => None,
    }
}

/// Whether the three fields that every request has are all there: method,
/// path and protocol, none of them empty.
pub open spec fn has_mandatory_fields(request: RequestView) -> bool {
    request.method.len() > 0 && request.path.len() > 0 && request.protocol.len() > 0
}

/// The outcome of a parse as contracts see it.
pub open spec fn outcome_view(r: Result<Request, ParseFailure>) -> Result<
    RequestView,
    ParseFailure,
> {
    match r {
        Ok(request) => Ok(request@),
        Err(failure) => Err(failure),
    }
}

/// Where no two line breaks stand in a row from `from` up to `at`, and two do
/// at `at` unless it is the end, `at` is the first such place.
pub proof fn lemma_first_blank_line_found(text: Seq<char>, from: int, at: int)
    requires
        0 <= from <= at <= text.len(),
        forall|j: int| from <= j < at ==> !blank_line_at(text, j),
        at < text.len() ==> blank_line_at(text, at),
    ensures
        first_blank_line(text, from) == at,
    decreases at - from,
{
    if from < at {
        lemma_first_blank_line_found(text, from + 1, at);
    }
}

/// `String::from_utf8_lossy` of the standard library, its result owned. What
/// it returns is a function of the bytes alone, here under the name
/// `utf8_lossy`; bytes that are valid UTF-8 are decoded as they stand.
/// Believed, not proved.
#[verifier::external_body]
fn decode_lossy(buffer: &[u8]) -> (text: String)
    ensures
        text@ == utf8_lossy(buffer@),
        valid_utf8(buffer@) ==> text@ == decode_utf8(buffer@),
{
    String::from_utf8_lossy(buffer).into_owned()
}

/// Parts a header line at its first colon into name and value, each trimmed.
/// `None` where the line has no colon.
pub fn split_header(line: &[char]) -> (r: Option<(String, String)>)
    ensures
        match r {
            Some((name, value)) => has_colon(line@) && name@ == header_name(line@) && value@
                == header_value(line@),
            None => !has_colon(line@),
        },
{
    let colon = find_char(line, ':', 0);
    if colon >= line.len() {
        return None;
    }
    let name = text_of(trim_slice(slice_subrange(line, 0, colon)));
    let value = text_of(trim_slice(slice_subrange(line, colon + 1, line.len())));
    Some((name, value))
}

/// Reads the header lines that begin at `first`, the index just past the
/// request line's line break. Returns the header table and the index where the
/// body begins, or `None` where a header line has no colon.
fn read_headers(text: &[char], first: usize) -> (r: Option<(StringMap, usize)>)
    requires
        first == line_end(text@, 0) + 2,
        first <= text.len(),
    ensures
        match r {
            Some((headers, body_from)) => {
                &&& forall|i: int|
                    0 <= i < header_lines(text@, first as int).len() ==> has_colon(
                        #[trigger] header_lines(text@, first as int)[i],
                    )
                &&& headers@ == headers_of(header_lines(text@, first as int))
                &&& body_from <= text.len()
                &&& text@.subrange(body_from as int, text.len() as int) == body_text(text@)
            },
            None => exists|i: int|
                0 <= i < header_lines(text@, first as int).len() && !has_colon(
                    #[trigger] header_lines(text@, first as int)[i],
                ),
        },
{
    let n = text.len();
    let mut headers = StringMap::new();
    let mut pos: usize = first;
    let ghost mut done: Seq<Seq<char>> = Seq::empty();
    proof {
        lemma_line_end(text@, 0);
        assert(header_lines(text@, first as int) =~= done + header_lines(text@, pos as int));
    }
    while pos < n
        invariant
            n == text.len(),
            2 <= pos <= n,
            line_break_at(text@, pos - 2),
            forall|q: int| 0 <= q < pos - 2 ==> !blank_line_at(text@, q),
            header_lines(text@, first as int) == done + header_lines(text@, pos as int),
            forall|i: int| 0 <= i < done.len() ==> has_colon(#[trigger] done[i]),
            headers@ == headers_of(done),
        decreases n - pos,
    {
        let end = find_line_end(text, pos);
        proof {
            lemma_line_end(text@, pos as int);
        }
        if end == pos {
            proof {
                lemma_first_blank_line_found(text@, 0, pos - 2);
                assert(header_lines(text@, first as int) =~= done);
            }
            return Some((headers, pos + 2));
        }
        let line = slice_subrange(text, pos, end);
        let ghost rest = header_lines(text@, end + 2);
        proof {
            assert(header_lines(text@, pos as int) == seq![line@] + rest);
            assert(header_lines(text@, first as int) =~= done.push(line@) + rest);
            assert(header_lines(text@, first as int)[done.len() as int] == line@);
        }
        match split_header(line) {
            None => {
                return None;
            },
            Some((name, value)) => {
                headers.insert(name, value);
            },
        }
        proof {
            assert(done.push(line@).drop_last() =~= done);
            assert(done.push(line@).last() == line@);
            done = done.push(line@);
            assert forall|q: int| 0 <= q < end implies !blank_line_at(text@, q) by {
                if q == pos - 2 {
                    assert(!line_break_at(text@, pos as int));
                }
            }
        }
        if end == n {
            proof {
                assert(rest =~= Seq::<Seq<char>>::empty());
                assert(header_lines(text@, first as int) =~= done);
                assert forall|q: int| 0 <= q < n implies !blank_line_at(text@, q) by {}
                lemma_first_blank_line_found(text@, 0, n as int);
                assert(text@.subrange(n as int, n as int) =~= Seq::<char>::empty());
            }
            return Some((headers, n));
        }
        pos = end + 2;
    }
    proof {
        assert(header_lines(text@, first as int) =~= done);
        assert forall|q: int| 0 <= q < n implies !blank_line_at(text@, q) by {}
        lemma_first_blank_line_found(text@, 0, n as int);
        assert(text@.subrange(n as int, n as int) =~= Seq::<char>::empty());
    }
    Some((headers, n))
}

/// Parses the text of a request.
pub fn parse_chars(text: &[char]) -> (r: Result<Request, ParseFailure>)
    ensures
        outcome_view(r) == parse_spec(text@),
        r matches Ok(request) ==> has_mandatory_fields(request@),
{
    proof {
        theorem_mandatory_fields(text@);
    }
    let n = text.len();
    let end = find_line_end(text, 0);
    let line = slice_subrange(text, 0, end);
    let a0 = scan_whitespace(line, 0);
    let b0 = scan_word(line, a0);
    let a1 = scan_whitespace(line, b0);
    let b1 = scan_word(line, a1);
    let a2 = scan_whitespace(line, b1);
    let b2 = scan_word(line, a2);
    proof {
        reveal_with_fuel(word_start, 3);
    }
    if a2 >= line.len() {
        return Err(ParseFailure::MalformedRequestLine);
    }
    let (headers, body_from) = if end < n {
        match read_headers(text, end + 2) {
            None => {
                return Err(ParseFailure::MalformedHeader);
            },
            Some(found) => found,
        }
    } else {
        proof {
            lemma_line_end(text@, 0);
            assert forall|q: int| 0 <= q < n implies !blank_line_at(text@, q) by {}
            lemma_first_blank_line_found(text@, 0, n as int);
            assert(text@.subrange(n as int, n as int) =~= Seq::<char>::empty());
        }
        (StringMap::new(), n)
    };
    let body = match headers.get("Content-Length") {
        None => String::new(),
        Some(value) => {
            let digits = chars_of(value.as_str());
            match parse_usize(digits.as_slice()) {
                None => {
                    return Err(ParseFailure::InvalidContentLength);
                },
                Some(length) => {
                    let rest = slice_subrange(text, body_from, n);
                    let k = count_within(rest, length);
                    text_of(slice_subrange(rest, 0, k))
                },
            }
        },
    };
    Ok(
        Request {
            method: text_of(slice_subrange(line, a0, b0)),
            path: text_of(slice_subrange(line, a1, b1)),
            protocol: text_of(slice_subrange(line, a2, b2)),
            headers,
            body,
        },
    )
}

impl Request {
    /// A request with the given fields.
    pub fn new(
        method: String,
        path: String,
        protocol: String,
        headers: StringMap,
        body: String,
    ) -> (r: Self)
        ensures
            r.method == method,
            r.path == path,
            r.protocol == protocol,
            r.headers == headers,
            r.body == body,
    {
        Request { method, path, protocol, headers, body }
    }

    /// Parses a request from its text.
    pub fn from_text(text: &str) -> (r: Result<Request, ParseFailure>)
        ensures
            outcome_view(r) == parse_spec(text@),
            r matches Ok(request) ==> has_mandatory_fields(request@),
    {
        let chars = chars_of(text);
        parse_chars(chars.as_slice())
    }

    /// Parses a request from the bytes of one read. Bytes that are no valid
    /// UTF-8 are replaced, never refused.
    pub fn parse(buffer: &[u8]) -> (r: Result<Request, ParseFailure>)
        ensures
            outcome_view(r) == parse_spec(utf8_lossy(buffer@)),
            valid_utf8(buffer@) ==> outcome_view(r) == parse_spec(decode_utf8(buffer@)),
            r matches Ok(request) ==> has_mandatory_fields(request@),
    {
        let text = decode_lossy(buffer);
        Request::from_text(text.as_str())
    }

    /// Parses a request from the bytes of one read, telling no more of a
    /// failure than that there was one.
    pub fn from_buffer(buffer: &[u8]) -> (r: Option<Request>)
        ensures
            option_view(r) == success_of(parse_spec(utf8_lossy(buffer@))),
            valid_utf8(buffer@) ==> option_view(r) == success_of(parse_spec(decode_utf8(buffer@))),
            r matches Some(request) ==> has_mandatory_fields(request@),
    {
        match Request::parse(buffer) {
            Ok(request) => Some(request),
            Err(_) => None,
        }
    }
}

} // verus!
