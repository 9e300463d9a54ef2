//! What holds of the parser and of the router on all inputs.
use vstd::prelude::*;
use vstd::utf8::{decode_utf8, encode_utf8, valid_utf8};
use crate::decimal::parse_usize_spec;
use crate::request::{
    blank_line_at, body_text, has_colon, has_mandatory_fields, header_lines, header_name,
    header_value, headers_of, lemma_first_blank_line_found, outcome_view, parse_spec,
    request_line, utf8_lossy, ParseFailure, Request, RequestView,
};
use crate::router::{route_spec, same_variant, StrategyView};
use crate::text::{
    has_word, is_trimmed, is_whitespace, is_word, lemma_index_of_char_found,
    lemma_line_end_found, lemma_skip_whitespace, lemma_skip_whitespace_found, lemma_skip_word,
    lemma_skip_word_found, lemma_take_bytes, lemma_trim_padded, lemma_trim_trimmed,
    line_break_at, skip_whitespace, skip_word, take_bytes, utf8_width, word, word_end,
    word_start,
};

verus! {

/// A line break: a carriage return and a line feed.
pub open spec fn line_break() -> Seq<char> {
    seq!['\r', '\n']
}

/// Whether no line break begins anywhere in `s`.
pub open spec fn no_line_break(s: Seq<char>) -> bool {
    forall|i: int| !line_break_at(s, i)
}

/// Whether a name and a value can stand in a header line and be read back as
/// they are: neither has whitespace at its ends or a line break inside, and
/// the name has no colon.
pub open spec fn well_formed_header(field: (Seq<char>, Seq<char>)) -> bool {
    &&& is_trimmed(field.0)
    &&& is_trimmed(field.1)
    &&& no_line_break(field.0)
    &&& no_line_break(field.1)
    &&& forall|i: int| 0 <= i < field.0.len() ==> field.0[i] != ':'
}

/// A header line: the name, a colon, a space and the value.
pub open spec fn header_text(field: (Seq<char>, Seq<char>)) -> Seq<char> {
    field.0 + seq![':', ' '] + field.1
}

/// The header lines of the given fields, each ended by a line break.
pub open spec fn headers_text(fields: Seq<(Seq<char>, Seq<char>)>) -> Seq<char>
    decreases fields.len(),
{
    if fields.len() == 0 {
        Seq::empty()
    } else {
        header_text(fields[0]) + line_break() + headers_text(fields.drop_first())
    }
}

/// The header table of the given fields, a later field replacing an earlier
/// one of the same name.
pub open spec fn header_table(fields: Seq<(Seq<char>, Seq<char>)>) -> Map<Seq<char>, Seq<char>>
    decreases fields.len(),
{
    if fields.len() == 0 {
        Map::empty()
    } else {
        header_table(fields.drop_last()).insert(fields.last().0, fields.last().1)
    }
}

/// A request line: method, path and protocol with one space between them.
pub open spec fn request_line_text(
    method: Seq<char>,
    path: Seq<char>,
    protocol: Seq<char>,
) -> Seq<char> {
    method + seq![' '] + path + seq![' '] + protocol
}

/// The text of a request: the request line, the header lines, an empty line
/// and the body.
pub open spec fn request_text(
    method: Seq<char>,
    path: Seq<char>,
    protocol: Seq<char>,
    fields: Seq<(Seq<char>, Seq<char>)>,
    body: Seq<char>,
) -> Seq<char> {
    request_line_text(method, path, protocol) + line_break() + headers_text(fields) + line_break()
        + body
}

/// A header line made of a well-formed field has no line break inside, and
/// is read back as the field's name and value.
pub proof fn lemma_header_line(field: (Seq<char>, Seq<char>))
    requires
        well_formed_header(field),
    ensures
        header_text(field).len() >= 2,
        no_line_break(header_text(field)),
        has_colon(header_text(field)),
        header_name(header_text(field)) == field.0,
        header_value(header_text(field)) == field.1,
{
    let name = field.0;
    let value = field.1;
    let l = header_text(field);
    let n = name.len() as int;
    assert(l.len() == n + 2 + value.len());
    assert forall|j: int| 0 <= j < n implies l[j] == name[j] by {}
    assert(l[n] == ':');
    assert(l[n + 1] == ' ');
    assert forall|j: int| n + 2 <= j < l.len() implies l[j] == value[j - n - 2] by {}
    assert forall|i: int| !line_break_at(l, i) by {
        if line_break_at(l, i) {
            if i + 1 < n {
                assert(line_break_at(name, i));
            } else if i >= n + 2 {
                assert(line_break_at(value, i - n - 2));
            }
        }
    }
    lemma_index_of_char_found(l, ':', 0, n);
    assert(l.subrange(0, n) =~= name);
    lemma_trim_trimmed(name);
    assert(l.subrange(n + 1, l.len() as int) =~= seq![' '] + value + Seq::<char>::empty());
    lemma_trim_padded(seq![' '], value, Seq::empty());
}

/// A request line made of three words is read back as those words, and holds
/// no carriage return.
pub proof fn lemma_request_line_words(method: Seq<char>, path: Seq<char>, protocol: Seq<char>)
    requires
        is_word(method),
        is_word(path),
        is_word(protocol),
    ensures
        has_word(request_line_text(method, path, protocol), 2),
        word(request_line_text(method, path, protocol), 0) == method,
        word(request_line_text(method, path, protocol), 1) == path,
        word(request_line_text(method, path, protocol), 2) == protocol,
        forall|j: int|
            0 <= j < request_line_text(method, path, protocol).len() ==> request_line_text(
                method,
                path,
                protocol,
            )[j] != '\r',
{
    let l = request_line_text(method, path, protocol);
    let a1: int = method.len() as int + 1;
    let a2: int = a1 + path.len() + 1;
    assert(l.len() == a2 + protocol.len());
    assert forall|j: int| 0 <= j < method.len() implies l[j] == method[j] by {}
    assert(l[a1 - 1] == ' ');
    assert forall|j: int| a1 <= j < a2 - 1 implies l[j] == path[j - a1] by {}
    assert(l[a2 - 1] == ' ');
    assert forall|j: int| a2 <= j < l.len() implies l[j] == protocol[j - a2] by {}
    assert(is_whitespace(' '));
    assert(is_whitespace('\r'));
    reveal_with_fuel(word_start, 3);
    lemma_skip_whitespace_found(l, 0, 0);
    lemma_skip_word_found(l, 0, a1 - 1);
    lemma_skip_whitespace_found(l, a1 - 1, a1);
    lemma_skip_word_found(l, a1, a2 - 1);
    lemma_skip_whitespace_found(l, a2 - 1, a2);
    lemma_skip_word_found(l, a2, l.len() as int);
    assert(word_start(l, 0) == 0);
    assert(word_start(l, 1) == a1);
    assert(word_start(l, 2) == a2);
    assert(l.subrange(0, a1 - 1) =~= method);
    assert(l.subrange(a1, a2 - 1) =~= path);
    assert(l.subrange(a2, l.len() as int) =~= protocol);
}

/// The lines of the given fields.
pub open spec fn header_line_texts(fields: Seq<(Seq<char>, Seq<char>)>) -> Seq<Seq<char>> {
    Seq::new(fields.len(), |i: int| header_text(fields[i]))
}

/// The lines of well-formed fields make the table of those fields.
pub proof fn lemma_header_table(fields: Seq<(Seq<char>, Seq<char>)>)
    requires
        forall|i: int| 0 <= i < fields.len() ==> well_formed_header(#[trigger] fields[i]),
    ensures
        headers_of(header_line_texts(fields)) == header_table(fields),
        forall|i: int|
            0 <= i < fields.len() ==> has_colon(#[trigger] header_line_texts(fields)[i]),
    decreases fields.len(),
{
    let lines = header_line_texts(fields);
    assert forall|i: int| 0 <= i < fields.len() implies has_colon(#[trigger] lines[i]) by {
        lemma_header_line(fields[i]);
    }
    if fields.len() > 0 {
        lemma_header_table(fields.drop_last());
        lemma_header_line(fields.last());
        assert(lines.drop_last() =~= header_line_texts(fields.drop_last()));
        assert(lines.last() == header_text(fields.last()));
    }
}

/// In a text where header lines of well-formed fields follow a line break and
/// an empty line follows them, the header lines are found as they were
/// written, and no empty line is found before the one that ends them.
pub proof fn lemma_header_block(
    before: Seq<char>,
    fields: Seq<(Seq<char>, Seq<char>)>,
    body: Seq<char>,
)
    requires
        before.len() >= 2,
        before[before.len() - 2] == '\r',
        before[before.len() - 1] == '\n',
        forall|i: int| 0 <= i < fields.len() ==> well_formed_header(#[trigger] fields[i]),
    ensures
        ({
            let text = before + headers_text(fields) + line_break() + body;
            let stop = before.len() + headers_text(fields).len();
            &&& header_lines(text, before.len() as int) == header_line_texts(fields)
            &&& blank_line_at(text, stop - 2)
            &&& forall|q: int| before.len() - 2 <= q < stop - 2 ==> !blank_line_at(text, q)
        }),
    decreases fields.len(),
{
    let text = before + headers_text(fields) + line_break() + body;
    let pos = before.len() as int;
    let stop: int = pos + headers_text(fields).len();
    if fields.len() == 0 {
        assert(text[pos - 2] == before[pos - 2]);
        assert(text[pos - 1] == before[pos - 1]);
        assert(text[pos] == '\r');
        assert(text[pos + 1] == '\n');
        assert(line_break_at(text, pos));
        assert(header_lines(text, pos) =~= header_line_texts(fields));
    } else {
        let l = header_text(fields[0]);
        let rest = fields.drop_first();
        let next = before + l + line_break();
        let tail = line_break() + headers_text(rest) + line_break() + body;
        lemma_header_line(fields[0]);
        assert(text =~= before + l + tail);
        assert(text =~= next + headers_text(rest) + line_break() + body);
        assert forall|i: int| 0 <= i < rest.len() implies well_formed_header(
            #[trigger] rest[i],
        ) by {
            assert(rest[i] == fields[i + 1]);
        }
        lemma_header_block(next, rest, body);
        let end: int = pos + l.len();
        assert(text[pos - 2] == '\r');
        assert(text[pos - 1] == '\n');
        assert forall|j: int| 0 <= j < l.len() implies text[pos + j] == l[j] by {}
        assert(text[end] == '\r');
        assert(text[end + 1] == '\n');
        assert forall|j: int| pos <= j < end implies !line_break_at(text, j) by {
            if line_break_at(text, j) {
                if j + 1 < end {
                    assert(text[j] == l[j - pos]);
                    assert(text[j + 1] == l[j + 1 - pos]);
                    assert(line_break_at(l, j - pos));
                }
            }
        }
        lemma_line_end_found(text, pos, end);
        assert(text.subrange(pos, end) =~= l);
        assert(header_lines(text, pos) == seq![l] + header_lines(text, end + 2));
        assert(seq![l] + header_line_texts(rest) =~= header_line_texts(fields)) by {
            assert forall|i: int| 0 <= i < fields.len() implies (seq![l] + header_line_texts(
                rest,
            ))[i] == header_line_texts(fields)[i] by {
                if i > 0 {
                    assert(rest[i - 1] == fields[i]);
                }
            }
        }
        assert forall|q: int| pos - 2 <= q < stop - 2 implies !blank_line_at(text, q) by {
            if q == pos - 1 {
                assert(text[q] == '\n');
            }
        }
    }
}

/// What is read back from a request that was written out from the given
/// parts: the parts as they are. The body is read under a `Content-Length`
/// header alone, as far as the length that it declares reaches; such a header
/// that declares no length makes the request invalid.
pub open spec fn read_back(
    method: Seq<char>,
    path: Seq<char>,
    protocol: Seq<char>,
    fields: Seq<(Seq<char>, Seq<char>)>,
    body: Seq<char>,
) -> Result<RequestView, ParseFailure> {
    let headers = header_table(fields);
    if !headers.contains_key("Content-Length"@) {
        Ok(RequestView { method, path, protocol, headers, body: Seq::empty() })
    } else {
        match parse_usize_spec(headers["Content-Length"@]) {
            None => Err(ParseFailure::InvalidContentLength),
            Some(n) => Ok(
                RequestView { method, path, protocol, headers, body: take_bytes(body, n as int) },
            ),
        }
    }
}

/// A request written out from three words, well-formed header fields and a
/// body is read back as what was written. It is refused only for a
/// `Content-Length` header that declares no length; whenever it is read,
/// method, path, protocol and headers are those that were written, and so is
/// the body where the declared length is its length in bytes or more.
pub proof fn theorem_well_formed_request_parses(
    method: Seq<char>,
    path: Seq<char>,
    protocol: Seq<char>,
    fields: Seq<(Seq<char>, Seq<char>)>,
    body: Seq<char>,
)
    requires
        is_word(method),
        is_word(path),
        is_word(protocol),
        forall|i: int| 0 <= i < fields.len() ==> well_formed_header(#[trigger] fields[i]),
    ensures
        parse_spec(request_text(method, path, protocol, fields, body)) == read_back(
            method,
            path,
            protocol,
            fields,
            body,
        ),
        parse_spec(request_text(method, path, protocol, fields, body)) is Err <==> header_table(
            fields,
        ).contains_key("Content-Length"@) && parse_usize_spec(
            header_table(fields)["Content-Length"@],
        ) is None,
        parse_spec(request_text(method, path, protocol, fields, body)) matches Ok(request) ==> {
            &&& request.method == method
            &&& request.path == path
            &&& request.protocol == protocol
            &&& request.headers == header_table(fields)
            &&& request.headers.contains_key("Content-Length"@) && encode_utf8(body).len()
                <= parse_usize_spec(request.headers["Content-Length"@])->0 ==> request.body
                == body
        },
{
    if header_table(fields).contains_key("Content-Length"@) {
        if let Some(n) = parse_usize_spec(header_table(fields)["Content-Length"@]) {
            lemma_take_bytes(body, n as int);
        }
    }
    let first = request_line_text(method, path, protocol);
    let before = first + line_break();
    let text = request_text(method, path, protocol, fields, body);
    let e = first.len() as int;
    let stop: int = before.len() as int + headers_text(fields).len();
    lemma_request_line_words(method, path, protocol);
    lemma_header_block(before, fields, body);
    lemma_header_table(fields);
    assert forall|j: int| 0 <= j < e implies text[j] == first[j] by {}
    assert(text[e] == '\r');
    assert(text[e + 1] == '\n');
    lemma_line_end_found(text, 0, e);
    assert(request_line(text) =~= first);
    assert forall|q: int| 0 <= q < stop - 2 implies !blank_line_at(text, q) by {
        if q < e {
            assert(text[q] != '\r');
        }
    }
    lemma_first_blank_line_found(text, 0, stop - 2);
    assert(body_text(text) =~= body);
    let lines = header_lines(text, e + 2);
    assert(lines == header_line_texts(fields));
    assert(!(exists|i: int| 0 <= i < lines.len() && !has_colon(#[trigger] lines[i])));
}

/// A buffer that holds, in UTF-8, a request written out for `HTTP/1.1` from a
/// method, a path, well-formed header fields and a body is valid UTF-8, and
/// its text is read back as what was written.
pub proof fn theorem_well_formed_buffer_parses(
    buffer: Seq<u8>,
    method: Seq<char>,
    path: Seq<char>,
    fields: Seq<(Seq<char>, Seq<char>)>,
    body: Seq<char>,
)
    requires
        is_word(method),
        is_word(path),
        forall|i: int| 0 <= i < fields.len() ==> well_formed_header(#[trigger] fields[i]),
        buffer == encode_utf8(request_text(method, path, "HTTP/1.1"@, fields, body)),
    ensures
        valid_utf8(buffer),
        parse_spec(decode_utf8(buffer)) == read_back(method, path, "HTTP/1.1"@, fields, body),
{
    broadcast use {vstd::utf8::encode_utf8_valid_utf8, vstd::utf8::encode_utf8_decode_utf8};

    reveal_strlit("HTTP/1.1");
    let text = request_text(method, path, "HTTP/1.1"@, fields, body);
    assert(valid_utf8(encode_utf8(text)));
    assert(decode_utf8(encode_utf8(text)) == text);
    theorem_well_formed_request_parses(method, path, "HTTP/1.1"@, fields, body);
}

/// A text is refused for its request line exactly where its first line has
/// fewer than three words.
pub proof fn theorem_short_request_line(text: Seq<char>)
    ensures
        !has_word(request_line(text), 2) <==> parse_spec(text) == Err::<
            RequestView,
            ParseFailure,
        >(ParseFailure::MalformedRequestLine),
{
}

/// The words of a text come in order: where there is a later word, there is
/// each earlier one. Each is a word, not empty and without whitespace, and
/// goes on until whitespace or the end of the text.
pub proof fn lemma_words(s: Seq<char>, k: nat)
    requires
        has_word(s, k),
    ensures
        0 <= word_start(s, k) < word_end(s, k) <= s.len(),
        is_word(word(s, k)),
        word_end(s, k) < s.len() ==> is_whitespace(s[word_end(s, k)]),
        forall|j: nat| j <= k ==> has_word(s, j),
    decreases k,
{
    lemma_skip_whitespace(s, 0);
    if k > 0 {
        let before = word_start(s, (k - 1) as nat);
        if before >= s.len() {
            lemma_word_start_bounds(s, (k - 1) as nat);
            assert(skip_word(s, before) == before);
            assert(skip_whitespace(s, before) == before);
        }
        lemma_words(s, (k - 1) as nat);
        lemma_skip_word(s, before);
        lemma_skip_whitespace(s, skip_word(s, before));
    }
    lemma_skip_word(s, word_start(s, k));
}

/// No word begins before the start of the text or after its end.
pub proof fn lemma_word_start_bounds(s: Seq<char>, k: nat)
    ensures
        0 <= word_start(s, k) <= s.len(),
    decreases k,
{
    lemma_skip_whitespace(s, 0);
    if k > 0 {
        lemma_word_start_bounds(s, (k - 1) as nat);
        lemma_skip_word(s, word_start(s, (k - 1) as nat));
        lemma_skip_whitespace(s, skip_word(s, word_start(s, (k - 1) as nat)));
    }
}

/// No request has an empty method, an empty path or an empty protocol: each
/// is a word of the request line.
pub proof fn theorem_mandatory_fields(text: Seq<char>)
    ensures
        parse_spec(text) matches Ok(request) ==> has_mandatory_fields(request) && is_word(
            request.method,
        ) && is_word(request.path) && is_word(request.protocol),
{
    let line = request_line(text);
    if has_word(line, 2) {
        lemma_words(line, 2);
        lemma_words(line, 1);
        lemma_words(line, 0);
    }
}

/// The body of a request is the beginning of what follows the first empty
/// line, and it is empty without a `Content-Length` header. Under one, its
/// UTF-8 encoding takes no more bytes than the header declares; it is all that
/// follows the empty line where that fits, and otherwise it stops just before
/// the character that would go beyond.
pub proof fn theorem_body_is_bounded(text: Seq<char>)
    ensures
        parse_spec(text) matches Ok(request) ==> {
            let available = body_text(text);
            &&& request.body.is_prefix_of(available)
            &&& !request.headers.contains_key("Content-Length"@) ==> request.body.len() == 0
            &&& request.headers.contains_key("Content-Length"@) ==> {
                &&& parse_usize_spec(request.headers["Content-Length"@]) matches Some(n)
                &&& encode_utf8(request.body).len() <= n
                &&& encode_utf8(available).len() <= n ==> request.body == available
                &&& request.body.len() < available.len() ==> encode_utf8(request.body).len()
                    + utf8_width(available[request.body.len() as int]) > n
            }
        },
{
    if let Ok(request) = parse_spec(text) {
        if request.headers.contains_key("Content-Length"@) {
            let n = parse_usize_spec(request.headers["Content-Length"@])->0;
            lemma_take_bytes(body_text(text), n as int);
        }
    }
}

/// Parsing is a function of the buffer: two outcomes that the parser may give
/// for the same bytes agree in every field.
pub proof fn theorem_parse_is_repeatable(
    buffer: Seq<u8>,
    first: Result<Request, ParseFailure>,
    second: Result<Request, ParseFailure>,
)
    requires
        outcome_view(first) == parse_spec(utf8_lossy(buffer)),
        outcome_view(second) == parse_spec(utf8_lossy(buffer)),
    ensures
        outcome_view(first) == outcome_view(second),
        first matches Ok(a) ==> second matches Ok(b) && a.method@ == b.method@ && a.path@
            == b.path@ && a.protocol@ == b.protocol@ && a.headers@ == b.headers@ && a.body@
            == b.body@,
        first matches Err(e) ==> second == Err::<Request, ParseFailure>(e),
{
}

/// The variant of the strategy depends on method, path and protocol alone,
/// and so does what it carries, but for the user agent.
pub proof fn theorem_route_by_request_line(a: RequestView, b: RequestView)
    requires
        a.method == b.method,
        a.path == b.path,
        a.protocol == b.protocol,
    ensures
        same_variant(route_spec(a), route_spec(b)),
        !(route_spec(a) is UserAgent) ==> route_spec(a) == route_spec(b),
{
}

/// A request for any protocol but `HTTP/1.1` is a protocol error, whatever
/// its method and its path.
pub proof fn theorem_protocol_gate(request: RequestView)
    requires
        request.protocol != "HTTP/1.1"@,
    ensures
        route_spec(request) == StrategyView::ProtocolError,
{
}

} // verus!
