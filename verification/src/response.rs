//! The responses: what each strategy sends back, byte for byte.
use vstd::prelude::*;
use vstd::utf8::encode_utf8;
use crate::decimal::{decimal_digits, push_decimal};
use crate::router::{ResponseStrategy, StrategyView};

verus! {

/// A status line: the protocol, the status and a line break.
pub open spec fn status_line(status: Seq<char>) -> Seq<u8> {
    encode_utf8("HTTP/1.1 "@) + encode_utf8(status) + encode_utf8("\r\n"@)
}

/// A header line of a response: the name, a colon, a space, the value and a
/// line break.
pub open spec fn header_line(name: Seq<char>, value: Seq<u8>) -> Seq<u8> {
    encode_utf8(name) + encode_utf8(": "@) + value + encode_utf8("\r\n"@)
}

/// A response without headers and without a body: the status line and an
/// empty line.
pub open spec fn empty_response(status: Seq<char>) -> Seq<u8> {
    status_line(status) + encode_utf8("\r\n"@)
}

/// The empty response `200 OK`.
pub open spec fn status_ok_spec() -> Seq<u8> {
    empty_response("200 OK"@)
}

/// The empty response `404 NOT FOUND`.
pub open spec fn not_found_spec() -> Seq<u8> {
    empty_response("404 NOT FOUND"@)
}

/// The empty response `505 HTTP VERSION NOT SUPPORTED`.
pub open spec fn protocol_error_spec() -> Seq<u8> {
    empty_response("505 HTTP VERSION NOT SUPPORTED"@)
}

/// The response `200 OK` that carries `body`: the status line, the type of
/// the body, its length in bytes as a decimal numeral, an empty line and the
/// body itself.
pub open spec fn content_spec(content_type: Seq<char>, body: Seq<u8>) -> Seq<u8> {
    status_line("200 OK"@) + header_line("Content-Type"@, encode_utf8(content_type)) + header_line(
        "Content-Length"@,
        decimal_digits(body.len()),
    ) + encode_utf8("\r\n"@) + body
}

/// What a strategy sends back. `file` is read for `FileServe` alone: the bytes
/// of the file that it names, or `None` where that file could not be had, which
/// is answered like a route that does not exist.
pub open spec fn render_spec(strategy: StrategyView, file: Option<Seq<u8>>) -> Seq<u8> {
    match strategy {
        StrategyView::StatusOk => status_ok_spec(),
        StrategyView::NotFound => not_found_spec(),
        StrategyView::ProtocolError => protocol_error_spec(),
        StrategyView::Echo(text) => content_spec("text/plain"@, encode_utf8(text)),
        StrategyView::UserAgent(agent) => content_spec("text/plain"@, encode_utf8(agent)),
        StrategyView::FileServe(_) => match file {
            Some(bytes) => content_spec("application/octet-stream"@, bytes),
            None => not_found_spec(),
        },
    }
}

/// The bytes of a file that may be missing, as contracts see them.
pub open spec fn file_view(file: Option<&[u8]>) -> Option<Seq<u8>> {
    match file {
        Some(bytes) => Some(bytes@),
        None => None,
    }
}

/// Appends `bytes` to `out`.
pub fn push_bytes(out: &mut Vec<u8>, bytes: &[u8])
    ensures
        final(out)@ == old(out)@ + bytes@,
{
    let mut i: usize = 0;
    assert(out@ =~= old(out)@ + bytes@.subrange(0, 0));
    while i < bytes.len()
        invariant
            i <= bytes.len(),
            out@ == old(out)@ + bytes@.subrange(0, i as int),
        decreases bytes.len() - i,
    {
        out.push(bytes[i]);
        assert(out@ =~= old(out)@ + bytes@.subrange(0, i + 1));
        i += 1;
    }
    assert(bytes@.subrange(0, i as int) =~= bytes@);
}

/// Appends the UTF-8 encoding of `text` to `out`.
pub fn push_text(out: &mut Vec<u8>, text: &str)
    ensures
        final(out)@ == old(out)@ + encode_utf8(text@),
{
    push_bytes(out, text.as_bytes());
}

/// Appends a status line to `out`.
pub fn push_status_line(out: &mut Vec<u8>, status: &str)
    ensures
        final(out)@ == old(out)@ + status_line(status@),
{
    push_text(out, "HTTP/1.1 ");
    push_text(out, status);
    push_text(out, "\r\n");
    assert(out@ =~= old(out)@ + status_line(status@));
}

/// A response without headers and without a body.
pub fn empty(status: &str) -> (out: Vec<u8>)
    ensures
        out@ == empty_response(status@),
{
    let mut out: Vec<u8> = Vec::new();
    push_status_line(&mut out, status);
    push_text(&mut out, "\r\n");
    assert(out@ =~= empty_response(status@));
    out
}

/// The empty response `200 OK`.
pub fn status_ok() -> (out: Vec<u8>)
    ensures
        out@ == status_ok_spec(),
{
    empty("200 OK")
}

/// The empty response `404 NOT FOUND`.
pub fn not_found() -> (out: Vec<u8>)
    ensures
        out@ == not_found_spec(),
{
    empty("404 NOT FOUND")
}

/// The empty response `505 HTTP VERSION NOT SUPPORTED`.
pub fn protocol_error() -> (out: Vec<u8>)
    ensures
        out@ == protocol_error_spec(),
{
    empty("505 HTTP VERSION NOT SUPPORTED")
}

/// The response `200 OK` that carries `body` under the given content type.
pub fn content(content_type: &str, body: &[u8]) -> (out: Vec<u8>)
    ensures
        out@ == content_spec(content_type@, body@),
{
    let mut out: Vec<u8> = Vec::new();
    push_status_line(&mut out, "200 OK");
    push_text(&mut out, "Content-Type");
    push_text(&mut out, ": ");
    push_text(&mut out, content_type);
    push_text(&mut out, "\r\n");
    push_text(&mut out, "Content-Length");
    push_text(&mut out, ": ");
    push_decimal(&mut out, body.len());
    push_text(&mut out, "\r\n");
    push_text(&mut out, "\r\n");
    push_bytes(&mut out, body);
    assert(out@ =~= content_spec(content_type@, body@));
    out
}

impl ResponseStrategy {
    /// The bytes that this strategy sends back. `file` is read for `FileServe`
    /// alone: the bytes of the file it names, or `None` where that file could
    /// not be had.
    pub fn render(&self, file: Option<&[u8]>) -> (out: Vec<u8>)
        ensures
            out@ == render_spec(self@, file_view(file)),
    {
        match self {
            ResponseStrategy::StatusOk => status_ok(),
            ResponseStrategy::NotFound => not_found(),
            ResponseStrategy::ProtocolError => protocol_error(),
            ResponseStrategy::Echo(text) => content("text/plain", text.as_str().as_bytes()),
            ResponseStrategy::UserAgent(agent) => content("text/plain", agent.as_str().as_bytes()),
            ResponseStrategy::FileServe(_) => match file {
                Some(bytes) => content("application/octet-stream", bytes),
                None => not_found(),
            },
        }
    }

    /// The path of the file that this strategy serves from the directory
    /// `root`: the root and then the carried remainder. `None` for a strategy
    /// that serves no file.
    pub fn file_path(&self, root: &str) -> (r: Option<String>)
        ensures
            match self@ {
                StrategyView::FileServe(rest) => r matches Some(path) && path@ == root@ + rest,
                _ => r is None,
            },
    {
        match self {
            ResponseStrategy::FileServe(rest) => {
                let path = String::from_str(root).concat(rest.as_str());
                Some(path)
            },
            _ => None,
        }
    }
}

} // verus!
