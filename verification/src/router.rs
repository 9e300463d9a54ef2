//! The router: from a request to the strategy that answers it.
use vstd::prelude::*;
use vstd::slice::slice_subrange;
use crate::request::{outcome_view, parse_spec, utf8_lossy, ParseFailure, Request, RequestView};
use crate::text::{chars_of, same_text, starts_with, text_of, trim, trim_slice};

verus! {

/// How a request is answered.
#[derive(Debug, PartialEq, Eq)]
pub enum ResponseStrategy {
    /// An empty `200 OK`.
    StatusOk,
    /// An empty `404 NOT FOUND`.
    NotFound,
    /// An empty `505 HTTP VERSION NOT SUPPORTED`.
    ProtocolError,
    /// The given text, sent back as plain text.
    Echo(String),
    /// The client's user agent, sent back as plain text.
    UserAgent(String),
    /// The file that the given path names below the served directory.
    FileServe(String),
}

/// A strategy as contracts see it.
pub ghost enum StrategyView {
    StatusOk,
    NotFound,
    ProtocolError,
    Echo(Seq<char>),
    UserAgent(Seq<char>),
    FileServe(Seq<char>),
}

impl View for ResponseStrategy {
    type V = StrategyView;

    open spec fn view(&self) -> StrategyView {
        match self {
            ResponseStrategy::StatusOk => StrategyView::StatusOk,
            ResponseStrategy::NotFound => StrategyView::NotFound,
            ResponseStrategy::ProtocolError => StrategyView::ProtocolError,
            ResponseStrategy::Echo(text) => StrategyView::Echo(text@),
            ResponseStrategy::UserAgent(agent) => StrategyView::UserAgent(agent@),
            ResponseStrategy::FileServe(path) => StrategyView::FileServe(path@),
        }
    }
}

/// Whether two strategies are of the same variant, whatever they carry.
pub open spec fn same_variant(a: StrategyView, b: StrategyView) -> bool {
    match a {
        StrategyView::StatusOk => b is StatusOk,
        StrategyView::NotFound => b is NotFound,
        StrategyView::ProtocolError => b is ProtocolError,
        StrategyView::Echo(_) => b is Echo,
        StrategyView::UserAgent(_) => b is UserAgent,
        StrategyView::FileServe(_) => b is FileServe,
    }
}

/// The user agent that a header table names, or `Unknown`.
pub open spec fn user_agent_of(headers: Map<Seq<char>, Seq<char>>) -> Seq<char> {
    if headers.contains_key("User-Agent"@) {
        headers["User-Agent"@]
    } else {
        "Unknown"@
    }
}

/// The strategy for a request. A protocol other than `HTTP/1.1` is an error
/// whatever else the request says; after that the rules are tried in the order
/// in which they stand, and the first that matches wins.
pub open spec fn route_spec(request: RequestView) -> StrategyView {
    if request.protocol != "HTTP/1.1"@ {
        StrategyView::ProtocolError
    } else if request.method != "GET"@ {
        StrategyView::NotFound
    } else if request.path == "/"@ {
        StrategyView::StatusOk
    } else if "/echo/"@.is_prefix_of(request.path) {
        StrategyView::Echo(trim(request.path.skip("/echo/"@.len() as int)))
    } else if request.path == "/user-agent"@ {
        StrategyView::UserAgent(user_agent_of(request.headers))
    } else if "/files/"@.is_prefix_of(request.path) {
        StrategyView::FileServe(request.path.skip("/files"@.len() as int))
    } else {
        StrategyView::NotFound
    }
}

/// The strategy for the outcome of a parse: a text that holds no request is
/// answered as a protocol error.
pub open spec fn strategy_spec(outcome: Result<RequestView, ParseFailure>) -> StrategyView {
    match outcome {
        Ok(request) => route_spec(request),
        Err(_) => StrategyView::ProtocolError,
    }
}

/// Whether `s` is the text `expected`.
pub fn is_text(s: &[char], expected: &str) -> (r: bool)
    ensures
        r == (s@ == expected@),
{
    let other = chars_of(expected);
    same_text(s, other.as_slice())
}

/// What follows `prefix` in `s`, where `s` begins with it.
pub fn after_prefix<'a>(s: &'a [char], prefix: &str) -> (r: Option<&'a [char]>)
    ensures
        match r {
            Some(rest) => prefix@.is_prefix_of(s@) && rest@ == s@.skip(prefix@.len() as int),
            None => !prefix@.is_prefix_of(s@),
        },
{
    let head = chars_of(prefix);
    if starts_with(s, head.as_slice()) {
        Some(slice_subrange(s, head.len(), s.len()))
    } else {
        None
    }
}

/// Selects the strategy that answers `request`.
pub fn route(request: &Request) -> (s: ResponseStrategy)
    ensures
        s@ == route_spec(request@),
{
    let protocol = chars_of(request.protocol.as_str());
    if !is_text(protocol.as_slice(), "HTTP/1.1") {
        return ResponseStrategy::ProtocolError;
    }
    let method = chars_of(request.method.as_str());
    if !is_text(method.as_slice(), "GET") {
        return ResponseStrategy::NotFound;
    }
    let path = chars_of(request.path.as_str());
    if is_text(path.as_slice(), "/") {
        return ResponseStrategy::StatusOk;
    }
    if let Some(rest) = after_prefix(path.as_slice(), "/echo/") {
        return ResponseStrategy::Echo(text_of(trim_slice(rest)));
    }
    if is_text(path.as_slice(), "/user-agent") {
        let agent = match request.headers.get("User-Agent") {
            Some(agent) => agent.clone(),
            None => String::from_str("Unknown"),
        };
        return ResponseStrategy::UserAgent(agent);
    }
    if after_prefix(path.as_slice(), "/files/").is_some() {
        proof {
            reveal_strlit("/files/");
            reveal_strlit("/files");
        }
        let rest = slice_subrange(path.as_slice(), 6, path.len());
        return ResponseStrategy::FileServe(text_of(rest));
    }
    ResponseStrategy::NotFound
}

/// Selects the strategy that answers the outcome of a parse.
pub fn strategy_of(outcome: &Result<Request, ParseFailure>) -> (s: ResponseStrategy)
    ensures
        s@ == strategy_spec(outcome_view(*outcome)),
{
    match outcome {
        Ok(request) => route(request),
        Err(_) => ResponseStrategy::ProtocolError,
    }
}

/// Selects the strategy that answers the bytes of one read.
pub fn select_strategy(buffer: &[u8]) -> (s: ResponseStrategy)
    ensures
        s@ == strategy_spec(parse_spec(utf8_lossy(buffer@))),
{
    let outcome = Request::parse(buffer);
    strategy_of(&outcome)
}

} // verus!
