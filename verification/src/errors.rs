//! What can go wrong on the way from a buffer to its answer, and how each
//! error shows in the response.
use vstd::prelude::*;
use crate::request::{outcome_view, ParseFailure, Request, RequestView};
use crate::response::{
    empty_response, file_view, not_found_spec, protocol_error_spec, render_spec, status_line,
};
use crate::router::{route, route_spec, strategy_spec, ResponseStrategy, StrategyView};

verus! {

/// What kept a request from an answer with `200 OK`.
#[derive(Clone, Copy, Debug, PartialEq, Eq, Structural)]
pub enum RequestError {
    /// The first line has fewer than three whitespace-delimited words.
    MalformedRequestLine,
    /// A header line has no colon.
    MalformedHeader,
    /// The value of `Content-Length` is no unsigned decimal numeral that a
    /// `usize` holds.
    InvalidContentLength,
    /// The request was read, but its protocol is not `HTTP/1.1`.
    UnsupportedProtocolVersion,
    /// No rule of the router matched method and path.
    RouteNotMatched,
    /// The file to serve could not be had.
    FileAccessFailure,
}

/// The error of a failed parse.
pub open spec fn parse_error_spec(failure: ParseFailure) -> RequestError {
    match failure {
        ParseFailure::MalformedRequestLine => RequestError::MalformedRequestLine,
        ParseFailure::MalformedHeader => RequestError::MalformedHeader,
        ParseFailure::InvalidContentLength => RequestError::InvalidContentLength,
    }
}

/// The error that the outcome of a parse runs into, if any. `file` is the
/// file that a request for one names, or `None` where it could not be had.
pub open spec fn error_spec(
    outcome: Result<RequestView, ParseFailure>,
    file: Option<Seq<u8>>,
) -> Option<RequestError> {
    match outcome {
        Err(failure) => Some(parse_error_spec(failure)),
        Ok(request) => match route_spec(request) {
            StrategyView::ProtocolError => Some(RequestError::UnsupportedProtocolVersion),
            StrategyView::NotFound => Some(RequestError::RouteNotMatched),
            StrategyView::FileServe(_) => if file is None {
                Some(RequestError::FileAccessFailure)
            } else {
                None
            },
            _ => None,
        },
    }
}

/// Whether an error is answered with `505 HTTP VERSION NOT SUPPORTED`; the
/// others are answered with `404 NOT FOUND`.
pub open spec fn is_protocol_error(error: RequestError) -> bool {
    match error {
        RequestError::RouteNotMatched => false,
        RequestError::FileAccessFailure => false,
        _ => true,
    }
}

/// The error of a failed parse.
pub fn parse_error(failure: ParseFailure) -> (error: RequestError)
    ensures
        error == parse_error_spec(failure),
{
    match failure {
        ParseFailure::MalformedRequestLine => RequestError::MalformedRequestLine,
        ParseFailure::MalformedHeader => RequestError::MalformedHeader,
        ParseFailure::InvalidContentLength => RequestError::InvalidContentLength,
    }
}

/// The error that the outcome of a parse runs into, if any. `file` is the
/// file that a request for one names, or `None` where it could not be had.
pub fn error_of(outcome: &Result<Request, ParseFailure>, file: Option<&[u8]>) -> (error: Option<
    RequestError,
>)
    ensures
        error == error_spec(outcome_view(*outcome), file_view(file)),
{
    match outcome {
        Err(failure) => Some(parse_error(*failure)),
        Ok(request) => match route(request) {
            ResponseStrategy::ProtocolError => Some(RequestError::UnsupportedProtocolVersion),
            ResponseStrategy::NotFound => Some(RequestError::RouteNotMatched),
            ResponseStrategy::FileServe(_) => if file.is_none() {
                Some(RequestError::FileAccessFailure)
            } else {
                None
            },
            _ => None,
        },
    }
}

/// Every outcome is answered, and the answer shows the error: a request that
/// could not be read or asks for another protocol gets the empty response
/// `505`, one that matches no route or names a file that cannot be had gets
/// the empty response `404`, and every other one gets a response that begins
/// with the status line `200 OK`.
pub proof fn theorem_errors_show_in_the_response(
    outcome: Result<RequestView, ParseFailure>,
    file: Option<Seq<u8>>,
)
    ensures
        match error_spec(outcome, file) {
            Some(error) => render_spec(strategy_spec(outcome), file) == (if is_protocol_error(
                error,
            ) {
                protocol_error_spec()
            } else {
                not_found_spec()
            }),
            None => status_line("200 OK"@).is_prefix_of(
                render_spec(strategy_spec(outcome), file),
            ),
        },
{
    let response = render_spec(strategy_spec(outcome), file);
    if error_spec(outcome, file) is None {
        assert(response.subrange(0, status_line("200 OK"@).len() as int) =~= status_line(
            "200 OK"@,
        ));
    }
}

} // verus!
