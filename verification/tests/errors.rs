use http_engine::errors::{error_of, parse_error, RequestError};
use http_engine::request::{ParseFailure, Request};
use http_engine::router::strategy_of;

fn error(buffer: &[u8], file: Option<&[u8]>) -> Option<RequestError> {
    error_of(&Request::parse(buffer), file)
}

fn response(buffer: &[u8], file: Option<&[u8]>) -> Vec<u8> {
    strategy_of(&Request::parse(buffer)).render(file)
}

#[test]
fn malformed_request_line_is_an_error() {
    assert_eq!(error(b"GET /\r\n\r\n", None), Some(RequestError::MalformedRequestLine));
    assert_eq!(error(b"", None), Some(RequestError::MalformedRequestLine));
}

#[test]
fn malformed_header_is_an_error() {
    assert_eq!(error(b"GET / HTTP/1.1\r\nHost\r\n\r\n", None), Some(RequestError::MalformedHeader));
}

#[test]
fn invalid_content_length_is_an_error() {
    assert_eq!(
        error(b"GET / HTTP/1.1\r\nContent-Length: five\r\n\r\n", None),
        Some(RequestError::InvalidContentLength)
    );
}

#[test]
fn unsupported_protocol_version_is_an_error() {
    assert_eq!(error(b"GET / HTTP/1.0\r\n\r\n", None), Some(RequestError::UnsupportedProtocolVersion));
    assert_eq!(
        error(b"POST /files/a HTTP/2\r\n\r\n", Some(b"data")),
        Some(RequestError::UnsupportedProtocolVersion)
    );
}

#[test]
fn route_not_matched_is_an_error() {
    assert_eq!(error(b"GET /nothing HTTP/1.1\r\n\r\n", None), Some(RequestError::RouteNotMatched));
    assert_eq!(error(b"POST / HTTP/1.1\r\n\r\n", None), Some(RequestError::RouteNotMatched));
}

#[test]
fn file_access_failure_is_an_error() {
    assert_eq!(
        error(b"GET /files/missing.txt HTTP/1.1\r\n\r\n", None),
        Some(RequestError::FileAccessFailure)
    );
}

#[test]
fn answered_requests_have_no_error() {
    assert_eq!(error(b"GET / HTTP/1.1\r\n\r\n", None), None);
    assert_eq!(error(b"GET /echo/abc HTTP/1.1\r\n\r\n", None), None);
    assert_eq!(error(b"GET /user-agent HTTP/1.1\r\n\r\n", None), None);
    assert_eq!(error(b"GET /files/there.txt HTTP/1.1\r\n\r\n", Some(b"data")), None);
    assert_eq!(error(b"GET /files/empty.txt HTTP/1.1\r\n\r\n", Some(b"")), None);
}

#[test]
fn parse_failures_keep_their_names() {
    assert_eq!(parse_error(ParseFailure::MalformedRequestLine), RequestError::MalformedRequestLine);
    assert_eq!(parse_error(ParseFailure::MalformedHeader), RequestError::MalformedHeader);
    assert_eq!(parse_error(ParseFailure::InvalidContentLength), RequestError::InvalidContentLength);
}

#[test]
fn errors_show_in_the_response() {
    let cases: Vec<(&[u8], Option<&[u8]>)> = vec![
        (b"GET /", None),
        (b"GET / HTTP/1.1\r\nHost\r\n\r\n", None),
        (b"GET / HTTP/1.1\r\nContent-Length: x\r\n\r\n", None),
        (b"GET / HTTP/1.0\r\n\r\n", None),
        (b"GET /nothing HTTP/1.1\r\n\r\n", None),
        (b"GET /files/a HTTP/1.1\r\n\r\n", None),
        (b"GET /files/a HTTP/1.1\r\n\r\n", Some(b"data")),
        (b"GET / HTTP/1.1\r\n\r\n", None),
        (b"GET /echo/x HTTP/1.1\r\n\r\n", None),
        (b"GET /user-agent HTTP/1.1\r\n\r\n", None),
    ];
    for (buffer, file) in cases {
        let answer = response(buffer, file);
        match error(buffer, file) {
            Some(RequestError::RouteNotMatched) | Some(RequestError::FileAccessFailure) => {
                assert_eq!(answer, b"HTTP/1.1 404 NOT FOUND\r\n\r\n".to_vec());
            }
            Some(_) => {
                assert_eq!(answer, b"HTTP/1.1 505 HTTP VERSION NOT SUPPORTED\r\n\r\n".to_vec());
            }
            None => {
                assert!(answer.starts_with(b"HTTP/1.1 200 OK\r\n"));
            }
        }
    }
}
