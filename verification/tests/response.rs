use http_engine::response::{
    content, empty, not_found, protocol_error, push_bytes, push_status_line, push_text, status_ok,
};
use http_engine::router::{select_strategy, ResponseStrategy};

fn respond(buffer: &[u8]) -> Vec<u8> {
    select_strategy(buffer).render(None)
}

#[test]
fn root_is_answered_with_an_empty_ok() {
    let response = respond(b"GET / HTTP/1.1\r\n\r\n");
    assert!(response.starts_with(b"HTTP/1.1 200 OK\r\n\r\n"));
    assert_eq!(response, b"HTTP/1.1 200 OK\r\n\r\n".to_vec());
}

#[test]
fn echo_is_answered_with_the_text() {
    let response = respond(b"GET /echo/abc HTTP/1.1\r\n\r\n");
    assert_eq!(
        response,
        b"HTTP/1.1 200 OK\r\nContent-Type: text/plain\r\nContent-Length: 3\r\n\r\nabc".to_vec()
    );
}

#[test]
fn user_agent_is_answered_with_the_header() {
    let response = respond(b"GET /user-agent HTTP/1.1\r\nUser-Agent: test-client\r\n\r\n");
    assert_eq!(
        response,
        b"HTTP/1.1 200 OK\r\nContent-Type: text/plain\r\nContent-Length: 11\r\n\r\ntest-client"
            .to_vec()
    );
}

#[test]
fn missing_user_agent_is_answered_with_unknown() {
    let response = respond(b"GET /user-agent HTTP/1.1\r\n\r\n");
    assert_eq!(
        response,
        b"HTTP/1.1 200 OK\r\nContent-Type: text/plain\r\nContent-Length: 7\r\n\r\nUnknown".to_vec()
    );
}

#[test]
fn missing_file_is_not_found() {
    let strategy = select_strategy(b"GET /files/missing.txt HTTP/1.1\r\n\r\n");
    assert_eq!(strategy, ResponseStrategy::FileServe("/missing.txt".to_string()));
    assert_eq!(strategy.file_path("public"), Some("public/missing.txt".to_string()));
    assert_eq!(strategy.render(None), b"HTTP/1.1 404 NOT FOUND\r\n\r\n".to_vec());
}

#[test]
fn other_protocol_is_refused() {
    let response = respond(b"POST / HTTP/1.0\r\n\r\n");
    assert_eq!(response, b"HTTP/1.1 505 HTTP VERSION NOT SUPPORTED\r\n\r\n".to_vec());
    let response = respond(b"GET /echo/abc HTTP/1.0\r\n\r\n");
    assert_eq!(response, b"HTTP/1.1 505 HTTP VERSION NOT SUPPORTED\r\n\r\n".to_vec());
}

#[test]
fn malformed_input_is_refused() {
    let refused = b"HTTP/1.1 505 HTTP VERSION NOT SUPPORTED\r\n\r\n".to_vec();
    assert_eq!(respond(b""), refused);
    assert_eq!(respond(b"GET /\r\n\r\n"), refused);
    assert_eq!(respond(b"GET / HTTP/1.1\r\nHost\r\n\r\n"), refused);
    assert_eq!(respond(b"GET / HTTP/1.1\r\nContent-Length: many\r\n\r\n"), refused);
    assert_eq!(respond(&[0xff, 0xfe, 0x00]), refused);
}

#[test]
fn unknown_route_is_not_found() {
    assert_eq!(respond(b"GET /nothing HTTP/1.1\r\n\r\n"), b"HTTP/1.1 404 NOT FOUND\r\n\r\n".to_vec());
    assert_eq!(respond(b"POST / HTTP/1.1\r\n\r\n"), b"HTTP/1.1 404 NOT FOUND\r\n\r\n".to_vec());
}

#[test]
fn file_is_served_as_bytes() {
    let strategy = select_strategy(b"GET /files/data.bin HTTP/1.1\r\n\r\n");
    let file: Vec<u8> = vec![0, 159, 146, 150, 255];
    let mut expected =
        b"HTTP/1.1 200 OK\r\nContent-Type: application/octet-stream\r\nContent-Length: 5\r\n\r\n"
            .to_vec();
    expected.extend_from_slice(&file);
    assert_eq!(strategy.render(Some(&file)), expected);
}

#[test]
fn empty_file_is_served() {
    let strategy = ResponseStrategy::FileServe("/empty".to_string());
    assert_eq!(
        strategy.render(Some(&[])),
        b"HTTP/1.1 200 OK\r\nContent-Type: application/octet-stream\r\nContent-Length: 0\r\n\r\n"
            .to_vec()
    );
}

#[test]
fn file_is_read_for_file_serve_alone() {
    let file: Vec<u8> = b"data".to_vec();
    assert_eq!(ResponseStrategy::StatusOk.render(Some(&file)), b"HTTP/1.1 200 OK\r\n\r\n".to_vec());
    assert_eq!(
        ResponseStrategy::NotFound.render(Some(&file)),
        b"HTTP/1.1 404 NOT FOUND\r\n\r\n".to_vec()
    );
    assert_eq!(
        ResponseStrategy::ProtocolError.render(Some(&file)),
        b"HTTP/1.1 505 HTTP VERSION NOT SUPPORTED\r\n\r\n".to_vec()
    );
    assert_eq!(
        ResponseStrategy::Echo("hi".to_string()).render(Some(&file)),
        b"HTTP/1.1 200 OK\r\nContent-Type: text/plain\r\nContent-Length: 2\r\n\r\nhi".to_vec()
    );
}

#[test]
fn file_path_is_root_and_remainder() {
    let strategy = ResponseStrategy::FileServe("/a/b.txt".to_string());
    assert_eq!(strategy.file_path("/srv/www"), Some("/srv/www/a/b.txt".to_string()));
    assert_eq!(strategy.file_path(""), Some("/a/b.txt".to_string()));
    assert_eq!(ResponseStrategy::StatusOk.file_path("public"), None);
    assert_eq!(ResponseStrategy::NotFound.file_path("public"), None);
    assert_eq!(ResponseStrategy::ProtocolError.file_path("public"), None);
    assert_eq!(ResponseStrategy::Echo("x".to_string()).file_path("public"), None);
    assert_eq!(ResponseStrategy::UserAgent("x".to_string()).file_path("public"), None);
}

#[test]
fn content_length_counts_bytes() {
    let response = ResponseStrategy::Echo("h\u{e9}".to_string()).render(None);
    let mut expected =
        b"HTTP/1.1 200 OK\r\nContent-Type: text/plain\r\nContent-Length: 3\r\n\r\n".to_vec();
    expected.extend_from_slice("h\u{e9}".as_bytes());
    assert_eq!(response, expected);
}

#[test]
fn content_length_is_a_decimal_numeral() {
    let body = vec![b'x'; 1234];
    let response = content("text/plain", &body);
    let head = b"HTTP/1.1 200 OK\r\nContent-Type: text/plain\r\nContent-Length: 1234\r\n\r\n";
    assert_eq!(&response[..head.len()], &head[..]);
    assert_eq!(&response[head.len()..], &body[..]);
    let body = vec![b'y'; 10];
    let response = content("a/b", &body);
    assert_eq!(
        response,
        b"HTTP/1.1 200 OK\r\nContent-Type: a/b\r\nContent-Length: 10\r\n\r\nyyyyyyyyyy".to_vec()
    );
}

#[test]
fn empty_echo() {
    assert_eq!(
        respond(b"GET /echo/ HTTP/1.1\r\n\r\n"),
        b"HTTP/1.1 200 OK\r\nContent-Type: text/plain\r\nContent-Length: 0\r\n\r\n".to_vec()
    );
}

#[test]
fn fixed_responses() {
    assert_eq!(status_ok(), b"HTTP/1.1 200 OK\r\n\r\n".to_vec());
    assert_eq!(not_found(), b"HTTP/1.1 404 NOT FOUND\r\n\r\n".to_vec());
    assert_eq!(protocol_error(), b"HTTP/1.1 505 HTTP VERSION NOT SUPPORTED\r\n\r\n".to_vec());
}

#[test]
fn status_lines_and_empty_responses() {
    let mut out = b"> ".to_vec();
    push_status_line(&mut out, "418 I'M A TEAPOT");
    assert_eq!(out, b"> HTTP/1.1 418 I'M A TEAPOT\r\n".to_vec());
    assert_eq!(empty("204 NO CONTENT"), b"HTTP/1.1 204 NO CONTENT\r\n\r\n".to_vec());
    assert_eq!(empty(""), b"HTTP/1.1 \r\n\r\n".to_vec());
}

#[test]
fn bytes_and_text_are_appended() {
    let mut out = b"ab".to_vec();
    push_bytes(&mut out, b"cd");
    assert_eq!(out, b"abcd".to_vec());
    push_bytes(&mut out, b"");
    assert_eq!(out, b"abcd".to_vec());
    push_text(&mut out, "\u{e9}!");
    assert_eq!(out, vec![b'a', b'b', b'c', b'd', 0xc3, 0xa9, b'!']);
}
