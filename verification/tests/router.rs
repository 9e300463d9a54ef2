use http_engine::request::{ParseFailure, Request};
use http_engine::router::{after_prefix, is_text, route, select_strategy, strategy_of, ResponseStrategy};
use http_engine::string_map::StringMap;

fn request(method: &str, path: &str, protocol: &str, headers: &[(&str, &str)]) -> Request {
    let mut table = StringMap::new();
    for (name, value) in headers {
        table.insert(name.to_string(), value.to_string());
    }
    Request::new(method.to_string(), path.to_string(), protocol.to_string(), table, String::new())
}

#[test]
fn root_is_status_ok() {
    assert_eq!(route(&request("GET", "/", "HTTP/1.1", &[])), ResponseStrategy::StatusOk);
}

#[test]
fn echo_carries_the_rest_of_the_path() {
    assert_eq!(
        route(&request("GET", "/echo/abc", "HTTP/1.1", &[])),
        ResponseStrategy::Echo("abc".to_string())
    );
    assert_eq!(
        route(&request("GET", "/echo/a/b?c=d", "HTTP/1.1", &[])),
        ResponseStrategy::Echo("a/b?c=d".to_string())
    );
    assert_eq!(
        route(&request("GET", "/echo/", "HTTP/1.1", &[])),
        ResponseStrategy::Echo(String::new())
    );
}

#[test]
fn echo_is_trimmed() {
    assert_eq!(
        route(&request("GET", "/echo/  a b \t", "HTTP/1.1", &[])),
        ResponseStrategy::Echo("a b".to_string())
    );
}

#[test]
fn echo_prefix_is_taken_off_once() {
    assert_eq!(
        route(&request("GET", "/echo//echo/abc", "HTTP/1.1", &[])),
        ResponseStrategy::Echo("/echo/abc".to_string())
    );
}

#[test]
fn echo_needs_its_slash() {
    assert_eq!(route(&request("GET", "/echo", "HTTP/1.1", &[])), ResponseStrategy::NotFound);
    assert_eq!(route(&request("GET", "/echoes", "HTTP/1.1", &[])), ResponseStrategy::NotFound);
}

#[test]
fn user_agent_is_taken_from_its_header() {
    assert_eq!(
        route(&request("GET", "/user-agent", "HTTP/1.1", &[("User-Agent", "test-client")])),
        ResponseStrategy::UserAgent("test-client".to_string())
    );
}

#[test]
fn user_agent_defaults_to_unknown() {
    assert_eq!(
        route(&request("GET", "/user-agent", "HTTP/1.1", &[("user-agent", "lower")])),
        ResponseStrategy::UserAgent("Unknown".to_string())
    );
    assert_eq!(
        route(&request("GET", "/user-agent", "HTTP/1.1", &[])),
        ResponseStrategy::UserAgent("Unknown".to_string())
    );
}

#[test]
fn files_carry_the_path_below_the_directory() {
    assert_eq!(
        route(&request("GET", "/files/missing.txt", "HTTP/1.1", &[])),
        ResponseStrategy::FileServe("/missing.txt".to_string())
    );
    assert_eq!(
        route(&request("GET", "/files/a/b.txt", "HTTP/1.1", &[])),
        ResponseStrategy::FileServe("/a/b.txt".to_string())
    );
    assert_eq!(
        route(&request("GET", "/files/", "HTTP/1.1", &[])),
        ResponseStrategy::FileServe("/".to_string())
    );
}

#[test]
fn files_need_their_slash() {
    assert_eq!(route(&request("GET", "/files", "HTTP/1.1", &[])), ResponseStrategy::NotFound);
    assert_eq!(route(&request("GET", "/filesystem", "HTTP/1.1", &[])), ResponseStrategy::NotFound);
}

#[test]
fn other_paths_are_not_found() {
    assert_eq!(route(&request("GET", "/nothing", "HTTP/1.1", &[])), ResponseStrategy::NotFound);
    assert_eq!(route(&request("GET", "", "HTTP/1.1", &[])), ResponseStrategy::NotFound);
    assert_eq!(route(&request("GET", "/user-agent/", "HTTP/1.1", &[])), ResponseStrategy::NotFound);
}

#[test]
fn other_methods_are_not_found() {
    assert_eq!(route(&request("POST", "/", "HTTP/1.1", &[])), ResponseStrategy::NotFound);
    assert_eq!(route(&request("get", "/", "HTTP/1.1", &[])), ResponseStrategy::NotFound);
    assert_eq!(route(&request("HEAD", "/echo/abc", "HTTP/1.1", &[])), ResponseStrategy::NotFound);
    assert_eq!(route(&request("PUT", "/files/a", "HTTP/1.1", &[])), ResponseStrategy::NotFound);
}

#[test]
fn protocol_is_checked_first() {
    assert_eq!(route(&request("GET", "/", "HTTP/1.0", &[])), ResponseStrategy::ProtocolError);
    assert_eq!(route(&request("POST", "/", "HTTP/1.0", &[])), ResponseStrategy::ProtocolError);
    assert_eq!(route(&request("GET", "/echo/abc", "HTTP/2", &[])), ResponseStrategy::ProtocolError);
    assert_eq!(route(&request("GET", "/", "http/1.1", &[])), ResponseStrategy::ProtocolError);
    assert_eq!(route(&request("GET", "/", "", &[])), ResponseStrategy::ProtocolError);
}

#[test]
fn headers_do_not_change_the_variant() {
    let plain = route(&request("GET", "/user-agent", "HTTP/1.1", &[]));
    let named = route(&request("GET", "/user-agent", "HTTP/1.1", &[("User-Agent", "x")]));
    assert!(matches!(plain, ResponseStrategy::UserAgent(_)));
    assert!(matches!(named, ResponseStrategy::UserAgent(_)));
    let plain = route(&request("GET", "/echo/abc", "HTTP/1.1", &[]));
    let named = route(&request("GET", "/echo/abc", "HTTP/1.1", &[("Host", "x"), ("A", "b")]));
    assert_eq!(plain, named);
    let plain = route(&request("GET", "/none", "HTTP/1.1", &[]));
    let named = route(&request("GET", "/none", "HTTP/1.1", &[("User-Agent", "x")]));
    assert_eq!(plain, named);
}

#[test]
fn failed_parse_is_a_protocol_error() {
    assert_eq!(
        strategy_of(&Err(ParseFailure::MalformedRequestLine)),
        ResponseStrategy::ProtocolError
    );
    assert_eq!(strategy_of(&Err(ParseFailure::MalformedHeader)), ResponseStrategy::ProtocolError);
    assert_eq!(
        strategy_of(&Err(ParseFailure::InvalidContentLength)),
        ResponseStrategy::ProtocolError
    );
    assert_eq!(
        strategy_of(&Ok(request("GET", "/", "HTTP/1.1", &[]))),
        ResponseStrategy::StatusOk
    );
}

#[test]
fn strategy_for_a_buffer() {
    assert_eq!(select_strategy(b"GET / HTTP/1.1\r\n\r\n"), ResponseStrategy::StatusOk);
    assert_eq!(
        select_strategy(b"GET /echo/abc HTTP/1.1\r\n\r\n"),
        ResponseStrategy::Echo("abc".to_string())
    );
    assert_eq!(
        select_strategy(b"GET /user-agent HTTP/1.1\r\nUser-Agent: test-client\r\n\r\n"),
        ResponseStrategy::UserAgent("test-client".to_string())
    );
    assert_eq!(select_strategy(b"GET /"), ResponseStrategy::ProtocolError);
    assert_eq!(select_strategy(b"GET / HTTP/1.1\r\nHost\r\n\r\n"), ResponseStrategy::ProtocolError);
    assert_eq!(
        select_strategy(b"GET / HTTP/1.1\r\nContent-Length: x\r\n\r\n"),
        ResponseStrategy::ProtocolError
    );
    assert_eq!(select_strategy(b"DELETE /x HTTP/1.1\r\n\r\n"), ResponseStrategy::NotFound);
}

#[test]
fn text_is_compared_whole() {
    let s: Vec<char> = "GET".chars().collect();
    assert!(is_text(&s, "GET"));
    assert!(!is_text(&s, "GE"));
    assert!(!is_text(&s, "GETS"));
    assert!(!is_text(&s, "get"));
    assert!(!is_text(&s, ""));
    assert!(is_text(&[], ""));
}

#[test]
fn what_follows_a_prefix() {
    let s: Vec<char> = "/echo/abc".chars().collect();
    let rest: Vec<char> = "abc".chars().collect();
    assert_eq!(after_prefix(&s, "/echo/"), Some(&rest[..]));
    assert_eq!(after_prefix(&s, ""), Some(&s[..]));
    assert_eq!(after_prefix(&s, "/echo/abc"), Some(&rest[..0]));
    assert_eq!(after_prefix(&s, "/echo/abcd"), None);
    assert_eq!(after_prefix(&s, "echo"), None);
}
