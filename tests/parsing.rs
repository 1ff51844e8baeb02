use jwhttp::fields::Fields;
use jwhttp::parser::{parse_accept, parse_params};
use jwhttp::HttpRequest;

fn lines(ls: &[&str]) -> Vec<String> {
    ls.iter().map(|l| l.to_string()).collect()
}

fn param(f: &Fields, k: &str) -> Option<String> {
    f.get(&k.to_string())
}

#[test]
fn parses_request_line_and_host() {
    let r = HttpRequest::new(lines(&["GET /x HTTP/1.1", "Host: h"]));
    assert_eq!(r.method, "GET");
    assert_eq!(r.path, "/x");
    assert_eq!(r.version, "HTTP/1.1");
    assert_eq!(r.host, "h");
    assert!(!r.bad_request);
    assert_eq!(r.headers.len(), 1);
    assert_eq!(r.headers.get(&"Host".to_string()), Some("h".to_string()));
}

#[test]
fn request_line_extra_tokens_ignored() {
    let r = HttpRequest::new(lines(&["POST\t/a   HTTP/1.0 extra more"]));
    assert_eq!(r.method, "POST");
    assert_eq!(r.path, "/a");
    assert_eq!(r.version, "HTTP/1.0");
    assert!(!r.bad_request);
}

#[test]
fn query_string_two_params() {
    let r = HttpRequest::new(lines(&["GET /p?a=1&b=2 HTTP/1.1"]));
    assert_eq!(r.path, "/p");
    assert_eq!(r.params.len(), 2);
    assert_eq!(param(&r.params, "a"), Some("1".to_string()));
    assert_eq!(param(&r.params, "b"), Some("2".to_string()));
}

#[test]
fn query_string_empty_value_dropped() {
    let r = HttpRequest::new(lines(&["GET /p?a=&b=2 HTTP/1.1"]));
    assert_eq!(r.params.len(), 1);
    assert_eq!(param(&r.params, "a"), None);
    assert_eq!(param(&r.params, "b"), Some("2".to_string()));
}

#[test]
fn query_string_duplicate_key_last_wins() {
    let p = parse_params("a=1&b=2&a=3");
    assert_eq!(p.len(), 2);
    assert_eq!(param(&p, "a"), Some("3".to_string()));
    assert_eq!(p.keys(), vec!["a".to_string(), "b".to_string()]);
}

#[test]
fn query_string_pairs_are_trimmed() {
    let p = parse_params(" k = v &=x&y=&novalue");
    assert_eq!(p.len(), 1);
    assert_eq!(param(&p, "k"), Some("v".to_string()));
}

#[test]
fn empty_query_gives_no_params() {
    let r = HttpRequest::new(lines(&["GET /p? HTTP/1.1"]));
    assert_eq!(r.path, "/p");
    assert_eq!(r.params.len(), 0);
}

#[test]
fn accept_keeps_raw_fragments() {
    let r = HttpRequest::new(lines(&[
        "GET / HTTP/1.1",
        "Accept: text/html, application/json",
    ]));
    assert_eq!(r.accept, vec!["text/html".to_string(), " application/json".to_string()]);
    assert_eq!(parse_accept("a,,b "), vec!["a".to_string(), "".to_string(), "b ".to_string()]);
}

#[test]
fn header_without_colon_is_bad() {
    let r = HttpRequest::new(lines(&["GET / HTTP/1.1", "Host: h", "garbage"]));
    assert!(r.bad_request);
    assert_eq!(r.host, "h");
    assert_eq!(r.headers.get(&"".to_string()), Some("".to_string()));
}

#[test]
fn headers_last_write_wins_and_case_sensitive() {
    let r = HttpRequest::new(lines(&[
        "GET / HTTP/1.1",
        "X-A: 1",
        "x-a: 2",
        "X-A:  3 ",
        "Connection: keep-alive",
    ]));
    assert_eq!(r.headers.len(), 3);
    assert_eq!(r.headers.get(&"X-A".to_string()), Some("3".to_string()));
    assert_eq!(r.headers.get(&"x-a".to_string()), Some("2".to_string()));
    assert_eq!(r.connection, "keep-alive");
}

#[test]
fn header_value_keeps_later_colons() {
    let r = HttpRequest::new(lines(&["GET / HTTP/1.1", "Host: example.com:8080"]));
    assert_eq!(r.host, "example.com:8080");
}

#[test]
fn crlf_line_ends_parsing() {
    let r = HttpRequest::new(lines(&["GET / HTTP/1.1", "\r\n", "garbage"]));
    assert!(!r.bad_request);
    assert_eq!(r.headers.len(), 0);
}

#[test]
fn no_lines_gives_empty_request() {
    let r = HttpRequest::new(Vec::new());
    assert_eq!(r.method, "");
    assert_eq!(r.path, "");
    assert!(!r.bad_request);
}

#[test]
fn fields_insert_replaces() {
    let mut f = Fields::new();
    f.insert("a".to_string(), "1".to_string());
    f.insert("b".to_string(), "2".to_string());
    f.insert("a".to_string(), "9".to_string());
    assert_eq!(f.len(), 2);
    assert_eq!(param(&f, "a"), Some("9".to_string()));
    assert_eq!(f.keys(), vec!["a".to_string(), "b".to_string()]);
}
