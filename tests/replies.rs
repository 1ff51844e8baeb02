use jwhttp::reply::{keeps_open, page_of, reply_to, reply_with, ReadEnd, Reply};
use jwhttp::server::{after_accept, round_start, AcceptEvent, ListenAction};
use jwhttp::HttpRequest;

fn req(ls: &[&str]) -> HttpRequest {
    HttpRequest::new(ls.iter().map(|l| l.to_string()).collect())
}

fn sent(r: &Reply) -> (u16, String, bool) {
    match r {
        Reply::Send { status, text, keep_alive } => (*status, text.clone(), *keep_alive),
        Reply::Close => panic!("expected a reply to send"),
    }
}

const PAGE_X: &str =
    "<html><head><title>jwhttp</title></head><body>jwhttp's GET response to /x</body></html>";

#[test]
fn get_is_served_with_page() {
    let r = reply_to(&req(&["GET /x HTTP/1.1", "Host: h"]), ReadEnd::Blank, false);
    let (status, text, ka) = sent(&r);
    assert_eq!(status, 200);
    assert!(!ka);
    let expected = format!(
        "HTTP/1.1 200 OK\r\nContent-Type: text/html; charset=UTF-8\r\nConnection: close\r\nContent-Length: 87\r\n\r\n{}\r\n\r\n",
        PAGE_X
    );
    assert_eq!(text, expected);
    assert!(text.contains("GET") && text.contains("/x"));
    assert!(!keeps_open(&r, true));
}

#[test]
fn content_length_counts_bytes() {
    let r = reply_to(&req(&["GET /\u{e9} HTTP/1.1"]), ReadEnd::Blank, false);
    let (_, text, _) = sent(&r);
    assert!(text.contains("Content-Length: 88\r\n"));
}

#[test]
fn page_text() {
    assert_eq!(page_of("GET", "/x"), PAGE_X);
}

#[test]
fn favicon_is_not_found() {
    let r = reply_to(
        &req(&["GET /favicon.ico HTTP/1.1", "Connection: keep-alive"]),
        ReadEnd::Blank,
        false,
    );
    let (status, text, ka) = sent(&r);
    assert_eq!(status, 404);
    assert!(ka);
    assert_eq!(text, "HTTP/1.1 404 NOT FOUND\r\nConnection: keep-alive\r\n\r\n");
    let r = reply_to(&req(&["GET /favicon.ico HTTP/1.1"]), ReadEnd::Blank, false);
    assert_eq!(sent(&r).0, 404);
}

#[test]
fn missing_colon_is_bad_request_and_closes() {
    let r = reply_to(
        &req(&["GET / HTTP/1.1", "Connection: keep-alive", "oops"]),
        ReadEnd::Blank,
        false,
    );
    let (status, text, ka) = sent(&r);
    assert_eq!(status, 400);
    assert!(!ka);
    assert_eq!(text, "HTTP/1.1 400 BAD REQUEST\r\nConnection: close\r\n\r\n");
    assert!(!keeps_open(&r, true));
}

#[test]
fn keep_alive_decision() {
    let ka = reply_to(&req(&["GET / HTTP/1.1", "Connection: Keep-Alive"]), ReadEnd::Blank, false);
    assert!(sent(&ka).2);
    assert!(sent(&ka).1.contains("Connection: keep-alive\r\n"));
    assert!(keeps_open(&ka, true));
    assert!(!keeps_open(&ka, false));
    let close = reply_to(&req(&["GET / HTTP/1.1", "Connection: close"]), ReadEnd::Blank, false);
    assert!(!sent(&close).2);
    assert!(!keeps_open(&close, true));
    let absent = reply_to(&req(&["GET / HTTP/1.1"]), ReadEnd::Blank, false);
    assert!(!keeps_open(&absent, true));
    let kelvin = reply_to(&req(&["GET / HTTP/1.1", "Connection: \u{212a}eep-alive"]), ReadEnd::Blank, false);
    assert!(sent(&kelvin).2);
}

#[test]
fn keep_alive_given_lowered_value() {
    let r = req(&["GET / HTTP/1.1", "Connection: KEEP-ALIVE"]);
    assert!(!sent(&reply_with(&r, ReadEnd::Blank, false, "KEEP-ALIVE")).2);
    assert!(sent(&reply_with(&r, ReadEnd::Blank, false, "upgrade, keep-alive")).2);
}

#[test]
fn shutdown_and_timeout_close() {
    let r = req(&["GET / HTTP/1.1", "Connection: keep-alive"]);
    assert!(matches!(reply_to(&r, ReadEnd::Blank, true), Reply::Close));
    assert!(matches!(reply_to(&r, ReadEnd::TimedOut, false), Reply::Close));
}

#[test]
fn transport_failures_are_bad_requests() {
    let r = req(&["GET / HTTP/1.1"]);
    for end in [ReadEnd::EndOfStream, ReadEnd::Aborted, ReadEnd::BrokenPipe, ReadEnd::Failed] {
        assert_eq!(sent(&reply_to(&r, end, false)).0, 400);
    }
}

#[test]
fn empty_method_closes() {
    assert!(matches!(reply_to(&req(&[]), ReadEnd::Blank, false), Reply::Close));
}

#[test]
fn repeated_requests_same_reply() {
    let ls = ["GET /same?q=1 HTTP/1.1", "Host: h", "Connection: keep-alive"];
    let a = reply_to(&req(&ls), ReadEnd::Blank, false);
    let b = reply_to(&req(&ls), ReadEnd::Blank, false);
    assert!(keeps_open(&a, true));
    assert_eq!(sent(&a), sent(&b));
}

#[test]
fn accept_loop_decisions() {
    assert_eq!(round_start(true), ListenAction::Stop);
    assert_eq!(round_start(false), ListenAction::Accept);
    assert_eq!(after_accept(AcceptEvent::Accepted), ListenAction::Dispatch);
    assert_eq!(after_accept(AcceptEvent::WouldBlock), ListenAction::Wait);
    assert_eq!(after_accept(AcceptEvent::Failed), ListenAction::Abort);
}
