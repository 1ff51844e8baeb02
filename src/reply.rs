use vstd::prelude::*;
use vstd::utf8::encode_utf8;
use crate::parser::{HttpRequest, RequestView};
use crate::text::{chars_of, contains, find_run, push_char, push_str};

verus! {

/// What `str::to_lowercase` gives for `s`.
pub uninterp spec fn lower_of(s: Seq<char>) -> Seq<char>;

/// Relies on `str::to_lowercase`: its result depends on the characters of
/// `s` alone.
#[verifier::external_body]
fn lowercase(s: &str) -> (r: String)
    ensures
        r@ == lower_of(s@),
{
    s.to_lowercase()
}

/// How reading the head of a request ended.
#[derive(Clone, Copy, Debug, PartialEq, Eq, Structural)]
pub enum ReadEnd {
    /// A blank line closed the head.
    Blank,
    /// The peer closed the stream.
    EndOfStream,
    /// The transport reported the connection aborted.
    Aborted,
    /// The transport reported a broken pipe.
    BrokenPipe,
    /// No line came within the read timeout.
    TimedOut,
    /// Any other transport error.
    Failed,
}

/// Whether the read ended in a way that makes the request malformed.
pub open spec fn read_failed(end: ReadEnd) -> bool {
    match end {
        ReadEnd::Blank | ReadEnd::TimedOut => false,
        _ => true,
    }
}

/// What the connection does after reading and parsing one request.
pub enum Reply {
    /// Close the connection without writing.
    Close,
    /// Write `text`; then read the next request if `keep_alive`, else close.
    Send { status: u16, text: String, keep_alive: bool },
}

pub enum ReplyView {
    Close,
    Send { status: u16, text: Seq<char>, keep_alive: bool },
}

impl View for Reply {
    type V = ReplyView;

    open spec fn view(&self) -> ReplyView {
        match self {
            Reply::Close => ReplyView::Close,
            Reply::Send { status, text, keep_alive } => ReplyView::Send {
                status: *status,
                text: text@,
                keep_alive: *keep_alive,
            },
        }
    }
}

pub open spec fn keep_alive_token() -> Seq<char> {
    "keep-alive"@
}

pub open spec fn favicon_path() -> Seq<char> {
    "/favicon.ico"@
}

pub open spec fn bad_request_text() -> Seq<char> {
    "HTTP/1.1 400 BAD REQUEST\r\nConnection: close\r\n\r\n"@
}

/// The value of the outgoing `Connection` header.
pub open spec fn connection_value(keep_alive: bool) -> Seq<char> {
    if keep_alive {
        "keep-alive"@
    } else {
        "close"@
    }
}

pub open spec fn not_found_text(keep_alive: bool) -> Seq<char> {
    "HTTP/1.1 404 NOT FOUND\r\nConnection: "@ + connection_value(keep_alive) + "\r\n\r\n"@
}

/// The page served for a request.
pub open spec fn page(method: Seq<char>, path: Seq<char>) -> Seq<char> {
    "<html><head><title>jwhttp</title></head><body>jwhttp's "@ + method + " response to "@ + path
        + "</body></html>"@
}

pub open spec fn digit(d: nat) -> char {
    ((48 + d) as u8) as char
}

/// `n` in decimal, as `Display` writes it.
pub open spec fn decimal(n: nat) -> Seq<char>
    decreases n,
{
    if n < 10 {
        seq![digit(n)]
    } else {
        decimal(n / 10).push(digit(n % 10))
    }
}

pub open spec fn ok_text(keep_alive: bool, html: Seq<char>) -> Seq<char> {
    "HTTP/1.1 200 OK\r\nContent-Type: text/html; charset=UTF-8\r\nConnection: "@
        + connection_value(keep_alive) + "\r\nContent-Length: "@ + decimal(
        encode_utf8(html).len(),
    ) + "\r\n\r\n"@ + html + "\r\n\r\n"@
}

/// What to do with a parsed request, given how its read ended, whether
/// the server is shutting down, and the lowercased `Connection` value.
pub open spec fn reply_spec(
    req: RequestView,
    end: ReadEnd,
    shutdown: bool,
    lowered: Seq<char>,
) -> ReplyView {
    if end == ReadEnd::TimedOut || shutdown {
        ReplyView::Close
    } else if read_failed(end) || req.bad_request {
        ReplyView::Send { status: 400, text: bad_request_text(), keep_alive: false }
    } else if req.method.len() == 0 {
        ReplyView::Close
    } else {
        let ka = contains(lowered, keep_alive_token()) && !shutdown;
        if req.path == favicon_path() {
            ReplyView::Send { status: 404, text: not_found_text(ka), keep_alive: ka }
        } else {
            ReplyView::Send {
                status: 200,
                text: ok_text(ka, page(req.method, req.path)),
                keep_alive: ka,
            }
        }
    }
}

/// Whether the connection reads another request after the reply.
pub open spec fn keeps_open_spec(reply: ReplyView, sent: bool) -> bool {
    sent && match reply {
        ReplyView::Send { keep_alive, .. } => keep_alive,
        ReplyView::Close => false,
    }
}

fn push_decimal(s: &mut String, n: usize)
    ensures
        final(s)@ == old(s)@ + decimal(n as nat),
    decreases n,
{
    if n >= 10 {
        push_decimal(s, n / 10);
    }
    let d = (n % 10) as u8;
    push_char(s, (48 + d) as char);
}

fn push_connection(s: &mut String, keep_alive: bool)
    ensures
        final(s)@ == old(s)@ + connection_value(keep_alive),
{
    if keep_alive {
        push_str(s, "keep-alive");
    } else {
        push_str(s, "close");
    }
}

/// The page served for a request.
pub fn page_of(method: &str, path: &str) -> (r: String)
    ensures
        r@ == page(method@, path@),
{
    let mut s = String::new();
    push_str(&mut s, "<html><head><title>jwhttp</title></head><body>jwhttp's ");
    push_str(&mut s, method);
    push_str(&mut s, " response to ");
    push_str(&mut s, path);
    push_str(&mut s, "</body></html>");
    assert(s@ =~= page(method@, path@));
    s
}

/// Decides the reply to `req`, given the lowercased `Connection` value.
pub fn reply_with(req: &HttpRequest, end: ReadEnd, shutdown: bool, lowered: &str) -> (r: Reply)
    ensures
        r@ == reply_spec(req@, end, shutdown, lowered@),
{
    if end == ReadEnd::TimedOut || shutdown {
        return Reply::Close;
    }
    let failed = match end {
        ReadEnd::Blank | ReadEnd::TimedOut => false,
        _ => true,
    };
    if failed || req.bad_request {
        let mut text = String::new();
        push_str(&mut text, "HTTP/1.1 400 BAD REQUEST\r\nConnection: close\r\n\r\n");
        assert(text@ =~= bad_request_text());
        return Reply::Send { status: 400, text, keep_alive: false };
    }
    if req.method.as_str().is_empty() {
        return Reply::Close;
    }
    let token = chars_of("keep-alive");
    let ka = find_run(&chars_of(lowered), &token) && !shutdown;
    if crate::parser::same_text(req.path.as_str(), "/favicon.ico") {
        let mut text = String::new();
        push_str(&mut text, "HTTP/1.1 404 NOT FOUND\r\nConnection: ");
        push_connection(&mut text, ka);
        push_str(&mut text, "\r\n\r\n");
        assert(text@ =~= not_found_text(ka));
        Reply::Send { status: 404, text, keep_alive: ka }
    } else {
        let html = page_of(req.method.as_str(), req.path.as_str());
        let n = html.as_str().as_bytes().len();
        let mut text = String::new();
        push_str(&mut text, "HTTP/1.1 200 OK\r\nContent-Type: text/html; charset=UTF-8\r\nConnection: ");
        push_connection(&mut text, ka);
        push_str(&mut text, "\r\nContent-Length: ");
        push_decimal(&mut text, n);
        push_str(&mut text, "\r\n\r\n");
        push_str(&mut text, html.as_str());
        push_str(&mut text, "\r\n\r\n");
        assert(n == encode_utf8(html@).len());
        assert(text@ =~= ok_text(ka, page(req.method@, req.path@)));
        Reply::Send { status: 200, text, keep_alive: ka }
    }
}

/// Decides the reply to `req`: nothing (close), a 400, a 404 for
/// `/favicon.ico`, or the page.
pub fn reply_to(req: &HttpRequest, end: ReadEnd, shutdown: bool) -> (r: Reply)
    ensures
        r@ == reply_spec(req@, end, shutdown, lower_of(req.connection@)),
{
    let lowered = lowercase(req.connection.as_str());
    reply_with(req, end, shutdown, lowered.as_str())
}

/// Whether the connection goes on to read another request, once the reply
/// has been handled (`sent`: it was written without error).
pub fn keeps_open(reply: &Reply, sent: bool) -> (r: bool)
    ensures
        r == keeps_open_spec(reply@, sent),
{
    match reply {
        Reply::Send { keep_alive, .. } => sent && *keep_alive,
        Reply::Close => false,
    }
}

} // verus!
