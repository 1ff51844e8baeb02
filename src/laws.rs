use vstd::prelude::*;
use crate::parser::{crlf, head_lines, head_of, parse_lines, RequestView};
use crate::reply::{
    bad_request_text, keep_alive_token, keeps_open_spec, ok_text, page, reply_spec, ReadEnd,
    ReplyView,
};
use crate::parser::{host_key, query_params};
use crate::reply::favicon_path;
use crate::text::{
    contains, is_space, lemma_trim_bare, lemma_pieces_join, lemma_pieces_whole, lemma_position, lemma_position_after,
    nonempty, pieces, position, split_once, words, Sep,
};

verus! {

/// A header line without `:` marks the header block bad.
proof fn lemma_head_bad(hs: Seq<Seq<char>>, k: int)
    requires
        0 <= k < hs.len(),
        split_once(hs[k], ':') is None,
    ensures
        head_of(hs).bad,
    decreases hs.len(),
{
    if k < hs.len() - 1 {
        lemma_head_bad(hs.drop_last(), k);
    }
}

/// Header lines that all hold a `:` leave the header block good.
proof fn lemma_head_good(hs: Seq<Seq<char>>)
    requires
        forall|k: int| 0 <= k < hs.len() ==> split_once(#[trigger] hs[k], ':') is Some,
    ensures
        !head_of(hs).bad,
    decreases hs.len(),
{
    if hs.len() > 0 {
        let t = hs.drop_last();
        assert forall|k: int| 0 <= k < t.len() implies split_once(#[trigger] t[k], ':') is Some by {
            assert(t[k] == hs[k]);
        }
        lemma_head_good(t);
        assert(split_once(hs[hs.len() - 1], ':') is Some);
    }
}

pub open spec fn get_line(target: Seq<char>) -> Seq<char> {
    "GET "@ + target + " HTTP/1.1"@
}

proof fn lemma_get_words(target: Seq<char>)
    requires
        target.len() > 0,
        forall|i: int| 0 <= i < target.len() ==> !is_space(#[trigger] target[i]),
    ensures
        words(get_line(target)) == seq!["GET"@, target, "HTTP/1.1"@],
        get_line(target)[0] == 'G',
{
    reveal_strlit("GET ");
    reveal_strlit(" HTTP/1.1");
    reveal_strlit("GET");
    reveal_strlit("HTTP/1.1");
    let g = "GET"@;
    let v = "HTTP/1.1"@;
    assert(get_line(target) =~= g + seq![' '] + (target + seq![' '] + v));
    lemma_pieces_join(g, ' ', target + seq![' '] + v, Sep::Space);
    lemma_pieces_join(target, ' ', v, Sep::Space);
    lemma_pieces_whole(g, Sep::Space);
    lemma_pieces_whole(target, Sep::Space);
    lemma_pieces_whole(v, Sep::Space);
    let ps = seq![g, target, v];
    assert(pieces(get_line(target), Sep::Space) =~= ps);
    assert(ps.drop_last() =~= seq![g, target]);
    assert(seq![g, target].drop_last() =~= seq![g]);
    assert(seq![g].drop_last() =~= Seq::<Seq<char>>::empty());
    assert(g.len() == 3);
    assert(nonempty(Seq::<Seq<char>>::empty()) == Seq::<Seq<char>>::empty());
    assert(nonempty(seq![g]) =~= seq![g]);
    assert(nonempty(seq![g, target]) =~= seq![g, target]);
    assert(nonempty(ps) =~= ps);
}

/// A target with no `?` is the whole path and gives no parameters.
proof fn lemma_no_query(target: Seq<char>)
    requires
        forall|i: int| 0 <= i < target.len() ==> #[trigger] target[i] != '?',
    ensures
        split_once(target, '?') is None,
{
    lemma_position(target, '?', target.len() as int);
}

/// Every request `GET <target> HTTP/1.1` with a `Host` header, read to its
/// blank line while the server runs, gets a 200 whose text holds the
/// method and the path; the target is a non-empty word with no `?`, other
/// than `/favicon.ico`.
pub proof fn lemma_get_served(target: Seq<char>, host: Seq<char>, lowered: Seq<char>)
    requires
        target.len() > 0,
        forall|i: int|
            0 <= i < target.len() ==> !is_space(#[trigger] target[i]) && target[i] != '?',
        target != favicon_path(),
    ensures
        ({
            let lines = seq![get_line(target), "Host: "@ + host];
            let r = reply_spec(parse_lines(lines), ReadEnd::Blank, false, lowered);
            r matches ReplyView::Send { status, text, .. } && status == 200 && contains(
                text,
                "GET"@,
            ) && contains(text, target)
        }),
{
    let lines = seq![get_line(target), "Host: "@ + host];
    lemma_get_words(target);
    lemma_no_query(target);
    reveal_strlit("Host: ");
    reveal_strlit("GET");
    let hl = "Host: "@ + host;
    assert(hl[4] == ':');
    lemma_position(hl, ':', 4);
    assert(lines[0] != crlf());
    assert(lines[1] != crlf());
    lemma_position(lines, crlf(), 2);
    assert(head_lines(lines) =~= lines);
    assert(head_lines(lines).skip(1) =~= seq![hl]);
    assert(seq![hl].drop_last() =~= Seq::<Seq<char>>::empty());
    assert(split_once(hl, ':') is Some);
    lemma_head_good(seq![hl]);
    let req = parse_lines(lines);
    assert(req.method == "GET"@);
    assert(req.path == target);
    assert(!req.bad_request);
    let r = reply_spec(req, ReadEnd::Blank, false, lowered);
    let ka = contains(lowered, keep_alive_token());
    let html = page("GET"@, target);
    let head = "HTTP/1.1 200 OK\r\nContent-Type: text/html; charset=UTF-8\r\nConnection: "@
        + crate::reply::connection_value(ka) + "\r\nContent-Length: "@ + crate::reply::decimal(
        vstd::utf8::encode_utf8(html).len(),
    ) + "\r\n\r\n"@;
    let pre = "<html><head><title>jwhttp</title></head><body>jwhttp's "@;
    let mid = " response to "@;
    let post = "</body></html>"@ + "\r\n\r\n"@;
    let text = ok_text(ka, html);
    assert(text =~= (head + pre) + "GET"@ + (mid + target + post));
    lemma_contains_middle(head + pre, "GET"@, mid + target + post);
    assert(text =~= (head + pre + "GET"@ + mid) + target + post);
    lemma_contains_middle(head + pre + "GET"@ + mid, target, post);
}

proof fn lemma_contains_middle(x: Seq<char>, y: Seq<char>, z: Seq<char>)
    ensures
        contains(x + y + z, y),
{
    assert((x + y + z).subrange(x.len() as int, (x.len() + y.len()) as int) =~= y);
}

/// `GET /favicon.ico HTTP/1.1` gets a 404, whatever its header lines, as
/// long as each holds a `:`.
pub proof fn lemma_favicon_not_found(headers: Seq<Seq<char>>, lowered: Seq<char>)
    requires
        forall|k: int| 0 <= k < headers.len() ==> split_once(#[trigger] headers[k], ':') is Some,
    ensures
        ({
            let lines = seq![get_line(favicon_path())] + headers;
            reply_spec(parse_lines(lines), ReadEnd::Blank, false, lowered) matches ReplyView::Send {
                status,
                ..
            } && status == 404
        }),
{
    let lines = seq![get_line(favicon_path())] + headers;
    reveal_strlit("/favicon.ico");
    let f = favicon_path();
    assert(forall|i: int| 0 <= i < f.len() ==> !is_space(#[trigger] f[i]) && f[i] != '?');
    lemma_get_words(f);
    lemma_no_query(f);
    assert forall|j: int| 0 <= j < lines.len() implies #[trigger] lines[j] != crlf() by {
        if j == 0 {
            assert(lines[0][0] == 'G');
        } else {
            assert(lines[j] == headers[j - 1]);
            assert(split_once(headers[j - 1], ':') is Some);
            if lines[j] == crlf() {
                lemma_position(crlf(), ':', 2);
            }
        }
    }
    lemma_position(lines, crlf(), lines.len() as int);
    assert(head_lines(lines) =~= lines);
    assert(head_lines(lines).skip(1) =~= headers);
    lemma_head_good(headers);
    reveal_strlit("GET");
}

/// In a query string, a later `key=value` pair wins over earlier ones with
/// the same key.
pub proof fn lemma_last_param_wins(q: Seq<char>, k: Seq<char>, v: Seq<char>)
    requires
        k.len() > 0,
        v.len() > 0,
        forall|i: int|
            0 <= i < k.len() ==> !is_space(#[trigger] k[i]) && k[i] != '&' && k[i] != '=',
        forall|i: int| 0 <= i < v.len() ==> !is_space(#[trigger] v[i]) && v[i] != '&',
    ensures
        query_params(q + "&"@ + k + "="@ + v).contains_key(k),
        query_params(q + "&"@ + k + "="@ + v)[k] == v,
{
    reveal_strlit("&");
    reveal_strlit("=");
    let x = k + seq!['='] + v;
    let s = q + "&"@ + k + "="@ + v;
    assert(s =~= q + seq!['&'] + x);
    lemma_pieces_join(q, '&', x, Sep::At('&'));
    assert forall|i: int| 0 <= i < x.len() implies !crate::text::separates(
        Sep::At('&'),
        #[trigger] x[i],
    ) by {
        if i < k.len() {
            assert(x[i] == k[i]);
        } else if i > k.len() {
            assert(x[i] == v[i - k.len() - 1]);
        }
    }
    lemma_pieces_whole(x, Sep::At('&'));
    let ps = pieces(q, Sep::At('&')) + seq![x];
    assert(pieces(s, Sep::At('&')) == ps);
    assert(ps.drop_last() =~= pieces(q, Sep::At('&')));
    assert(ps.last() == x);
    assert(x[k.len() as int] == '=');
    assert forall|j: int| 0 <= j < k.len() implies x[j] != '=' by {
        assert(x[j] == k[j]);
    }
    lemma_position(x, '=', k.len() as int);
    assert(x.take(k.len() as int) =~= k);
    assert(x.skip(k.len() + 1 as int) =~= v);
    lemma_trim_bare(k);
    lemma_trim_bare(v);
}

/// A header line without `:` (before any blank line) gets a 400, and the
/// connection is closed after it: no further request is read.
pub proof fn lemma_missing_colon_closes(
    lines: Seq<Seq<char>>,
    i: int,
    end: ReadEnd,
    lowered: Seq<char>,
)
    requires
        1 <= i < lines.len(),
        forall|j: int| 0 <= j <= i ==> lines[j] != crlf(),
        split_once(lines[i], ':') is None,
        end != ReadEnd::TimedOut,
    ensures
        reply_spec(parse_lines(lines), end, false, lowered) == (ReplyView::Send {
            status: 400,
            text: bad_request_text(),
            keep_alive: false,
        }),
        !keeps_open_spec(reply_spec(parse_lines(lines), end, false, lowered), true),
{
    lemma_position_after(lines, crlf(), i);
    let ls = head_lines(lines);
    let hs = ls.skip(1);
    assert(hs[i - 1] == lines[i]);
    lemma_head_bad(hs, i - 1);
}

/// For a well-formed request read to its blank line while the server runs,
/// the connection stays open for the next request exactly when the
/// lowercased `Connection` value contains `keep-alive`; otherwise it closes
/// after this one reply.
pub proof fn lemma_keep_alive(req: RequestView, lowered: Seq<char>)
    requires
        !req.bad_request,
        req.method.len() > 0,
    ensures
        reply_spec(req, ReadEnd::Blank, false, lowered) is Send,
        keeps_open_spec(reply_spec(req, ReadEnd::Blank, false, lowered), true) == contains(
            lowered,
            keep_alive_token(),
        ),
{
}

/// Repeating a request on a connection that was kept open gives the same
/// reply, byte for byte; a page's `Content-Length` is the byte length of
/// its body.
pub proof fn lemma_repeat_same_reply(lines: Seq<Seq<char>>, lowered: Seq<char>)
    ensures
        ({
            let first = reply_spec(parse_lines(lines), ReadEnd::Blank, false, lowered);
            keeps_open_spec(first, true) ==> {
                &&& reply_spec(parse_lines(lines), ReadEnd::Blank, false, lowered) == first
                &&& first matches ReplyView::Send { status, text, keep_alive } && (status == 200
                    ==> text == ok_text(
                    keep_alive,
                    page(parse_lines(lines).method, parse_lines(lines).path),
                ))
            }
        }),
{
}

} // verus!
