use vstd::prelude::*;
use crate::fields::Fields;
use crate::text::{
    chars_of, find_char, keep_nonempty, pieces, position, split, split_once, string_of, trim,
    trimmed, words, Sep,
};

verus! {

/// The end of a header block, as a line of its own.
pub open spec fn crlf() -> Seq<char> {
    seq!['\r', '\n']
}

pub open spec fn host_key() -> Seq<char> {
    seq!['H', 'o', 's', 't']
}

pub open spec fn connection_key() -> Seq<char> {
    seq!['C', 'o', 'n', 'n', 'e', 'c', 't', 'i', 'o', 'n']
}

pub open spec fn accept_key() -> Seq<char> {
    seq!['A', 'c', 'c', 'e', 'p', 't']
}

/// `s` cut at its first `sep`, both halves trimmed; two empty strings where
/// `s` holds no `sep`.
pub open spec fn pair_of(s: Seq<char>, sep: char) -> (Seq<char>, Seq<char>) {
    match split_once(s, sep) {
        Some((a, b)) => (trim(a), trim(b)),
        None => (Seq::<char>::empty(), Seq::<char>::empty()),
    }
}

/// The parameters that `key=value` pieces give, later ones winning; a piece
/// whose key or value is empty gives none.
pub open spec fn params_of(ps: Seq<Seq<char>>) -> Map<Seq<char>, Seq<char>>
    decreases ps.len(),
{
    if ps.len() == 0 {
        Map::empty()
    } else {
        let m = params_of(ps.drop_last());
        let (k, v) = pair_of(ps.last(), '=');
        if k.len() > 0 && v.len() > 0 {
            m.insert(k, v)
        } else {
            m
        }
    }
}

/// The parameters of a query string (the text after `?`).
pub open spec fn query_params(q: Seq<char>) -> Map<Seq<char>, Seq<char>> {
    params_of(pieces(q, Sep::At('&')))
}

/// The media ranges of an `Accept` value: its pieces between commas, untrimmed.
pub open spec fn accept_list(v: Seq<char>) -> Seq<Seq<char>> {
    pieces(v, Sep::At(','))
}

/// What the header lines of a request give.
pub struct HeadView {
    pub headers: Map<Seq<char>, Seq<char>>,
    pub host: Seq<char>,
    pub connection: Seq<char>,
    pub accept: Seq<Seq<char>>,
    pub bad: bool,
}

pub open spec fn head_of(hs: Seq<Seq<char>>) -> HeadView
    decreases hs.len(),
{
    if hs.len() == 0 {
        HeadView {
            headers: Map::empty(),
            host: Seq::empty(),
            connection: Seq::empty(),
            accept: Seq::empty(),
            bad: false,
        }
    } else {
        let h = head_of(hs.drop_last());
        let (k, v) = pair_of(hs.last(), ':');
        HeadView {
            headers: h.headers.insert(k, v),
            host: if k == host_key() { v } else { h.host },
            connection: if k == connection_key() { v } else { h.connection },
            accept: if k == accept_key() { accept_list(v) } else { h.accept },
            bad: h.bad || split_once(hs.last(), ':') is None,
        }
    }
}

/// The request as plain values.
pub struct RequestView {
    pub method: Seq<char>,
    pub path: Seq<char>,
    pub version: Seq<char>,
    pub host: Seq<char>,
    pub connection: Seq<char>,
    pub accept: Seq<Seq<char>>,
    pub params: Map<Seq<char>, Seq<char>>,
    pub headers: Map<Seq<char>, Seq<char>>,
    pub bad_request: bool,
}

pub open spec fn word_at(w: Seq<Seq<char>>, i: int) -> Seq<char> {
    if i < w.len() {
        w[i]
    } else {
        Seq::empty()
    }
}

/// The lines of a request before the first `"\r\n"` line.
pub open spec fn head_lines(lines: Seq<Seq<char>>) -> Seq<Seq<char>> {
    lines.take(position(lines, crlf()) as int)
}

/// The request that the lines describe: the request line first
/// (method, target, version), then one header per line.
pub open spec fn parse_lines(lines: Seq<Seq<char>>) -> RequestView {
    let ls = head_lines(lines);
    let w = if ls.len() > 0 {
        words(ls[0])
    } else {
        Seq::empty()
    };
    let target = word_at(w, 1);
    let pq = match split_once(target, '?') {
        Some((p, q)) => (p, q),
        None => (target, Seq::<char>::empty()),
    };
    let h = head_of(
        if ls.len() > 0 {
            ls.skip(1)
        } else {
            ls
        },
    );
    RequestView {
        method: word_at(w, 0),
        path: pq.0,
        version: word_at(w, 2),
        host: h.host,
        connection: h.connection,
        accept: h.accept,
        params: query_params(pq.1),
        headers: h.headers,
        bad_request: h.bad,
    }
}

/// One request, as its head lines give it.
pub struct HttpRequest {
    pub method: String,
    pub host: String,
    pub version: String,
    pub path: String,
    pub connection: String,
    pub accept: Vec<String>,
    pub params: Fields,
    pub headers: Fields,
    pub bad_request: bool,
}

impl View for HttpRequest {
    type V = RequestView;

    open spec fn view(&self) -> RequestView {
        RequestView {
            method: self.method@,
            path: self.path@,
            version: self.version@,
            host: self.host@,
            connection: self.connection@,
            accept: self.accept.deep_view(),
            params: self.params@,
            headers: self.headers@,
            bad_request: self.bad_request,
        }
    }
}

/// Whether `a` and `b` hold the same characters.
pub fn same_text(a: &str, b: &str) -> (r: bool)
    ensures
        r == (a@ == b@),
{
    let x = chars_of(a);
    let y = chars_of(b);
    if x.len() != y.len() {
        return false;
    }
    let mut i: usize = 0;
    while i < x.len()
        invariant
            x@ == a@,
            y@ == b@,
            x.len() == y.len(),
            i <= x.len(),
            forall|j: int| 0 <= j < i ==> x@[j] == y@[j],
        decreases x.len() - i,
    {
        if x[i] != y[i] {
            assert(x@[i as int] != y@[i as int]);
            return false;
        }
        i += 1;
    }
    assert(x@ == y@);
    true
}

fn is_crlf(s: &str) -> (r: bool)
    ensures
        r == (s@ == crlf()),
{
    proof {
        reveal_strlit("\r\n");
        assert("\r\n"@ =~= crlf());
    }
    same_text(s, "\r\n")
}

/// `s` cut at its first `sep`, both halves trimmed, and whether `s` holds
/// a `sep` at all.
fn pair(s: &str, sep: char) -> (r: (String, String, bool))
    ensures
        (r.0@, r.1@) == pair_of(s@, sep),
        r.2 == split_once(s@, sep) is Some,
{
    let v = chars_of(s);
    let p = find_char(&v, sep);
    if p < v.len() {
        assert(v@.subrange(0, p as int) == v@.take(p as int));
        assert(v@.subrange(p + 1, v@.len() as int) == v@.skip(p + 1));
        (trimmed(&v, 0, p), trimmed(&v, p + 1, v.len()), true)
    } else {
        (String::new(), String::new(), false)
    }
}

/// The parameters of a query string: `&`-separated `key=value` pairs,
/// trimmed; pairs with an empty key or value are dropped; a later key wins.
pub fn parse_params(query: &str) -> (r: Fields)
    ensures
        r.wf(),
        r@ == query_params(query@),
{
    let v = chars_of(query);
    let ps = split(&v, Sep::At('&'));
    let mut out = Fields::new();
    let mut i: usize = 0;
    while i < ps.len()
        invariant
            i <= ps.len(),
            out.wf(),
            out@ == params_of(ps.deep_view().take(i as int)),
        decreases ps.len() - i,
    {
        let (k, val, _) = pair(ps[i].as_str(), '=');
        assert(ps.deep_view().take(i + 1).drop_last() == ps.deep_view().take(i as int));
        if !k.as_str().is_empty() && !val.as_str().is_empty() {
            out.insert(k, val);
        }
        i += 1;
    }
    assert(ps.deep_view().take(ps.len() as int) == ps.deep_view());
    out
}

/// The media ranges of an `Accept` value, split at commas and kept untrimmed.
pub fn parse_accept(value: &str) -> (r: Vec<String>)
    ensures
        r.deep_view() == accept_list(value@),
{
    let v = chars_of(value);
    split(&v, Sep::At(','))
}

/// The method, path (query stripped), version and query parameters of a
/// request line.
fn parse_request_line(line: &str) -> (r: (String, String, String, Fields))
    ensures
        ({
            let w = words(line@);
            let target = word_at(w, 1);
            let pq = match split_once(target, '?') {
                Some((p, q)) => (p, q),
                None => (target, Seq::<char>::empty()),
            };
            &&& r.0@ == word_at(w, 0)
            &&& r.1@ == pq.0
            &&& r.2@ == word_at(w, 2)
            &&& r.3@ == query_params(pq.1)
            &&& r.3.wf()
        }),
{
    let w = keep_nonempty(split(&chars_of(line), Sep::Space));
    let mut method = String::new();
    let mut version = String::new();
    if w.len() > 0 {
        method = w[0].clone();
    }
    if w.len() > 2 {
        version = w[2].clone();
    }
    proof {
        reveal_strlit("");
        assert(""@ =~= Seq::<char>::empty());
    }
    if w.len() > 1 {
        let t = chars_of(w[1].as_str());
        let q = find_char(&t, '?');
        if q < t.len() {
            assert(t@.subrange(0, q as int) == t@.take(q as int));
            assert(t@.subrange(q + 1, t@.len() as int) == t@.skip(q + 1));
            let query = string_of(&t, q + 1, t.len());
            (method, string_of(&t, 0, q), version, parse_params(query.as_str()))
        } else {
            (method, w[1].clone(), version, parse_params(""))
        }
    } else {
        (method, String::new(), version, parse_params(""))
    }
}

impl HttpRequest {
    /// Parses the head lines of one request.
    pub fn new(http_request: Vec<String>) -> (r: HttpRequest)
        ensures
            r@ == parse_lines(http_request.deep_view()),
            r.params.wf(),
            r.headers.wf(),
    {
        let ghost lines = http_request.deep_view();
        let mut end: usize = 0;
        loop
            invariant
                end <= http_request.len(),
                lines == http_request.deep_view(),
                forall|j: int| 0 <= j < end ==> lines[j] != crlf(),
            ensures
                end <= http_request.len(),
                forall|j: int| 0 <= j < end ==> lines[j] != crlf(),
                end == http_request.len() || lines[end as int] == crlf(),
            decreases http_request.len() - end,
        {
            if end == http_request.len() || is_crlf(http_request[end].as_str()) {
                break;
            }
            end += 1;
        }
        proof {
            crate::text::lemma_position(lines, crlf(), end as int);
        }
        let ghost ls = head_lines(lines);
        assert(ls == lines.take(end as int));
        let mut host = String::new();
        let mut connection = String::new();
        let mut accept: Vec<String> = Vec::new();
        let mut headers = Fields::new();
        let mut bad_request = false;
        let ghost hs = if ls.len() > 0 {
            ls.skip(1)
        } else {
            ls
        };
        proof {
            reveal_strlit("Host");
            reveal_strlit("Connection");
            reveal_strlit("Accept");
            assert("Host"@ =~= host_key());
            assert("Connection"@ =~= connection_key());
            assert("Accept"@ =~= accept_key());
        }
        let mut i: usize = 1;
        while i < end
            invariant
                1 <= i,
                i <= end || (end == 0 && i == 1),
                end <= http_request.len(),
                lines == http_request.deep_view(),
                ls == lines.take(end as int),
                end > 0 ==> hs == ls.skip(1),
                end > 0 ==> hs.len() == end - 1,
                end == 0 ==> hs == ls,
                "Host"@ == host_key(),
                "Connection"@ == connection_key(),
                "Accept"@ == accept_key(),
                headers.wf(),
                ({
                    let h = head_of(hs.take(i - 1));
                    &&& headers@ == h.headers
                    &&& host@ == h.host
                    &&& connection@ == h.connection
                    &&& accept.deep_view() == h.accept
                    &&& bad_request == h.bad
                }),
            decreases end - i,
        {
            let line = http_request[i].as_str();
            assert(hs.take(i as int).drop_last() == hs.take(i - 1));
            assert(hs[i - 1] == lines[i as int]);
            assert(hs.take(i as int).last() == line@);
            let (k, val, found) = pair(line, ':');
            if !found {
                bad_request = true;
            }
            if same_text(k.as_str(), "Host") {
                host = val.clone();
            } else if same_text(k.as_str(), "Connection") {
                connection = val.clone();
            } else if same_text(k.as_str(), "Accept") {
                accept = parse_accept(val.as_str());
            }
            headers.insert(k, val);
            i += 1;
        }
        proof {
            if end > 0 {
                assert(i == end);
                assert(hs.len() == i - 1);
            } else {
                assert(ls.len() == 0);
                assert(hs.len() == 0);
            }
            let n: int = i - 1;
            assert(n == hs.len());
            assert(hs.take(n) =~= hs);
        }
        let (method, path, version, params) = if end > 0 {
            parse_request_line(http_request[0].as_str())
        } else {
            proof {
                reveal_strlit("");
                assert(""@ =~= Seq::<char>::empty());
            }
            (String::new(), String::new(), String::new(), parse_params(""))
        };
        assert(end > 0 ==> ls[0] == http_request@[0]@);
        HttpRequest { method, path, host, version, connection, accept, params, headers, bad_request }
    }
}

} // verus!
