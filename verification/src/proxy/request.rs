//! Requests to the proxy: what is asked for, and what is passed on.

use crate::proxy::pac::{local_url, proxy_url};
use crate::proxy::pages::{pac_response, redirect_response, redirect_to, serve_pac};
use crate::text::{
    after_first, all_lines, ascii_lower, begins_with, between, chars_of, concat2, contains_text,
    decimal, find, find_char, is_digit, is_white_space, join, lacks, lacks_space,
    law_after_first, law_decimal_reads_back, law_first_and_last, law_numbers_are_read,
    law_split_at_separator, law_trim, law_trim_keeps_words, law_words, lemma_split_on_len,
    list_contains, lower_char, number, parse_number, rfind, rfind_char, same_but_for_case,
    same_text, split, split_on, split_words, stands_at, starts_with, starts_with_but_for_case,
    string_of, strip_prefix, text_of, texts, trim, trimmed, words,
};
use crate::text_map::TextMap;
use vstd::prelude::*;

verus! {

// ── Names ──

/// What follows the last dot of a host name.
pub open spec fn tld(host: Seq<char>) -> Seq<char> {
    host.skip(rfind_char(host, '.') + 1)
}

/// Whether a host name is a Fistbump name: its last label is none of the
/// top-level domains of the ordinary DNS.
pub open spec fn is_fistbump(host: Seq<char>, icann_tlds: Seq<Seq<char>>) -> bool {
    !icann_tlds.contains(tld(host))
}

/// What follows the last dot of a host name; all of it if there is none.
pub fn extract_tld(host: &str) -> (r: String)
    ensures
        r@ == tld(host@),
{
    let v = chars_of(host);
    let n: usize = v.len();
    let from: usize = match rfind(&v, '.') {
        Some(i) => i + 1,
        None => 0,
    };
    let r = string_of(&v, from, n);
    assert(r@ =~= tld(host@));
    r
}

/// Whether a host name is a Fistbump name.
pub fn is_fistbump_name(host: &str, icann_tlds: &Vec<String>) -> (r: bool)
    ensures
        r == is_fistbump(host@, texts(icann_tlds@)),
{
    !list_contains(icann_tlds, extract_tld(host).as_str())
}

// ── Addresses ──

/// A host and a port. What stands behind the last colon is the port; if it is
/// none, or there is no colon, the port is `default`.
pub open spec fn host_port(target: Seq<char>, default: u16) -> (Seq<char>, u16) {
    let i = rfind_char(target, ':');
    if i < 0 {
        (target, default)
    } else {
        (
            target.take(i),
            match number(target.skip(i + 1), u16::MAX as nat) {
                Some(n) => n as u16,
                None => default,
            },
        )
    }
}

/// The parts of an HTTP URL: host, port and path.
pub open spec fn http_url(url: Seq<char>) -> (Seq<char>, u16, Seq<char>) {
    let rest = if begins_with(url, "http://"@) {
        url.skip("http://"@.len() as int)
    } else {
        url
    };
    let i = find_char(rest, '/');
    let (host, port) = host_port(rest.take(i), 80);
    (
        host,
        port,
        if i == rest.len() {
            "/"@
        } else {
            rest.skip(i)
        },
    )
}

/// Splits a target into host and port.
pub fn split_host_port(target: &str, default: u16) -> (r: (String, u16))
    ensures
        (r.0@, r.1) == host_port(target@, default),
{
    let v = chars_of(target);
    let n: usize = v.len();
    match rfind(&v, ':') {
        None => (target.to_owned(), default),
        Some(i) => {
            let host = string_of(&v, 0, i);
            let rest = string_of(&v, i + 1, n);
            assert(host@ =~= target@.take(i as int));
            assert(rest@ =~= target@.skip(i + 1));
            let port: u16 = match parse_number(rest.as_str(), u16::MAX as u64) {
                Some(n) => n as u16,
                None => default,
            };
            (host, port)
        },
    }
}

/// The target of a `CONNECT` request: port 443 if none is named.
pub fn parse_host_port(target: &str) -> (r: (String, u16))
    ensures
        (r.0@, r.1) == host_port(target@, 443),
{
    split_host_port(target, 443)
}

/// The parts of an HTTP URL: port 80 and the path `/` if none is named.
pub fn parse_http_url(url: &str) -> (r: (String, u16, String))
    ensures
        (r.0@, r.1, r.2@) == http_url(url@),
{
    let rest = match strip_prefix(url, "http://") {
        Some(t) => t,
        None => url.to_owned(),
    };
    let v = chars_of(rest.as_str());
    let (end, path) = match find(&v, '/') {
        Some(i) => {
            let p = string_of(&v, i, v.len());
            assert(p@ =~= rest@.skip(i as int));
            (i, p)
        },
        None => (v.len(), "/".to_owned()),
    };
    let authority = string_of(&v, 0, end);
    assert(authority@ =~= rest@.take(end as int));
    let (host, port) = split_host_port(authority.as_str(), 80);
    (host, port, path)
}

// ── What is asked for ──

/// What a request to the proxy asks for.
pub enum Route {
    /// Nothing: the request line has fewer than three words.
    Nothing,
    /// The proxy auto-configuration script: this response.
    Pac(String),
    /// To go on to a host despite its certificate: this response.
    Bypass { host: String, response: String },
    /// A tunnel.
    Connect { target: String },
    /// A page.
    Http { method: String, target: String },
}

pub enum RouteView {
    Nothing,
    Pac(Seq<char>),
    Bypass { host: Seq<char>, response: Seq<char> },
    Connect { target: Seq<char> },
    Http { method: Seq<char>, target: Seq<char> },
}

impl View for Route {
    type V = RouteView;

    open spec fn view(&self) -> RouteView {
        match self {
            Route::Nothing => RouteView::Nothing,
            Route::Pac(r) => RouteView::Pac(r@),
            Route::Bypass { host, response } => RouteView::Bypass {
                host: host@,
                response: response@,
            },
            Route::Connect { target } => RouteView::Connect { target: target@ },
            Route::Http { method, target } => RouteView::Http {
                method: method@,
                target: target@,
            },
        }
    }
}

/// Whether a target is the path `path` of the proxy itself, or begins with it.
pub open spec fn is_own(target: Seq<char>, path: Seq<char>) -> bool {
    target == path || target == local_url(path)
}

pub open spec fn begins_own(target: Seq<char>, path: Seq<char>) -> bool {
    begins_with(target, path) || begins_with(target, local_url(path))
}

/// The host that the user wants to go on to, if that is what is asked.
pub open spec fn bypass_host(target: Seq<char>) -> Option<Seq<char>> {
    if !begins_own(target, "/.fistbump/dane-bypass?host="@) {
        None
    } else {
        match after_first(target, "host="@) {
            None => None,
            Some(h) => if trim(h).len() == 0 {
                None
            } else {
                Some(trim(h))
            },
        }
    }
}

/// What a request line asks for.
pub open spec fn route_of(line: Seq<char>) -> RouteView {
    let parts = words(trim(line));
    if parts.len() < 3 {
        RouteView::Nothing
    } else {
        let method = parts[0];
        let target = parts[1];
        if is_own(target, "/.fistbump/proxy.pac"@) {
            RouteView::Pac(pac_response())
        } else {
            match bypass_host(target) {
                Some(host) => RouteView::Bypass { host, response: redirect_response(host) },
                None => if ascii_lower(method) == ascii_lower("CONNECT"@) {
                    RouteView::Connect { target }
                } else {
                    RouteView::Http { method, target }
                },
            }
        }
    }
}

fn find_bypass_host(target: &str) -> (r: Option<String>)
    ensures
        text_of(r) == bypass_host(target@),
{
    let own = proxy_url("/.fistbump/dane-bypass?host=");
    if !starts_with(target, "/.fistbump/dane-bypass?host=") && !starts_with(target, own.as_str()) {
        return None;
    }
    match between(target, "host=") {
        None => None,
        Some(h) => {
            let host = trimmed(h.as_str());
            if host.as_str().is_empty() {
                None
            } else {
                Some(host)
            }
        },
    }
}

/// What a request line asks for.
pub fn route_request(request_line: &str) -> (r: Route)
    ensures
        r@ == route_of(request_line@),
{
    let parts = split_words(trimmed(request_line).as_str());
    if parts.len() < 3 {
        return Route::Nothing;
    }
    let method = parts[0].clone();
    let target = parts[1].clone();
    assert(method@ == texts(parts@)[0] && target@ == texts(parts@)[1]);
    let own = proxy_url("/.fistbump/proxy.pac");
    if same_text(target.as_str(), "/.fistbump/proxy.pac") || same_text(
        target.as_str(),
        own.as_str(),
    ) {
        return Route::Pac(serve_pac());
    }
    match find_bypass_host(target.as_str()) {
        Some(host) => {
            let response = redirect_to(host.as_str());
            Route::Bypass { host, response }
        },
        None => if same_but_for_case(method.as_str(), "CONNECT") {
            Route::Connect { target }
        } else {
            Route::Http { method, target }
        },
    }
}

/// Whether a header line ends the headers.
pub fn ends_headers(line: &str) -> (r: bool)
    ensures
        r == (trim(line@).len() == 0),
{
    trimmed(line).as_str().is_empty()
}

/// Remembers that the user wants to go on to a host.
pub fn remember_bypass(bypass: &mut TextMap<()>, host: String)
    ensures
        final(bypass)@ == old(bypass)@.insert(host@, ()),
{
    bypass.insert(host, ());
}

// ── What is passed on ──

/// The URL of a plain request.
pub open spec fn absolute(target: Seq<char>) -> Seq<char> {
    if begins_with(target, "http://"@) {
        target
    } else {
        "http://"@ + target
    }
}

pub open spec fn is_host_header(h: Seq<char>) -> bool {
    begins_with(ascii_lower(h), "host:"@)
}

pub open spec fn is_connection_header(h: Seq<char>) -> bool {
    begins_with(ascii_lower(h), "connection:"@) || begins_with(
        ascii_lower(h),
        "proxy-connection:"@,
    )
}

/// What becomes of a header: a host header names the host, those on the
/// connection are left out, all others stay.
pub open spec fn passed_header(h: Seq<char>, host: Seq<char>) -> Seq<char> {
    if is_host_header(h) {
        "Host: "@ + host + "\r\n"@
    } else if is_connection_header(h) {
        Seq::empty()
    } else {
        h
    }
}

pub open spec fn passed_headers(headers: Seq<Seq<char>>, host: Seq<char>) -> Seq<char>
    decreases headers.len(),
{
    if headers.len() == 0 {
        Seq::empty()
    } else {
        passed_headers(headers.drop_last(), host) + passed_header(headers.last(), host)
    }
}

pub open spec fn any_host_header(headers: Seq<Seq<char>>) -> bool {
    exists|i: int| 0 <= i < headers.len() && is_host_header(#[trigger] headers[i])
}

/// What is sent to the server: the request with a relative path, its headers
/// with a host among them, and the wish to close the connection after it.
pub open spec fn passed_head(
    method: Seq<char>,
    path: Seq<char>,
    host: Seq<char>,
    headers: Seq<Seq<char>>,
) -> Seq<char> {
    method + " "@ + path + " HTTP/1.1\r\n"@ + passed_headers(headers, host) + (
    if any_host_header(headers) {
        Seq::empty()
    } else {
        "Host: "@ + host + "\r\n"@
    }) + "Connection: close\r\n\r\n"@
}

/// What the first header on the length of the body says, 0 if nothing.
pub open spec fn body_length(headers: Seq<Seq<char>>) -> nat
    decreases headers.len(),
{
    if headers.len() == 0 {
        0
    } else if begins_with(ascii_lower(headers[0]), "content-length:"@) {
        let parts = split_on(headers[0], ':');
        if parts.len() < 2 {
            0
        } else {
            match number(trim(parts[1]), usize::MAX as nat) {
                Some(n) => n,
                None => 0,
            }
        }
    } else {
        body_length(headers.drop_first())
    }
}

/// The URL of a plain request.
pub fn absolute_url(target: &str) -> (r: String)
    ensures
        r@ == absolute(target@),
{
    if starts_with(target, "http://") {
        target.to_owned()
    } else {
        concat2("http://", target)
    }
}

/// The head of the request that is sent to the server.
pub fn forward_head(method: &str, path: &str, host: &str, headers: &Vec<String>) -> (r: String)
    ensures
        r@ == passed_head(method@, path@, host@, texts(headers@)),
{
    let mut out = method.to_owned();
    out.append(" ");
    out.append(path);
    out.append(" HTTP/1.1\r\n");
    let ghost start = out@;
    let ghost all = texts(headers@);
    let mut sent_host = false;
    let mut i: usize = 0;
    assert(out@ =~= start + passed_headers(all.take(0), host@));
    while i < headers.len()
        invariant
            i <= headers@.len(),
            all == texts(headers@),
            sent_host == any_host_header(all.take(i as int)),
            out@ == start + passed_headers(all.take(i as int), host@),
        decreases headers@.len() - i,
    {
        let h = headers[i].as_str();
        let ghost before = out@;
        let ghost seen = all.take(i as int);
        let ghost next = all.take(i + 1);
        proof {
            assert(next.drop_last() =~= seen);
            assert(next.last() == h@);
            if any_host_header(seen) {
                let k = choose|k: int| 0 <= k < seen.len() && is_host_header(#[trigger] seen[k]);
                assert(next[k] == seen[k]);
            }
            if any_host_header(next) && !is_host_header(h@) {
                let k = choose|k: int| 0 <= k < next.len() && is_host_header(#[trigger] next[k]);
                assert(seen[k] == next[k]);
            }
        }
        if starts_with_but_for_case(h, "host:") {
            out.append("Host: ");
            out.append(host);
            out.append("\r\n");
            sent_host = true;
            assert(is_host_header(next[i as int]));
        } else if starts_with_but_for_case(h, "connection:")
            || starts_with_but_for_case(h, "proxy-connection:") {
        } else {
            out.append(h);
        }
        assert(out@ =~= before + passed_header(h@, host@));
        assert(out@ =~= start + passed_headers(next, host@));
        i = i + 1;
    }
    assert(all.take(i as int) =~= all);
    let ghost before = out@;
    if !sent_host {
        out.append("Host: ");
        out.append(host);
        out.append("\r\n");
    }
    out.append("Connection: close\r\n\r\n");
    assert(out@ =~= passed_head(method@, path@, host@, all));
    out
}

/// How long the body is that follows the headers.
pub fn content_length(headers: &Vec<String>) -> (r: usize)
    ensures
        r == body_length(texts(headers@)),
{
    let ghost all = texts(headers@);
    let mut i: usize = 0;
    assert(all.skip(0) =~= all);
    while i < headers.len()
        invariant
            i <= headers@.len(),
            all == texts(headers@),
            body_length(all) == body_length(all.skip(i as int)),
        decreases headers@.len() - i,
    {
        let ghost rest = all.skip(i as int);
        assert(rest.drop_first() =~= all.skip(i + 1));
        assert(rest[0] == headers@[i as int]@);
        if starts_with_but_for_case(headers[i].as_str(), "content-length:") {
            let parts = split(headers[i].as_str(), ':');
            if parts.len() < 2 {
                return 0;
            }
            assert(parts@[1]@ == texts(parts@)[1]);
            let value = trimmed(parts[1].as_str());
            return match parse_number(value.as_str(), usize::MAX as u64) {
                Some(n) => n as usize,
                None => 0,
            };
        }
        i = i + 1;
    }
    0
}

// ── What holds of them ──

/// The top-level label of a name is what stands behind its last dot, however
/// many labels stand before it; a name without a dot is its own.
pub proof fn law_top_level_label(a: Seq<char>, b: Seq<char>)
    requires
        lacks(b, '.'),
    ensures
        tld(a + "."@ + b) == b,
        tld(b) == b,
{
    reveal_strlit(".");
    assert("."@ =~= seq!['.']);
    law_first_and_last(a, '.', b);
    law_first_and_last(b, '.', b);
    assert((a + "."@ + b).skip(a.len() as int + 1) =~= b);
    assert(b.skip(0) =~= b);
}

/// A name under a top-level domain of the ordinary DNS is no Fistbump name,
/// however many labels stand before it, and a name under any other is one.
pub proof fn law_top_level_decides(a: Seq<char>, t: Seq<char>, icann_tlds: Seq<Seq<char>>)
    requires
        lacks(t, '.'),
    ensures
        is_fistbump(a + "."@ + t, icann_tlds) == !icann_tlds.contains(t),
        is_fistbump(t, icann_tlds) == !icann_tlds.contains(t),
{
    law_top_level_label(a, t);
}

/// A host and a port in decimal read back as they were written; without a
/// port, or with something else in its place, the port is the default one.
pub proof fn law_host_and_port(host: Seq<char>, port: u16, rest: Seq<char>, default: u16)
    ensures
        host_port(host + ":"@ + decimal(port as nat), default) == (host, port),
        lacks(host, ':') ==> host_port(host, default) == (host, default),
        lacks(rest, ':') && number(rest, 65535) is None ==> host_port(
            host + ":"@ + rest,
            default,
        ) == (host, default),
{
    reveal_strlit(":");
    assert(":"@ =~= seq![':']);
    let d = decimal(port as nat);
    law_decimal_reads_back(port as nat);
    law_numbers_are_read(port as nat, 65535, d, 0);
    assert(lacks(d, ':')) by {
        assert forall|i: int| 0 <= i < d.len() implies #[trigger] d[i] != ':' by {
            assert(is_digit(d[i]));
        }
    }
    law_first_and_last(host, ':', d);
    law_first_and_last(host, ':', rest);
    let s = host + ":"@ + d;
    assert(s.take(host.len() as int) =~= host);
    assert(s.skip(host.len() as int + 1) =~= d);
    let t = host + ":"@ + rest;
    assert(t.take(host.len() as int) =~= host);
    assert(t.skip(host.len() as int + 1) =~= rest);
}

/// The parts of a URL read back as they were written; without a port it is 80,
/// and without a path it is `/`.
pub proof fn law_url_parts(host: Seq<char>, port: u16, path: Seq<char>)
    requires
        lacks(host, '/'),
        lacks(host, ':'),
    ensures
        http_url("http://"@ + host + ":"@ + decimal(port as nat) + "/"@ + path) == (
            host,
            port,
            "/"@ + path,
        ),
        http_url("http://"@ + host + ":"@ + decimal(port as nat)) == (host, port, "/"@),
        http_url("http://"@ + host + "/"@ + path) == (host, 80u16, "/"@ + path),
        http_url("http://"@ + host) == (host, 80u16, "/"@),
{
    reveal_strlit("http://");
    reveal_strlit(":");
    reveal_strlit("/");
    assert("/"@ =~= seq!['/']);
    let d = decimal(port as nat);
    law_decimal_reads_back(port as nat);
    let with_port = host + ":"@ + d;
    assert(lacks(with_port, '/')) by {
        assert forall|i: int| 0 <= i < with_port.len() implies #[trigger] with_port[i]
            != '/' by {
            if i < host.len() {
                assert(with_port[i] == host[i]);
            } else if i > host.len() {
                assert(with_port[i] == d[i - host.len() - 1]);
                assert(is_digit(d[i - host.len() - 1]));
            }
        }
    }
    law_host_and_port(host, port, host, 80);
    lemma_url(with_port, path);
    lemma_url(host, path);
    let p = "http://"@;
    assert(p + host + ":"@ + d =~= p + with_port);
    assert(p + host + ":"@ + d + "/"@ + path =~= p + with_port + "/"@ + path);
}

proof fn lemma_url(authority: Seq<char>, path: Seq<char>)
    requires
        lacks(authority, '/'),
    ensures
        http_url("http://"@ + authority + "/"@ + path) == (
            host_port(authority, 80).0,
            host_port(authority, 80).1,
            "/"@ + path,
        ),
        http_url("http://"@ + authority) == (
            host_port(authority, 80).0,
            host_port(authority, 80).1,
            "/"@,
        ),
{
    reveal_strlit("http://");
    reveal_strlit("/");
    assert("/"@ =~= seq!['/']);
    let p = "http://"@;
    let long = authority + "/"@ + path;
    let u = p + authority + "/"@ + path;
    assert(u.subrange(0, p.len() as int) =~= p);
    assert(u.skip(p.len() as int) =~= long);
    law_first_and_last(authority, '/', path);
    assert(long.take(authority.len() as int) =~= authority);
    assert(long.skip(authority.len() as int) =~= "/"@ + path);
    assert(long.len() > authority.len());
    let v = p + authority;
    assert(v.subrange(0, p.len() as int) =~= p);
    assert(v.skip(p.len() as int) =~= authority);
    assert(authority.take(authority.len() as int) =~= authority);
}

/// A request line as a browser writes it.
pub open spec fn request_line(
    method: Seq<char>,
    target: Seq<char>,
    version: Seq<char>,
) -> Seq<char> {
    method + " "@ + target + " "@ + version + "\r\n"@
}

pub open spec fn is_word(s: Seq<char>) -> bool {
    s.len() > 0 && lacks_space(s)
}

proof fn lemma_three_words(m: Seq<char>, t: Seq<char>, v: Seq<char>)
    requires
        is_word(m),
        is_word(t),
        is_word(v),
    ensures
        words(trim(request_line(m, t, v))) == seq![m, t, v],
{
    reveal_strlit(" ");
    reveal_strlit("\r\n");
    let line = request_line(m, t, v);
    let none = Seq::<char>::empty();
    let end = none + seq!['\n'] + none;
    let third = v + seq!['\r'] + end;
    let second = t + seq![' '] + third;
    assert(line =~= m + seq![' '] + second);
    law_trim_keeps_words(line);
    law_words(m, ' ', second);
    law_words(t, ' ', third);
    law_words(v, '\r', end);
    law_words(none, '\n', none);
    assert(words(line) =~= seq![m, t, v]);
}

/// A `CONNECT` request, in whatever case, asks for a tunnel to its target, and
/// any other request for its target by its method, unless the proxy itself is
/// meant.
pub proof fn law_requests_are_routed(method: Seq<char>, target: Seq<char>, version: Seq<char>)
    requires
        is_word(method),
        is_word(target),
        is_word(version),
        !begins_with(target, "/.fistbump/"@),
        !begins_with(target, "http://127.0.0.1:17350/.fistbump/"@),
    ensures
        ascii_lower(method) == "connect"@ ==> route_of(request_line(method, target, version)) == (
        RouteView::Connect { target }),
        ascii_lower(method) != "connect"@ ==> route_of(request_line(method, target, version)) == (
        RouteView::Http { method, target }),
{
    lemma_three_words(method, target, version);
    lemma_own_url();
    reveal_strlit("/.fistbump/proxy.pac");
    reveal_strlit("/.fistbump/dane-bypass?host=");
    reveal_strlit("/.fistbump/");
    reveal_strlit("http://127.0.0.1:17350/.fistbump/");
    reveal_strlit("http://127.0.0.1:17350");
    reveal_strlit("CONNECT");
    reveal_strlit("connect");
    assert(ascii_lower("CONNECT"@) =~= "connect"@);
    let near = "/.fistbump/"@;
    let far = "http://127.0.0.1:17350/.fistbump/"@;
    lemma_begins_shorter(target, "/.fistbump/proxy.pac"@, near);
    lemma_begins_shorter(target, "/.fistbump/dane-bypass?host="@, near);
    lemma_begins_shorter(target, local_url("/.fistbump/proxy.pac"@), far);
    lemma_begins_shorter(target, local_url("/.fistbump/dane-bypass?host="@), far);
}

proof fn lemma_begins_shorter(s: Seq<char>, long: Seq<char>, short: Seq<char>)
    requires
        short.len() <= long.len(),
        forall|i: int| 0 <= i < short.len() ==> long[i] == short[i],
        !begins_with(s, short),
    ensures
        !begins_with(s, long),
        s != long,
{
    if begins_with(s, long) {
        assert forall|i: int| 0 <= i < short.len() implies s[i] == short[i] by {
            assert(s.subrange(0, long.len() as int)[i] == s[i]);
        }
        assert(s.subrange(0, short.len() as int) =~= short);
    }
    if s == long {
        assert(s.subrange(0, short.len() as int) =~= short);
    }
}

proof fn lemma_own_url()
    ensures
        forall|path: Seq<char>| #[trigger] local_url(path) == "http://127.0.0.1:17350"@ + path,
{
    reveal_strlit("http://127.0.0.1:");
    reveal_strlit("http://127.0.0.1:17350");
    reveal_with_fuel(decimal, 5);
    assert(decimal(17350) =~= seq!['1', '7', '3', '5', '0']);
    assert forall|path: Seq<char>| #[trigger] local_url(path) == "http://127.0.0.1:17350"@
        + path by {
        assert(local_url(path) =~= "http://127.0.0.1:17350"@ + path);
    }
}

/// The script is served at its path, by that alone or by the whole URL, to any
/// method.
pub proof fn law_script_is_served(method: Seq<char>, version: Seq<char>)
    requires
        is_word(method),
        is_word(version),
    ensures
        route_of(request_line(method, "/.fistbump/proxy.pac"@, version)) is Pac,
        route_of(
            request_line(method, "http://127.0.0.1:17350/.fistbump/proxy.pac"@, version),
        ) is Pac,
{
    lemma_own_url();
    reveal_strlit("/.fistbump/proxy.pac");
    reveal_strlit("http://127.0.0.1:17350");
    reveal_strlit("http://127.0.0.1:17350/.fistbump/proxy.pac");
    assert(local_url("/.fistbump/proxy.pac"@)
        =~= "http://127.0.0.1:17350/.fistbump/proxy.pac"@);
    lemma_three_words(method, "/.fistbump/proxy.pac"@, version);
    lemma_three_words(method, "http://127.0.0.1:17350/.fistbump/proxy.pac"@, version);
}

/// A visit to the bypass path names the host that the user wants to go on to,
/// whether the path comes alone or in the whole URL, and is answered by a
/// redirect to that very host.
pub proof fn law_bypass_names_the_host(
    method: Seq<char>,
    host: Seq<char>,
    version: Seq<char>,
)
    requires
        is_word(method),
        is_word(host),
        is_word(version),
        !contains_text(host, "host="@),
    ensures
        route_of(
            request_line(method, "/.fistbump/dane-bypass?host="@ + host, version),
        ) == (RouteView::Bypass {
            host,
            response: "HTTP/1.1 302 Found\r\nLocation: https://"@ + host
                + "/\r\nContent-Length: 0\r\nConnection: close\r\n\r\n"@,
        }),
        route_of(
            request_line(
                method,
                "http://127.0.0.1:17350/.fistbump/dane-bypass?host="@ + host,
                version,
            ),
        ) == route_of(
            request_line(method, "/.fistbump/dane-bypass?host="@ + host, version),
        ),
{
    let path = "/.fistbump/dane-bypass?host="@;
    let url = "http://127.0.0.1:17350/.fistbump/dane-bypass?host="@;
    lemma_bypass_texts();
    lemma_bypass(path, host, 23);
    lemma_bypass(url, host, 45);
    lemma_word_grows(path, host);
    lemma_word_grows(url, host);
    lemma_three_words(method, path + host, version);
    lemma_three_words(method, url + host, version);
    let pac = "/.fistbump/proxy.pac"@;
    assert((path + host)[11] == path[11] && (path + host)[0] == path[0]);
    assert((url + host)[0] == url[0] && (url + host)[33] == url[33]);
}

proof fn lemma_bypass_texts()
    ensures
        ({
            let path = "/.fistbump/dane-bypass?host="@;
            let url = "http://127.0.0.1:17350/.fistbump/dane-bypass?host="@;
            let pac = "/.fistbump/proxy.pac"@;
            &&& local_url(path) == url
            &&& is_word(path) && path.len() == 28 && path[0] == '/' && path[11] == 'd'
            &&& is_word(url) && url.len() == 50 && url[0] == 'h' && url[33] == 'd'
            &&& pac.len() == 20 && pac[0] == '/' && pac[11] == 'p'
            &&& local_url(pac).len() == 42 && local_url(pac)[0] == 'h' && local_url(pac)[33] == 'p'
        }),
{
    lemma_own_url();
    reveal_strlit("/.fistbump/dane-bypass?host=");
    reveal_strlit("http://127.0.0.1:17350/.fistbump/dane-bypass?host=");
    reveal_strlit("http://127.0.0.1:17350");
    reveal_strlit("/.fistbump/proxy.pac");
    let path = "/.fistbump/dane-bypass?host="@;
    let url = "http://127.0.0.1:17350/.fistbump/dane-bypass?host="@;
    assert(local_url(path) =~= url);
}

proof fn lemma_word_grows(a: Seq<char>, b: Seq<char>)
    requires
        is_word(a),
        is_word(b),
    ensures
        is_word(a + b),
{
    assert forall|i: int| 0 <= i < (a + b).len() implies !is_white_space(
        #[trigger] (a + b)[i],
    ) by {
        if i < a.len() {
            assert((a + b)[i] == a[i]);
        } else {
            assert((a + b)[i] == b[i - a.len()]);
        }
    }
}

proof fn lemma_bypass(before: Seq<char>, host: Seq<char>, n: int)
    requires
        is_word(host),
        !contains_text(host, "host="@),
        before == "/.fistbump/dane-bypass?host="@ && n == 23 || before
            == "http://127.0.0.1:17350/.fistbump/dane-bypass?host="@ && n == 45,
        local_url("/.fistbump/dane-bypass?host="@)
            == "http://127.0.0.1:17350/.fistbump/dane-bypass?host="@,
    ensures
        bypass_host(before + host) == Some(host),
{
    reveal_strlit("/.fistbump/dane-bypass?host=");
    reveal_strlit("http://127.0.0.1:17350/.fistbump/dane-bypass?host=");
    reveal_strlit("host=");
    let a = before.take(n);
    let sep = "host="@;
    let s = before + host;
    assert(a + sep =~= before);
    assert(a + sep + host =~= s);
    assert forall|i: int| 0 <= i < a.len() implies !stands_at(s, sep, i) by {
        if stands_at(s, sep, i) {
            let at = s.subrange(i, i + sep.len());
            assert(at[0] == 'h' && at[1] == 'o');
            assert(s[i] == 'h' && s[i + 1] == 'o');
            assert(s[i] == before[i] && s[i + 1] == before[i + 1]);
        }
    }
    law_after_first(a, sep, host);
    assert(s.subrange(0, before.len() as int) =~= before);
    law_trim(host, ' ');
}

// ── What holds of what is passed on ──

/// Whether a header is neither on the host nor on the connection.
pub open spec fn is_ordinary_header(h: Seq<char>) -> bool {
    let l = ascii_lower(h);
    !begins_with(l, "host:"@) && !begins_with(l, "connection:"@) && !begins_with(
        l,
        "proxy-connection:"@,
    )
}

/// The first line of what is passed on is the method of the request, its path
/// and the version, with one space between each two of them.
pub proof fn law_first_line(
    method: Seq<char>,
    path: Seq<char>,
    host: Seq<char>,
    headers: Seq<Seq<char>>,
)
    requires
        lacks(method, ' ') && lacks(method, '\n'),
        lacks(path, ' ') && lacks(path, '\n'),
    ensures
        split_on(all_lines(passed_head(method, path, host, headers))[0], ' ') == seq![
            method,
            path,
            "HTTP/1.1"@,
        ],
{
    reveal_strlit(" ");
    reveal_strlit(" HTTP/1.1\r\n");
    reveal_strlit("HTTP/1.1");
    let head = passed_head(method, path, host, headers);
    let version = "HTTP/1.1"@;
    let line = method + seq![' '] + (path + seq![' '] + version);
    let first = line + seq!['\r'];
    let rest = head.skip(first.len() as int + 1);
    assert(head =~= first + seq!['\n'] + rest);
    assert(lacks(first, '\n')) by {
        assert forall|i: int| 0 <= i < first.len() implies #[trigger] first[i] != '\n' by {
            if i < method.len() {
                assert(first[i] == method[i]);
            } else if method.len() < i < method.len() + 1 + path.len() {
                assert(first[i] == path[i - method.len() - 1]);
            }
        }
    }
    law_split_at_separator(first, '\n', rest);
    lemma_split_on_len(rest, '\n');
    assert(split_on(head, '\n')[0] == first);
    assert(first.drop_last() =~= line);
    assert(all_lines(head)[0] == line);
    law_split_at_separator(method, ' ', path + seq![' '] + version);
    law_split_at_separator(path, ' ', version);
    law_split_at_separator(version, ' ', version);
    assert(split_on(line, ' ') =~= seq![method, path, version]);
}

/// Requests with different methods, or with different paths, are passed on as
/// different requests.
pub proof fn law_requests_stay_apart(
    method: Seq<char>,
    path: Seq<char>,
    host: Seq<char>,
    headers: Seq<Seq<char>>,
    method2: Seq<char>,
    path2: Seq<char>,
    host2: Seq<char>,
    headers2: Seq<Seq<char>>,
)
    requires
        lacks(method, ' ') && lacks(method, '\n') && lacks(path, ' ') && lacks(path, '\n'),
        lacks(method2, ' ') && lacks(method2, '\n') && lacks(path2, ' ') && lacks(path2, '\n'),
        method != method2 || path != path2,
    ensures
        passed_head(method, path, host, headers) != passed_head(method2, path2, host2, headers2),
{
    law_first_line(method, path, host, headers);
    law_first_line(method2, path2, host2, headers2);
    let a = seq![method, path, "HTTP/1.1"@];
    let b = seq![method2, path2, "HTTP/1.1"@];
    assert(a[0] == method && b[0] == method2 && a[1] == path && b[1] == path2);
}

proof fn lemma_passed_headers_join(a: Seq<Seq<char>>, b: Seq<Seq<char>>, host: Seq<char>)
    ensures
        passed_headers(a + b, host) == passed_headers(a, host) + passed_headers(b, host),
    decreases b.len(),
{
    if b.len() == 0 {
        assert(a + b =~= a);
        assert(passed_headers(a, host) + Seq::<char>::empty() =~= passed_headers(a, host));
    } else {
        lemma_passed_headers_join(a, b.drop_last(), host);
        assert((a + b).drop_last() =~= a + b.drop_last());
        assert(passed_headers(a + b, host) =~= passed_headers(a, host) + passed_headers(b, host));
    }
}

proof fn lemma_ordinary_headers(headers: Seq<Seq<char>>, host: Seq<char>)
    requires
        forall|i: int| 0 <= i < headers.len() ==> is_ordinary_header(#[trigger] headers[i]),
    ensures
        passed_headers(headers, host) == join(headers, Seq::empty()),
        !any_host_header(headers),
    decreases headers.len(),
{
    if headers.len() > 0 {
        let h = headers.drop_last();
        assert forall|i: int| 0 <= i < h.len() implies is_ordinary_header(#[trigger] h[i]) by {
            assert(h[i] == headers[i]);
        }
        lemma_ordinary_headers(h, host);
        assert(is_ordinary_header(headers[headers.len() - 1]));
        if headers.len() == 1 {
            assert(headers.last() == headers[0]);
            assert(passed_headers(headers, host) =~= headers[0]);
        } else {
            assert(passed_headers(headers, host) =~= join(h, Seq::empty()) + Seq::<char>::empty()
                + headers.last());
        }
    }
}

/// Headers that are neither on the host nor on the connection pass as they
/// stand, in their order; the host is added behind them, and the wish to close
/// the connection.
pub proof fn law_ordinary_headers_pass(
    method: Seq<char>,
    path: Seq<char>,
    host: Seq<char>,
    headers: Seq<Seq<char>>,
)
    requires
        forall|i: int| 0 <= i < headers.len() ==> is_ordinary_header(#[trigger] headers[i]),
    ensures
        passed_head(method, path, host, headers) == method + " "@ + path + " HTTP/1.1\r\n"@ + join(
            headers,
            Seq::empty(),
        ) + "Host: "@ + host + "\r\nConnection: close\r\n\r\n"@,
{
    lemma_ordinary_headers(headers, host);
    reveal_strlit("\r\n");
    reveal_strlit("Connection: close\r\n\r\n");
    reveal_strlit("\r\nConnection: close\r\n\r\n");
    assert(passed_head(method, path, host, headers) =~= method + " "@ + path + " HTTP/1.1\r\n"@
        + join(headers, Seq::empty()) + "Host: "@ + host + "\r\nConnection: close\r\n\r\n"@);
}

/// What a browser says of the host, in whatever case, is replaced by the host
/// that the request goes to, where it stands.
pub proof fn law_host_header_is_replaced(
    method: Seq<char>,
    path: Seq<char>,
    host: Seq<char>,
    a: Seq<Seq<char>>,
    h: Seq<char>,
    b: Seq<Seq<char>>,
)
    requires
        forall|i: int| 0 <= i < a.len() ==> is_ordinary_header(#[trigger] a[i]),
        forall|i: int| 0 <= i < b.len() ==> is_ordinary_header(#[trigger] b[i]),
        begins_with(ascii_lower(h), "host:"@),
    ensures
        passed_head(method, path, host, a + seq![h] + b) == method + " "@ + path
            + " HTTP/1.1\r\n"@ + join(a, Seq::empty()) + "Host: "@ + host + "\r\n"@ + join(
            b,
            Seq::empty(),
        ) + "Connection: close\r\n\r\n"@,
{
    lemma_ordinary_headers(a, host);
    lemma_ordinary_headers(b, host);
    let all = a + seq![h] + b;
    lemma_passed_headers_join(a + seq![h], b, host);
    lemma_passed_headers_join(a, seq![h], host);
    assert(seq![h].drop_last() =~= Seq::empty());
    reveal_with_fuel(passed_headers, 2);
    assert(all[a.len() as int] == h);
    assert(any_host_header(all));
    assert(passed_head(method, path, host, all) =~= method + " "@ + path + " HTTP/1.1\r\n"@ + join(
        a,
        Seq::empty(),
    ) + "Host: "@ + host + "\r\n"@ + join(b, Seq::empty()) + "Connection: close\r\n\r\n"@);
}

/// What a browser says of the connection, in whatever case, is as if it had not
/// said it.
pub proof fn law_connection_headers_vanish(
    method: Seq<char>,
    path: Seq<char>,
    host: Seq<char>,
    a: Seq<Seq<char>>,
    h: Seq<char>,
    b: Seq<Seq<char>>,
)
    requires
        begins_with(ascii_lower(h), "connection:"@) || begins_with(
            ascii_lower(h),
            "proxy-connection:"@,
        ),
    ensures
        passed_head(method, path, host, a + seq![h] + b) == passed_head(method, path, host, a + b),
{
    reveal_strlit("host:");
    reveal_strlit("connection:");
    reveal_strlit("proxy-connection:");
    let l = ascii_lower(h);
    if begins_with(l, "host:"@) {
        assert(l.subrange(0, 5)[0] == 'h');
        if begins_with(l, "connection:"@) {
            assert(l.subrange(0, 11)[0] == 'c');
        } else {
            assert(l.subrange(0, 17)[0] == 'p');
        }
    }
    let all = a + seq![h] + b;
    let less = a + b;
    lemma_passed_headers_join(a + seq![h], b, host);
    lemma_passed_headers_join(a, seq![h], host);
    lemma_passed_headers_join(a, b, host);
    assert(seq![h].drop_last() =~= Seq::empty());
    reveal_with_fuel(passed_headers, 2);
    assert(passed_headers(all, host) =~= passed_headers(less, host));
    if any_host_header(less) {
        let k = choose|k: int| 0 <= k < less.len() && is_host_header(#[trigger] less[k]);
        if k < a.len() {
            assert(all[k] == less[k]);
        } else {
            assert(all[k + 1] == less[k]);
        }
    }
    if any_host_header(all) {
        let k = choose|k: int| 0 <= k < all.len() && is_host_header(#[trigger] all[k]);
        if k < a.len() {
            assert(less[k] == all[k]);
        } else {
            assert(k != a.len());
            assert(less[k - 1] == all[k]);
        }
    }
}

/// The body is as long as the first header on its length says, in whatever
/// case that is written; if none says so, there is no body.
pub proof fn law_body_length(
    a: Seq<Seq<char>>,
    name: Seq<char>,
    n: usize,
    b: Seq<Seq<char>>,
)
    requires
        forall|i: int|
            0 <= i < a.len() ==> !begins_with(ascii_lower(#[trigger] a[i]), "content-length:"@),
        ascii_lower(name) == "content-length"@,
    ensures
        body_length(a + seq![name + ": "@ + decimal(n as nat) + "\r\n"@] + b) == n,
        body_length(a) == 0,
    decreases a.len(),
{
    let h = name + ": "@ + decimal(n as nat) + "\r\n"@;
    let all = a + seq![h] + b;
    if a.len() == 0 {
        lemma_length_header(name, n);
        assert(all[0] == h);
    } else {
        let less = a.drop_first();
        assert forall|i: int| 0 <= i < less.len() implies !begins_with(
            ascii_lower(#[trigger] less[i]),
            "content-length:"@,
        ) by {
            assert(less[i] == a[i + 1]);
        }
        law_body_length(less, name, n, b);
        assert(all[0] == a[0]);
        assert(all.drop_first() =~= less + seq![h] + b);
    }
}

proof fn lemma_length_header(name: Seq<char>, n: usize)
    requires
        ascii_lower(name) == "content-length"@,
    ensures
        ({
            let h = name + ": "@ + decimal(n as nat) + "\r\n"@;
            &&& begins_with(ascii_lower(h), "content-length:"@)
            &&& split_on(h, ':').len() == 2
            &&& number(trim(split_on(h, ':')[1]), usize::MAX as nat) == Some(n as nat)
        }),
{
    reveal_strlit("content-length");
    reveal_strlit("content-length:");
    reveal_strlit(": ");
    reveal_strlit("\r\n");
    assert(ascii_lower(name).len() == name.len() == 14);
    let d = decimal(n as nat);
    let h = name + ": "@ + d + "\r\n"@;
    law_decimal_reads_back(n as nat);
    law_numbers_are_read(n as nat, usize::MAX as nat, d, 0);
    let value = seq![' '] + d.push('\r').push('\n');
    assert(h =~= name + seq![':'] + value);
    assert(lacks(name, ':')) by {
        assert forall|i: int| 0 <= i < name.len() implies #[trigger] name[i] != ':' by {
            assert(ascii_lower(name)[i] == lower_char(name[i]));
        }
    }
    assert(lacks(value, ':')) by {
        assert forall|i: int| 0 <= i < value.len() implies #[trigger] value[i] != ':' by {
            if 0 < i <= d.len() {
                assert(value[i] == d[i - 1]);
                assert(is_digit(d[i - 1]));
            }
        }
    }
    law_split_at_separator(name, ':', value);
    law_split_at_separator(value, ':', value);
    assert(split_on(h, ':') =~= seq![name, value]);
    law_trim(d.push('\r').push('\n'), ' ');
    law_trim(d.push('\r'), '\n');
    law_trim(d, '\r');
    assert(is_digit(d[0]) && is_digit(d[d.len() - 1]));
    assert(trim(value) == d);
    let l = ascii_lower(h);
    assert(l.subrange(0, 15) =~= "content-length:"@) by {
        assert forall|i: int| 0 <= i < 14 implies l[i] == "content-length"@[i] by {
            assert(l[i] == lower_char(name[i]));
            assert(ascii_lower(name)[i] == lower_char(name[i]));
        }
        assert(l[14] == lower_char(h[14]));
    }
}

/// A line with fewer than three words asks for nothing.
pub proof fn law_short_lines_ask_for_nothing(a: Seq<char>, b: Seq<char>)
    requires
        lacks_space(a),
        lacks_space(b),
    ensures
        route_of(a + " "@ + b) == RouteView::Nothing,
        route_of(a) == RouteView::Nothing,
{
    reveal_strlit(" ");
    assert(" "@ =~= seq![' ']);
    let line = a + " "@ + b;
    law_trim_keeps_words(line);
    law_trim_keeps_words(a);
    law_words(a, ' ', b);
    law_words(b, ' ', a);
    let none = Seq::<char>::empty();
    if a.len() == 0 {
        assert(a =~= none);
    }
    if b.len() == 0 {
        assert(b =~= none);
    }
    assert(words(a).len() <= 1 && words(b).len() <= 1);
}

/// The URL of a plain request is its target, with the scheme in front if that is
/// missing.
pub proof fn law_absolute(target: Seq<char>)
    ensures
        absolute("http://"@ + target) == "http://"@ + target,
        !begins_with(target, "http://"@) ==> absolute(target) == "http://"@ + target,
{
    let u = "http://"@ + target;
    assert(u.subrange(0, "http://"@.len() as int) =~= "http://"@);
}

} // verus!
