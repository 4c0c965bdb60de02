//! Plain HTTP requests.

use crate::proxy::pages::{
    error_response, no_response_page, page_for_no_response, page_for_unresolved, page_response,
    unresolved_page, Page, PageView,
};
use crate::proxy::dns::{Resolution, Resolved};
use crate::proxy::request::{
    absolute, absolute_url, body_length, content_length, forward_head, http_url, is_fistbump,
    is_fistbump_name, law_url_parts, parse_http_url, passed_head,
};
use crate::proxy::steps::{
    address_in, join_port, pick_address, silent, silently, with_port, Act, ActView, Event,
    EventView, Step, StepView,
};
use crate::text::{begins_with, decimal, lacks, texts};
use vstd::prelude::*;

verus! {

/// A plain HTTP request to the proxy.
pub struct HttpRequest {
    pub method: String,
    pub target: String,
    pub headers: Vec<String>,
}

/// What is looked at of a request.
pub struct HttpRequestView {
    pub method: Seq<char>,
    pub target: Seq<char>,
    pub headers: Seq<Seq<char>>,
}

impl View for HttpRequest {
    type V = HttpRequestView;

    open spec fn view(&self) -> HttpRequestView {
        HttpRequestView {
            method: self.method@,
            target: self.target@,
            headers: texts(self.headers@),
        }
    }
}

pub open spec fn plain_page(p: PageView) -> StepView {
    silent(ActView::PlainPage { response: page_response(p) })
}

/// How a request begins: a Fistbump name is looked up, any other is connected
/// to.
pub open spec fn http_start(req: HttpRequestView, icann_tlds: Seq<Seq<char>>) -> StepView {
    let (host, port, path) = http_url(absolute(req.target));
    if is_fistbump(host, icann_tlds) {
        silent(ActView::Resolve { host })
    } else {
        silent(ActView::Dial { addr: with_port(host, port) })
    }
}

/// How a request goes on.
pub open spec fn http_step(req: HttpRequestView, event: EventView) -> StepView {
    let (host, port, path) = http_url(absolute(req.target));
    match event {
        EventView::Resolved(r) => match address_in(r) {
            Some(addr) => silent(ActView::Dial { addr: with_port(addr, port) }),
            None => plain_page(unresolved_page(r, host)),
        },
        EventView::Dialed(ok) => if ok {
            silent(
                ActView::Forward {
                    head: passed_head(req.method, path, host, req.headers),
                    body_len: body_length(req.headers),
                },
            )
        } else {
            plain_page(no_response_page(host))
        },
        _ => silent(ActView::Close),
    }
}

fn page_step(page: Page) -> (r: Step)
    ensures
        r@ == plain_page(page@),
{
    silently(Act::PlainPage { response: error_response(&page) })
}

/// Begins a plain request.
pub fn start_http(req: &HttpRequest, icann_tlds: &Vec<String>) -> (r: Step)
    ensures
        r@ == http_start(req@, texts(icann_tlds@)),
{
    let url = absolute_url(req.target.as_str());
    let (host, port, _) = parse_http_url(url.as_str());
    if is_fistbump_name(host.as_str(), icann_tlds) {
        silently(Act::Resolve { host })
    } else {
        silently(Act::Dial { addr: join_port(host.as_str(), port) })
    }
}

/// Goes on with a plain request.
pub fn handle_http(req: &HttpRequest, event: Event) -> (r: Step)
    ensures
        r@ == http_step(req@, event@),
{
    let url = absolute_url(req.target.as_str());
    let (host, port, path) = parse_http_url(url.as_str());
    match event {
        Event::Resolved(name) => match pick_address(&name) {
            Some(ip) => silently(Act::Dial { addr: join_port(ip.as_str(), port) }),
            None => page_step(page_for_unresolved(&name, host.as_str())),
        },
        Event::Dialed(ok) => {
            if ok {
                silently(
                    Act::Forward {
                        head: forward_head(
                            req.method.as_str(),
                            path.as_str(),
                            host.as_str(),
                            &req.headers,
                        ),
                        body_len: content_length(&req.headers),
                    },
                )
            } else {
                page_step(page_for_no_response(host.as_str()))
            }
        },
        _ => silently(Act::Close),
    }
}

// ── What holds of it ──

/// How a plain request goes on: for a Fistbump name, the name in the URL is
/// looked up, and its first address is dialled on the port in the URL; an
/// ordinary name is dialled by itself. What is sent to the server is the
/// request with its own method and with the path of the URL, for the host of
/// the URL, and as much of the body as its headers give. The URL may come
/// without its scheme.
pub proof fn law_http_goes_through(
    req: HttpRequestView,
    host: Seq<char>,
    port: u16,
    path: Seq<char>,
    icann_tlds: Seq<Seq<char>>,
    found: Resolved,
    ip: Seq<char>,
)
    requires
        lacks(host, '/'),
        lacks(host, ':'),
        req.target == "http://"@ + host + ":"@ + decimal(port as nat) + "/"@ + path
            || !begins_with(req.target, "http://"@) && req.target == host + ":"@ + decimal(
            port as nat,
        ) + "/"@ + path,
        found.ipv4 == Some(ip) || found.ipv4 is None && found.ipv6 == Some(ip),
    ensures
        is_fistbump(host, icann_tlds) ==> http_start(req, icann_tlds) == silent(
            ActView::Resolve { host },
        ),
        !is_fistbump(host, icann_tlds) ==> http_start(req, icann_tlds) == silent(
            ActView::Dial { addr: host + ":"@ + decimal(port as nat) },
        ),
        http_step(req, EventView::Resolved(Resolution::Found(found))) == silent(
            ActView::Dial { addr: ip + ":"@ + decimal(port as nat) },
        ),
        http_step(req, EventView::Dialed(true)) == silent(
            ActView::Forward {
                head: passed_head(req.method, "/"@ + path, host, req.headers),
                body_len: body_length(req.headers),
            },
        ),
        http_step(req, EventView::Dialed(false)) == silent(
            ActView::PlainPage { response: page_response(no_response_page(host)) },
        ),
        forall|r: Resolution|
            r !is Found ==> #[trigger] http_step(req, EventView::Resolved(r)) == silent(
                ActView::PlainPage { response: page_response(unresolved_page(r, host)) },
            ),
{
    law_url_parts(host, port, path);
    let p = "http://"@;
    let t = host + ":"@ + decimal(port as nat) + "/"@ + path;
    let u = p + host + ":"@ + decimal(port as nat) + "/"@ + path;
    assert(u =~= p + t);
    assert(u.subrange(0, p.len() as int) =~= p);
}

} // verus!
