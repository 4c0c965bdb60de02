//! What the proxy itself answers: the script, redirects and error pages.

use crate::proxy::dns::{Resolution, ResolveResult};
use crate::proxy::pac::{local_url, pac_script, pac_text, proxy_url};
use crate::text::{
    begins_with, byte_len, concat3, contains_text, decimal, push_decimal, stands_at,
};
use vstd::prelude::*;
use vstd::utf8::encode_utf8;

verus! {

/// An error page: a badge, a title and a message in HTML.
pub struct Page {
    pub badge: String,
    pub title: String,
    pub message: String,
}

pub struct PageView {
    pub badge: Seq<char>,
    pub title: Seq<char>,
    pub message: Seq<char>,
}

impl View for Page {
    type V = PageView;

    open spec fn view(&self) -> PageView {
        PageView { badge: self.badge@, title: self.title@, message: self.message@ }
    }
}

/// The HTML in front of the badge.
pub open spec fn page_head() -> Seq<char> {
    "<html><head><meta name=\"viewport\" content=\"width=device-width,initial-scale=1\"><title>fistbump-error</title><style>html,body{height:100%;margin:0}body{font-family:-apple-system,sans-serif;background:#09090b;color:#e4e4e7;display:flex;align-items:center;justify-content:center;text-align:center;padding:24px;box-sizing:border-box}.box{max-width:360px}h2{color:#f87171;font-size:18px;margin:0 0 12px}p{font-size:14px;color:#a1a1aa;line-height:1.5;margin:0}.badge{display:inline-block;background:#7f1d1d;color:#fca5a5;font-size:11px;padding:2px 8px;border-radius:4px;margin-bottom:16px;font-weight:600}</style></head><body><div class=\"box\"><div class=\"badge\">"@
}

/// The HTML of an error page.
pub open spec fn page_html(p: PageView) -> Seq<char> {
    page_head() + p.badge + "</div><h2>"@ + p.title + "</h2><p>"@ + p.message
        + "</p></div></body></html>"@
}

/// An HTTP response with a body, after which the connection is closed.
pub open spec fn page_response(p: PageView) -> Seq<char> {
    "HTTP/1.1 200 OK\r\nContent-Type: text/html; charset=utf-8\r\nContent-Length: "@ + decimal(
        encode_utf8(page_html(p)).len(),
    ) + "\r\nConnection: close\r\n\r\n"@ + page_html(p)
}

/// The response that serves the script.
pub open spec fn pac_response() -> Seq<char> {
    "HTTP/1.1 200 OK\r\nContent-Type: application/x-ns-proxy-autoconfig\r\nCache-Control: max-age=3600\r\nContent-Length: "@
        + decimal(encode_utf8(pac_text()).len()) + "\r\nConnection: close\r\n\r\n"@ + pac_text()
}

/// The response that sends the browser to a host.
pub open spec fn redirect_response(host: Seq<char>) -> Seq<char> {
    "HTTP/1.1 302 Found\r\nLocation: https://"@ + host
        + "/\r\nContent-Length: 0\r\nConnection: close\r\n\r\n"@
}

/// The page for a name without an address to connect to.
pub open spec fn unresolved_page(why: Resolution, host: Seq<char>) -> PageView {
    match why {
        Resolution::NotFound => PageView {
            badge: "NAME NOT FOUND"@,
            title: "Name Not Found"@,
            message: "The name <strong>"@ + host
                + "</strong> is not registered on the Fistbump blockchain."@,
        },
        Resolution::NoRecords => PageView {
            badge: "NO RECORDS"@,
            title: "No DNS Records"@,
            message: "The name <strong>"@ + host
                + "</strong> is registered but has no DNS records configured."@,
        },
        Resolution::NoWebsite | Resolution::Found(_) => PageView {
            badge: "NO WEBSITE"@,
            title: "No Website Records"@,
            message: "The name <strong>"@ + host
                + "</strong> has DNS records but no A, AAAA, or CNAME record pointing to a website."@,
        },
        _ => PageView {
            badge: "DNS ERROR"@,
            title: "DNS Lookup Failed"@,
            message: "Could not resolve <strong>"@ + host
                + "</strong>. The node may still be syncing."@,
        },
    }
}

/// The page for a server that cannot be reached.
pub open spec fn no_response_page(host: Seq<char>) -> PageView {
    PageView {
        badge: "CONNECTION FAILED"@,
        title: "No Response"@,
        message: "The server for <strong>"@ + host + "</strong> did not respond."@,
    }
}

/// The page for a server with which no secure connection came about.
pub open spec fn ssl_error_page(host: Seq<char>) -> PageView {
    PageView {
        badge: "SSL ERROR"@,
        title: "Secure Connection Failed"@,
        message: "Could not establish a secure connection to <strong>"@ + host + "</strong>."@,
    }
}

/// The page for a server whose certificate is not valid.
pub open spec fn certificate_error_page(host: Seq<char>) -> PageView {
    PageView {
        badge: "CERTIFICATE ERROR"@,
        title: "Certificate Not Valid"@,
        message: "The SSL certificate for <strong>"@ + host
            + "</strong> is not valid. The connection has been blocked."@,
    }
}

/// The link by which the user goes on to a host all the same.
pub open spec fn proceed_link(host: Seq<char>) -> Seq<char> {
    "<br><br><a href=\""@ + (local_url("/.fistbump/dane-bypass?host="@) + host)
        + "\" style=\"color:#60a5fa\">Proceed anyway</a>"@
}

/// The page for a certificate that no record vouches for.
pub open spec fn unverified_page(host: Seq<char>, has_records: bool) -> PageView {
    if has_records {
        PageView {
            badge: "DANE VALIDATION FAILED"@,
            title: "Connection Not Secure"@,
            message: "The certificate presented by <strong>"@ + host
                + "</strong> does not match its on-chain TLSA record."@ + proceed_link(host),
        }
    } else {
        PageView {
            badge: "NO DANE RECORD"@,
            title: "Connection Not Verified"@,
            message: "<strong>"@ + host
                + "</strong> has no TLSA record, so the certificate cannot be verified."@
                + proceed_link(host),
        }
    }
}

/// The HTML of an error page.
pub fn error_html(p: &Page) -> (r: String)
    ensures
        r@ == page_html(p@),
{
    let mut out =
        "<html><head><meta name=\"viewport\" content=\"width=device-width,initial-scale=1\"><title>fistbump-error</title><style>html,body{height:100%;margin:0}body{font-family:-apple-system,sans-serif;background:#09090b;color:#e4e4e7;display:flex;align-items:center;justify-content:center;text-align:center;padding:24px;box-sizing:border-box}.box{max-width:360px}h2{color:#f87171;font-size:18px;margin:0 0 12px}p{font-size:14px;color:#a1a1aa;line-height:1.5;margin:0}.badge{display:inline-block;background:#7f1d1d;color:#fca5a5;font-size:11px;padding:2px 8px;border-radius:4px;margin-bottom:16px;font-weight:600}</style></head><body><div class=\"box\"><div class=\"badge\">".to_owned();
    out.append(p.badge.as_str());
    out.append("</div><h2>");
    out.append(p.title.as_str());
    out.append("</h2><p>");
    out.append(p.message.as_str());
    out.append("</p></div></body></html>");
    out
}

/// The HTTP response with an error page.
pub fn error_response(p: &Page) -> (r: String)
    ensures
        r@ == page_response(p@),
{
    let html = error_html(p);
    let mut out =
        "HTTP/1.1 200 OK\r\nContent-Type: text/html; charset=utf-8\r\nContent-Length: ".to_owned();
    push_decimal(&mut out, byte_len(html.as_str()) as u64);
    out.append("\r\nConnection: close\r\n\r\n");
    out.append(html.as_str());
    out
}

/// The HTTP response with the proxy auto-configuration script.
pub fn serve_pac() -> (r: String)
    ensures
        r@ == pac_response(),
{
    let body = pac_script();
    let mut out =
        "HTTP/1.1 200 OK\r\nContent-Type: application/x-ns-proxy-autoconfig\r\nCache-Control: max-age=3600\r\nContent-Length: ".to_owned();
    push_decimal(&mut out, byte_len(body.as_str()) as u64);
    out.append("\r\nConnection: close\r\n\r\n");
    out.append(body.as_str());
    out
}

/// The HTTP response that sends the browser to a host.
pub fn redirect_to(host: &str) -> (r: String)
    ensures
        r@ == redirect_response(host@),
{
    concat3(
        "HTTP/1.1 302 Found\r\nLocation: https://",
        host,
        "/\r\nContent-Length: 0\r\nConnection: close\r\n\r\n",
    )
}

fn page(badge: &str, title: &str, message: String) -> (r: Page)
    ensures
        r@ == (PageView { badge: badge@, title: title@, message: message@ }),
{
    Page { badge: badge.to_owned(), title: title.to_owned(), message }
}

/// The page for a name that did not resolve.
pub fn page_for_unresolved(why: &ResolveResult, host: &str) -> (r: Page)
    ensures
        r@ == unresolved_page(why@, host@),
{
    match why {
        ResolveResult::NotFound => page(
            "NAME NOT FOUND",
            "Name Not Found",
            concat3(
                "The name <strong>",
                host,
                "</strong> is not registered on the Fistbump blockchain.",
            ),
        ),
        ResolveResult::NoRecords => page(
            "NO RECORDS",
            "No DNS Records",
            concat3(
                "The name <strong>",
                host,
                "</strong> is registered but has no DNS records configured.",
            ),
        ),
        ResolveResult::NoWebsite | ResolveResult::Found(_) => page(
            "NO WEBSITE",
            "No Website Records",
            concat3(
                "The name <strong>",
                host,
                "</strong> has DNS records but no A, AAAA, or CNAME record pointing to a website.",
            ),
        ),
        _ => page(
            "DNS ERROR",
            "DNS Lookup Failed",
            concat3(
                "Could not resolve <strong>",
                host,
                "</strong>. The node may still be syncing.",
            ),
        ),
    }
}

pub fn page_for_no_response(host: &str) -> (r: Page)
    ensures
        r@ == no_response_page(host@),
{
    page(
        "CONNECTION FAILED",
        "No Response",
        concat3("The server for <strong>", host, "</strong> did not respond."),
    )
}

pub fn page_for_ssl_error(host: &str) -> (r: Page)
    ensures
        r@ == ssl_error_page(host@),
{
    page(
        "SSL ERROR",
        "Secure Connection Failed",
        concat3("Could not establish a secure connection to <strong>", host, "</strong>."),
    )
}

pub fn page_for_certificate_error(host: &str) -> (r: Page)
    ensures
        r@ == certificate_error_page(host@),
{
    page(
        "CERTIFICATE ERROR",
        "Certificate Not Valid",
        concat3(
            "The SSL certificate for <strong>",
            host,
            "</strong> is not valid. The connection has been blocked.",
        ),
    )
}

pub fn page_for_unverified(host: &str, has_records: bool) -> (r: Page)
    ensures
        r@ == unverified_page(host@, has_records),
{
    let mut url = proxy_url("/.fistbump/dane-bypass?host=");
    url.append(host);
    let link = concat3(
        "<br><br><a href=\"",
        url.as_str(),
        "\" style=\"color:#60a5fa\">Proceed anyway</a>",
    );
    if has_records {
        let mut message = concat3(
            "The certificate presented by <strong>",
            host,
            "</strong> does not match its on-chain TLSA record.",
        );
        message.append(link.as_str());
        page("DANE VALIDATION FAILED", "Connection Not Secure", message)
    } else {
        let mut message = concat3(
            "<strong>",
            host,
            "</strong> has no TLSA record, so the certificate cannot be verified.",
        );
        message.append(link.as_str());
        page("NO DANE RECORD", "Connection Not Verified", message)
    }
}

// ── What holds of the pages ──

proof fn lemma_stands(hay: Seq<char>, a: Seq<char>, needle: Seq<char>, b: Seq<char>)
    requires
        hay == a + needle + b,
    ensures
        contains_text(hay, needle),
{
    assert(hay.subrange(a.len() as int, (a.len() + needle.len()) as int) =~= needle);
    assert(stands_at(hay, needle, a.len() as int));
}

/// Whether a text is an HTTP response with this status line, whose head gives
/// the length of its body in bytes.
pub open spec fn is_response(text: Seq<char>, status: Seq<char>, body: Seq<char>) -> bool {
    exists|a: Seq<char>|
        text == status + "\r\n"@ + a + "Content-Length: "@ + decimal(encode_utf8(body).len())
            + "\r\nConnection: close\r\n\r\n"@ + body && #[trigger] ends_lines(a)
}

/// Whether a text is empty or ends a line.
pub open spec fn ends_lines(a: Seq<char>) -> bool {
    a.len() == 0 || a.last() == '\n'
}

/// The pages and the script come in responses that give the length of their
/// bodies in bytes, so that a browser takes all of them and nothing else.
pub proof fn law_responses_give_their_length(p: PageView)
    ensures
        is_response(page_response(p), "HTTP/1.1 200 OK"@, page_html(p)),
        is_response(pac_response(), "HTTP/1.1 200 OK"@, pac_text()),
{
    reveal_strlit("HTTP/1.1 200 OK");
    reveal_strlit("\r\n");
    reveal_strlit("Content-Length: ");
    reveal_strlit(
        "HTTP/1.1 200 OK\r\nContent-Type: text/html; charset=utf-8\r\nContent-Length: ",
    );
    reveal_strlit("Content-Type: text/html; charset=utf-8\r\n");
    reveal_strlit(
        "HTTP/1.1 200 OK\r\nContent-Type: application/x-ns-proxy-autoconfig\r\nCache-Control: max-age=3600\r\nContent-Length: ",
    );
    reveal_strlit(
        "Content-Type: application/x-ns-proxy-autoconfig\r\nCache-Control: max-age=3600\r\n",
    );
    let a = "Content-Type: text/html; charset=utf-8\r\n"@;
    let b =
        "Content-Type: application/x-ns-proxy-autoconfig\r\nCache-Control: max-age=3600\r\n"@;
    assert("HTTP/1.1 200 OK\r\nContent-Type: text/html; charset=utf-8\r\nContent-Length: "@
        =~= "HTTP/1.1 200 OK"@ + "\r\n"@ + a + "Content-Length: "@);
    assert("HTTP/1.1 200 OK\r\nContent-Type: application/x-ns-proxy-autoconfig\r\nCache-Control: max-age=3600\r\nContent-Length: "@
        =~= "HTTP/1.1 200 OK"@ + "\r\n"@ + b + "Content-Length: "@);
    assert(ends_lines(a) && ends_lines(b));
}

/// A page shows its badge, its title and its message.
pub proof fn law_pages_show_what_they_say(p: PageView)
    ensures
        contains_text(page_html(p), "<div class=\"badge\">"@ + p.badge + "</div>"@),
        contains_text(page_html(p), "<h2>"@ + p.title + "</h2>"@),
        contains_text(page_html(p), "<p>"@ + p.message + "</p>"@),
{
    let html = page_html(p);
    let head = page_head();
    reveal_strlit("<div class=\"badge\">");
    reveal_strlit("</div><h2>");
    reveal_strlit("</div>");
    reveal_strlit("<h2>");
    reveal_strlit("</h2><p>");
    reveal_strlit("</h2>");
    reveal_strlit("<p>");
    reveal_strlit("</p></div></body></html>");
    reveal_strlit("</p>");
    reveal_strlit("</div></body></html>");
    lemma_page_head();
    let start = head.take(head.len() - 19);
    assert(start + "<div class=\"badge\">"@ =~= head);
    let end = "</div></body></html>"@;
    let tail = "<p>"@ + p.message + "</p>"@ + end;
    let mid = "<h2>"@ + p.title + "</h2>"@;
    assert(html =~= start + ("<div class=\"badge\">"@ + p.badge + "</div>"@) + (mid + tail));
    lemma_stands(html, start, "<div class=\"badge\">"@ + p.badge + "</div>"@, mid + tail);
    assert(html =~= (head + p.badge + "</div>"@) + mid + tail);
    lemma_stands(html, head + p.badge + "</div>"@, mid, tail);
    let para = "<p>"@ + p.message + "</p>"@;
    assert(html =~= (head + p.badge + "</div>"@ + mid) + para + end);
    lemma_stands(html, head + p.badge + "</div>"@ + mid, para, end);
}

proof fn lemma_page_head()
    ensures
        page_head().len() >= 19,
        page_head().skip(page_head().len() - 19) == "<div class=\"badge\">"@,
{
    reveal_strlit(
        "<html><head><meta name=\"viewport\" content=\"width=device-width,initial-scale=1\"><title>fistbump-error</title><style>html,body{height:100%;margin:0}body{font-family:-apple-system,sans-serif;background:#09090b;color:#e4e4e7;display:flex;align-items:center;justify-content:center;text-align:center;padding:24px;box-sizing:border-box}.box{max-width:360px}h2{color:#f87171;font-size:18px;margin:0 0 12px}p{font-size:14px;color:#a1a1aa;line-height:1.5;margin:0}.badge{display:inline-block;background:#7f1d1d;color:#fca5a5;font-size:11px;padding:2px 8px;border-radius:4px;margin-bottom:16px;font-weight:600}</style></head><body><div class=\"box\"><div class=\"badge\">",
    );
    reveal_strlit("<div class=\"badge\">");
    assert(page_head().skip(page_head().len() - 19) =~= "<div class=\"badge\">"@);
}

/// Each way of not getting through has a badge of its own, by which the user
/// can tell it from the others.
pub proof fn law_badges(host: Seq<char>)
    ensures
        unresolved_page(Resolution::NotFound, host).badge == "NAME NOT FOUND"@,
        unresolved_page(Resolution::NoRecords, host).badge == "NO RECORDS"@,
        unresolved_page(Resolution::NoWebsite, host).badge == "NO WEBSITE"@,
        unresolved_page(Resolution::DnsError, host).badge == "DNS ERROR"@,
        no_response_page(host).badge == "CONNECTION FAILED"@,
        ssl_error_page(host).badge == "SSL ERROR"@,
        certificate_error_page(host).badge == "CERTIFICATE ERROR"@,
        unverified_page(host, true).badge == "DANE VALIDATION FAILED"@,
        unverified_page(host, false).badge == "NO DANE RECORD"@,
{
}

/// Every page names the host that it is about.
pub proof fn law_pages_name_the_host(r: Resolution, host: Seq<char>, has_records: bool)
    ensures
        contains_text(unresolved_page(r, host).message, "<strong>"@ + host + "</strong>"@),
        contains_text(no_response_page(host).message, "<strong>"@ + host + "</strong>"@),
        contains_text(ssl_error_page(host).message, "<strong>"@ + host + "</strong>"@),
        contains_text(certificate_error_page(host).message, "<strong>"@ + host + "</strong>"@),
        contains_text(
            unverified_page(host, has_records).message,
            "<strong>"@ + host + "</strong>"@,
        ),
{
    reveal_strlit("<strong>");
    reveal_strlit("</strong>");
    reveal_strlit("The name <strong>");
    reveal_strlit("</strong> is not registered on the Fistbump blockchain.");
    reveal_strlit("</strong> is registered but has no DNS records configured.");
    reveal_strlit(
        "</strong> has DNS records but no A, AAAA, or CNAME record pointing to a website.",
    );
    reveal_strlit("Could not resolve <strong>");
    reveal_strlit("</strong>. The node may still be syncing.");
    reveal_strlit("The server for <strong>");
    reveal_strlit("</strong> did not respond.");
    reveal_strlit("Could not establish a secure connection to <strong>");
    reveal_strlit("</strong>.");
    reveal_strlit("The SSL certificate for <strong>");
    reveal_strlit("</strong> is not valid. The connection has been blocked.");
    reveal_strlit("The certificate presented by <strong>");
    reveal_strlit("</strong> does not match its on-chain TLSA record.");
    reveal_strlit("</strong> has no TLSA record, so the certificate cannot be verified.");
    match r {
        Resolution::NotFound => lemma_named(
            "The name <strong>"@,
            host,
            "</strong> is not registered on the Fistbump blockchain."@,
        ),
        Resolution::NoRecords => lemma_named(
            "The name <strong>"@,
            host,
            "</strong> is registered but has no DNS records configured."@,
        ),
        Resolution::NoWebsite | Resolution::Found(_) => lemma_named(
            "The name <strong>"@,
            host,
            "</strong> has DNS records but no A, AAAA, or CNAME record pointing to a website."@,
        ),
        Resolution::DnsError => lemma_named(
            "Could not resolve <strong>"@,
            host,
            "</strong>. The node may still be syncing."@,
        ),
    }
    lemma_named("The server for <strong>"@, host, "</strong> did not respond."@);
    lemma_named(
        "Could not establish a secure connection to <strong>"@,
        host,
        "</strong>."@,
    );
    lemma_named(
        "The SSL certificate for <strong>"@,
        host,
        "</strong> is not valid. The connection has been blocked."@,
    );
    let end = if has_records {
        "</strong> does not match its on-chain TLSA record."@ + proceed_link(host)
    } else {
        "</strong> has no TLSA record, so the certificate cannot be verified."@ + proceed_link(host)
    };
    let start = if has_records {
        "The certificate presented by <strong>"@
    } else {
        "<strong>"@
    };
    lemma_named(start, host, end);
    assert(unverified_page(host, has_records).message =~= start + host + end);
}

proof fn lemma_named(start: Seq<char>, host: Seq<char>, end: Seq<char>)
    requires
        "<strong>"@.len() == 8,
        "</strong>"@.len() == 9,
        start.len() >= 8,
        start.skip(start.len() - 8) =~= "<strong>"@,
        end.len() >= 9,
        end.take(9) =~= "</strong>"@,
    ensures
        contains_text(start + host + end, "<strong>"@ + host + "</strong>"@),
{
    let a = start.take(start.len() - 8);
    let b = end.skip(9);
    let named = "<strong>"@ + host + "</strong>"@;
    assert(start =~= a + "<strong>"@);
    assert(end =~= "</strong>"@ + b);
    assert(start + host + end =~= a + named + b);
    lemma_stands(start + host + end, a, named, b);
}

/// The page for a certificate that nothing vouches for links to the bypass path
/// of the proxy, with the host behind it.
pub proof fn law_unverified_page_links_on(host: Seq<char>, has_records: bool)
    ensures
        contains_text(
            unverified_page(host, has_records).message,
            "<a href=\"http://127.0.0.1:17350/.fistbump/dane-bypass?host="@ + host + "\""@,
        ),
{
    reveal_strlit("<a href=\"http://127.0.0.1:17350/.fistbump/dane-bypass?host=");
    reveal_strlit("\"");
    reveal_strlit("<br><br><a href=\"");
    reveal_strlit("<br><br>");
    reveal_strlit("http://127.0.0.1:");
    reveal_strlit("/.fistbump/dane-bypass?host=");
    reveal_strlit("\" style=\"color:#60a5fa\">Proceed anyway</a>");
    reveal_with_fuel(decimal, 5);
    assert(decimal(17350) =~= seq!['1', '7', '3', '5', '0']);
    let link = "<a href=\"http://127.0.0.1:17350/.fistbump/dane-bypass?host="@ + host + "\""@;
    let all = "\" style=\"color:#60a5fa\">Proceed anyway</a>"@;
    let rest = all.skip(1);
    assert("<br><br><a href=\""@ + local_url("/.fistbump/dane-bypass?host="@) =~= "<br><br>"@
        + "<a href=\"http://127.0.0.1:17350/.fistbump/dane-bypass?host="@);
    assert(all =~= "\""@ + rest);
    assert(proceed_link(host) =~= "<br><br>"@ + link + rest);
    let m = unverified_page(host, has_records).message;
    let start = m.take(m.len() - proceed_link(host).len());
    assert(m =~= (start + "<br><br>"@) + link + rest);
    lemma_stands(m, start + "<br><br>"@, link, rest);
}

/// The redirect goes to the host, over TLS, and has no body.
pub proof fn law_redirect_goes_to_the_host(host: Seq<char>)
    ensures
        begins_with(redirect_response(host), "HTTP/1.1 302 Found\r\nLocation: https://"@ + host + "/\r\n"@),
        contains_text(redirect_response(host), "\r\nContent-Length: 0\r\n"@),
{
    reveal_strlit("HTTP/1.1 302 Found\r\nLocation: https://");
    reveal_strlit("/\r\n");
    reveal_strlit("\r\nContent-Length: 0\r\n");
    reveal_strlit("/\r\nContent-Length: 0\r\nConnection: close\r\n\r\n");
    let r = redirect_response(host);
    let a = "HTTP/1.1 302 Found\r\nLocation: https://"@ + host;
    let p = a + "/\r\n"@;
    assert(r.subrange(0, p.len() as int) =~= p);
    let len = "\r\nContent-Length: 0\r\n"@;
    let before = a + seq!['/'];
    assert(r =~= before + len + r.skip((before.len() + len.len()) as int));
    lemma_stands(r, before, len, r.skip((before.len() + len.len()) as int));
}

} // verus!
