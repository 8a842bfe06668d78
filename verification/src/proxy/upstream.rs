//! Where a proxied request goes, and the request head that is sent there.

use crate::capture::details::header_of;
use crate::capture::model::{headers_view, is_ip_addr_text, opt_view, parses_as_ip_addr};
use crate::proxy::http::{header_value, ParsedRequest, RequestView};
use crate::text;
use vstd::prelude::*;

verus! {

/// The origin a request is forwarded to, and the path it asks for there.
#[derive(Debug, Clone, PartialEq, Eq)]
pub struct UpstreamTarget {
    pub scheme: String,
    pub host: String,
    pub port: u16,
    pub path: String,
}

/// The `Host` value for a target: the bare host on the scheme's default port, else
/// `host:port`, with brackets around an IPv6 address.
pub open spec fn target_authority(scheme: Seq<char>, host: Seq<char>, port: u16) -> Seq<char> {
    if (scheme == "http"@ && port == 80) || (scheme == "https"@ && port == 443) {
        host
    } else if is_ip_addr_text(host) && text::find(host, ':') is Some {
        "["@ + host + "]:"@ + text::decimal(port as nat)
    } else {
        host + ":"@ + text::decimal(port as nat)
    }
}

impl UpstreamTarget {
    /// The value of the `Host` header for this target.
    pub fn authority(&self) -> (r: String)
        ensures
            r@ == target_authority(self.scheme@, self.host@, self.port),
    {
        let default_port = (text::str_eq(self.scheme.as_str(), "http") && self.port == 80) || (
        text::str_eq(self.scheme.as_str(), "https") && self.port == 443);
        if default_port {
            return self.host.clone();
        }
        let v = text::chars_of(self.host.as_str());
        let has_colon = text::find_from(&v, 0, ':').is_some();
        proof {
            text::lemma_find_bounds(self.host@, ':');
            if has_colon {
                let k = choose|k: int| 0 <= k < self.host@.len() && self.host@[k] == ':';
                if text::find(self.host@, ':') is None {
                    assert(self.host@[k] != ':');
                }
            } else {
                if let Some(k) = text::find(self.host@, ':') {
                    assert(v@[k as int] == ':');
                }
            }
        }
        if parses_as_ip_addr(self.host.as_str()) && has_colon {
            let mut r = text::to_owned("[");
            text::push_str(&mut r, self.host.as_str());
            text::push_str(&mut r, "]:");
            text::push_decimal(&mut r, self.port as u64);
            r
        } else {
            let mut r = self.host.clone();
            text::push_str(&mut r, ":");
            text::push_decimal(&mut r, self.port as u64);
            r
        }
    }
}

/// The model of an upstream target.
pub struct TargetView {
    pub scheme: Seq<char>,
    pub host: Seq<char>,
    pub port: u16,
    pub path: Seq<char>,
}

impl View for UpstreamTarget {
    type V = TargetView;

    open spec fn view(&self) -> TargetView {
        TargetView { scheme: self.scheme@, host: self.host@, port: self.port, path: self.path@ }
    }
}

// ---------------------------------------------------------------------------
// host[:port]
// ---------------------------------------------------------------------------

/// `host[:port]` split into host and port, `default_port` when none is given; an
/// IPv6 host is written in brackets.
pub open spec fn split_host_port_of(value: Seq<char>, default_port: u16) -> Result<(Seq<char>, u16), Seq<char>> {
    let v = text::trim(value);
    if v.len() == 0 {
        Err("empty host"@)
    } else if v[0] == '[' {
        match text::split_once(v.drop_first(), ']') {
            None => Err("invalid bracketed IPv6 host '"@ + v + "'"@),
            Some((host, after)) => if after.len() > 0 && after[0] == ':' {
                match text::parse_uint(after.drop_first(), 65535) {
                    Some(p) => Ok((host, p as u16)),
                    None => Err("invalid port in authority '"@ + v + "'"@),
                }
            } else {
                Ok((host, default_port))
            },
        }
    } else {
        match text::rsplit_once(v, ':') {
            Some((host, port)) => if text::find(host, ':') is None {
                match text::parse_uint(port, 65535) {
                    Some(p) => Ok((host, p as u16)),
                    None => Err("invalid port in authority '"@ + v + "'"@),
                }
            } else {
                Ok((v, default_port))
            },
            None => Ok((v, default_port)),
        }
    }
}

/// The `Host` authority of a target names its port unless the port is the scheme's
/// default: it then ends with `:` and the port in decimal, after the host (bracketed
/// when it is an IPv6 address). Splitting it again gives back the target's host and
/// port, for a host that is written plainly: not empty, without white space at its
/// ends, a leading `[` or a `]`, and with a `:` only when it is an IP address.
pub proof fn lemma_authority_names_port(scheme: Seq<char>, host: Seq<char>, port: u16, default_port: u16)
    ensures
        (scheme == "http"@ && port == 80) || (scheme == "https"@ && port == 443) ==> target_authority(
            scheme,
            host,
            port,
        ) == host,
        !((scheme == "http"@ && port == 80) || (scheme == "https"@ && port == 443)) ==> {
            let a = target_authority(scheme, host, port);
            let suffix = ":"@ + text::decimal(port as nat);
            &&& text::ends_with(a, suffix)
            &&& (a.take(a.len() - suffix.len()) == host || a.take(a.len() - suffix.len()) == "["@ + host
                + "]"@)
        },
        !((scheme == "http"@ && port == 80) || (scheme == "https"@ && port == 443)) && host.len() > 0
            && !text::is_ws(host[0]) && !text::is_ws(host.last()) && host[0] != '[' && (forall|i: int|
            0 <= i < host.len() ==> host[i] != ']') && (text::find(host, ':') is None || is_ip_addr_text(host))
            ==> split_host_port_of(target_authority(scheme, host, port), default_port) == Ok::<
            (Seq<char>, u16),
            Seq<char>,
        >((host, port)),
{
    reveal_strlit(":");
    reveal_strlit("[");
    reveal_strlit("]:");
    reveal_strlit("]");
    let default = (scheme == "http"@ && port == 80) || (scheme == "https"@ && port == 443);
    if !default {
        let d = text::decimal(port as nat);
        text::lemma_decimal_reads_back(port as nat);
        let suffix = ":"@ + d;
        let a = target_authority(scheme, host, port);
        let bracketed = is_ip_addr_text(host) && text::find(host, ':') is Some;
        let h = if bracketed { "["@ + host + "]"@ } else { host };
        assert(a =~= h + suffix) by {
            if bracketed {
                assert("["@ + host + "]:"@ + d =~= ("["@ + host + "]"@) + (":"@ + d));
            }
        }
        assert(a.skip(a.len() - suffix.len()) =~= suffix);
        assert(a.take(a.len() - suffix.len()) =~= h);
        if host.len() > 0 && !text::is_ws(host[0]) && !text::is_ws(host.last()) && host[0] != '[' && (
        forall|i: int| 0 <= i < host.len() ==> host[i] != ']') && (text::find(host, ':') is None
            || is_ip_addr_text(host)) {
            assert(text::parse_uint(d, 65535) == Some(port as nat));
            assert(!text::is_ws(a[0])) by {
                if bracketed {
                    assert(a[0] == '[');
                } else {
                    assert(a[0] == host[0]);
                }
            }
            assert(a.last() == d.last());
            assert(!text::is_ws(a.last()));
            assert(text::trim_start(a) == a);
            assert(text::trim_end(a) == a);
            assert(text::trim(a) == a);
            if bracketed {
                let v = a.drop_first();
                assert(v =~= host + "]"@ + suffix);
                assert forall|j: int| 0 <= j < host.len() implies v[j] != ']' by {
                    assert(v[j] == host[j]);
                }
                assert(v[host.len() as int] == ']');
                text::lemma_find_at(v, ']', host.len() as int);
                assert(v.take(host.len() as int) =~= host);
                assert(v.skip(host.len() + 1int) =~= suffix);
                assert(suffix.drop_first() =~= d);
            } else {
                text::lemma_find_bounds(host, ':');
                assert(a =~= host + suffix);
                assert forall|j: int| host.len() < j < a.len() implies a[j] != ':' by {
                    assert(a[j] == d[j - host.len() - 1]);
                    assert(text::is_digit(d[j - host.len() - 1]));
                }
                assert(a[host.len() as int] == ':');
                text::lemma_rfind_at(a, ':', host.len() as int);
                assert(a.take(host.len() as int) =~= host);
                assert(a.skip(host.len() + 1int) =~= d);
                assert(a[0] != '[');
            }
        }
    }
}

fn quoted_error(prefix: &str, value: &str) -> (r: String)
    ensures
        r@ == prefix@ + value@ + "'"@,
{
    let mut r = text::to_owned(prefix);
    text::push_str(&mut r, value);
    text::push_str(&mut r, "'");
    r
}

fn has_char(s: &str, c: char) -> (r: bool)
    ensures
        r == (text::find(s@, c) is Some),
{
    let v = text::chars_of(s);
    let found = text::find_from(&v, 0, c);
    proof {
        text::lemma_find_bounds(s@, c);
        match found {
            Some(i) => {
                if text::find(s@, c) is None {
                    assert(s@[i as int] != c);
                }
            },
            None => {
                if let Some(k) = text::find(s@, c) {
                    assert(v@[k as int] == c);
                }
            },
        }
    }
    found.is_some()
}

/// Splits `host[:port]`, taking `default_port` when no port is given.
pub fn split_host_port(value: &str, default_port: u16) -> (r: Result<(String, u16), String>)
    ensures
        match split_host_port_of(value@, default_port) {
            Ok((h, p)) => r matches Ok((x, q)) && x@ == h && q == p,
            Err(e) => r matches Err(m) && m@ == e,
        },
{
    let v = text::trim_str(value);
    let chars = text::chars_of(v.as_str());
    if chars.len() == 0 {
        return Err(text::to_owned("empty host"));
    }
    if chars[0] == '[' {
        let rest = text::string_of(&chars, 1, chars.len());
        proof {
            assert(rest@ =~= v@.drop_first());
        }
        match text::split_once_char(rest.as_str(), ']') {
            None => {
                return Err(quoted_error("invalid bracketed IPv6 host '", v.as_str()));
            },
            Some((host, after)) => {
                let a = text::chars_of(after.as_str());
                if a.len() > 0 && a[0] == ':' {
                    let port_text = text::string_of(&a, 1, a.len());
                    proof {
                        assert(port_text@ =~= after@.drop_first());
                    }
                    match text::parse_uint_str(port_text.as_str(), 65535) {
                        Some(p) => {
                            return Ok((host, p as u16));
                        },
                        None => {
                            return Err(quoted_error("invalid port in authority '", v.as_str()));
                        },
                    }
                }
                return Ok((host, default_port));
            },
        }
    }
    match text::rsplit_once_char(v.as_str(), ':') {
        Some((host, port)) => {
            if !has_char(host.as_str(), ':') {
                match text::parse_uint_str(port.as_str(), 65535) {
                    Some(p) => Ok((host, p as u16)),
                    None => Err(quoted_error("invalid port in authority '", v.as_str())),
                }
            } else {
                Ok((v, default_port))
            }
        },
        None => Ok((v, default_port)),
    }
}

/// The host and port of a CONNECT request's authority; the port defaults to 443.
pub fn parse_connect_authority(value: &str) -> (r: Result<(String, u16), String>)
    ensures
        match split_host_port_of(value@, 443) {
            Ok((h, p)) => r matches Ok((x, q)) && x@ == h && q == p,
            Err(e) => r matches Err(m) && m@ == e,
        },
{
    split_host_port(value, 443)
}

// ---------------------------------------------------------------------------
// Absolute URLs
// ---------------------------------------------------------------------------

/// What `url::Url::parse` gives of an absolute URL: scheme, host, port or the
/// scheme's known default, path and query.
pub struct UrlParts {
    pub scheme: String,
    pub host: Option<String>,
    pub port: Option<u16>,
    pub path: String,
    pub query: Option<String>,
}

/// The model of the parts of a URL.
pub struct UrlPartsView {
    pub scheme: Seq<char>,
    pub host: Option<Seq<char>>,
    pub port: Option<u16>,
    pub path: Seq<char>,
    pub query: Option<Seq<char>>,
}

impl View for UrlParts {
    type V = UrlPartsView;

    open spec fn view(&self) -> UrlPartsView {
        UrlPartsView {
            scheme: self.scheme@,
            host: opt_view(self.host),
            port: self.port,
            path: self.path@,
            query: opt_view(self.query),
        }
    }
}

/// The name of what `url::Url::parse` gives for a text, by its `scheme`, `host_str`,
/// `port_or_known_default`, `path` and `query`; `None` when it is not a URL.
pub uninterp spec fn url_parts(s: Seq<char>) -> Option<UrlPartsView>;

/// Parses an absolute URL with `url::Url::parse`.
#[verifier::external_body]
fn parse_url(s: &str) -> (r: Option<UrlParts>)
    ensures
        match r {
            Some(p) => url_parts(s@) == Some(p@),
            None => url_parts(s@) is None,
        },
{
    url::Url::parse(s).ok().map(
        |u| UrlParts {
            scheme: u.scheme().to_string(),
            host: u.host_str().map(|h| h.to_string()),
            port: u.port_or_known_default(),
            path: u.path().to_string(),
            query: u.query().map(|q| q.to_string()),
        },
    )
}

/// The path and query of a URL in origin form: `/` for an empty path, `?query` added.
pub open spec fn origin_form(u: UrlPartsView) -> Seq<char> {
    let p = if u.path.len() == 0 {
        "/"@
    } else {
        u.path
    };
    match u.query {
        Some(q) => p + "?"@ + q,
        None => p,
    }
}

fn origin_form_exec(u: &UrlParts) -> (r: String)
    ensures
        r@ == origin_form(u@),
{
    let mut p = if u.path.as_str().is_empty() {
        text::to_owned("/")
    } else {
        u.path.clone()
    };
    match &u.query {
        Some(q) => {
            text::push_str(&mut p, "?");
            text::push_str(&mut p, q.as_str());
        },
        None => {},
    }
    p
}

/// Where a request whose line holds an absolute URL goes: the URL's scheme, host and
/// port (or the scheme's known default), with its path and query in origin form.
pub open spec fn target_of_url(u: UrlPartsView) -> Result<TargetView, Seq<char>> {
    match u.host {
        None => Err("absolute request URL has no host"@),
        Some(h) => match u.port {
            None => Err("absolute request URL has no port and no known default for scheme"@),
            Some(port) => Ok(TargetView { scheme: u.scheme, host: h, port, path: origin_form(u) }),
        },
    }
}

/// Where a request goes, given the parts of the absolute URL on its request line.
pub fn target_from_url(u: &UrlParts) -> (r: Result<UpstreamTarget, String>)
    ensures
        match target_of_url(u@) {
            Ok(t) => r matches Ok(x) && x@ == t,
            Err(e) => r matches Err(m) && m@ == e,
        },
{
    let host = match &u.host {
        Some(h) => h.clone(),
        None => return Err(text::to_owned("absolute request URL has no host")),
    };
    let port = match u.port {
        Some(p) => p,
        None => return Err(text::to_owned("absolute request URL has no port and no known default for scheme")),
    };
    let path = origin_form_exec(u);
    Ok(UpstreamTarget { scheme: u.scheme.clone(), host, port, path })
}

/// Whether a request target is an absolute `http://` or `https://` URL.
pub open spec fn is_absolute(path: Seq<char>) -> bool {
    text::starts_with(path, "http://"@) || text::starts_with(path, "https://"@)
}

/// The origin-form path of a request target.
pub open spec fn origin_path_of(path: Seq<char>) -> Result<Seq<char>, Seq<char>> {
    if is_absolute(path) {
        match url_parts(path) {
            Some(u) => Ok(origin_form(u)),
            None => Err("invalid absolute request URL"@),
        }
    } else if path.len() == 0 {
        Ok("/"@)
    } else {
        Ok(path)
    }
}

fn origin_path(path: &str) -> (r: Result<String, String>)
    ensures
        match origin_path_of(path@) {
            Ok(p) => r matches Ok(x) && x@ == p,
            Err(e) => r matches Err(m) && m@ == e,
        },
{
    if text::has_prefix(path, "http://") || text::has_prefix(path, "https://") {
        match parse_url(path) {
            Some(u) => Ok(origin_form_exec(&u)),
            None => Err(text::to_owned("invalid absolute request URL")),
        }
    } else if path.is_empty() {
        Ok(text::to_owned("/"))
    } else {
        Ok(text::to_owned(path))
    }
}

/// Where a request goes: the fixed origin of an intercepted connection when there is
/// one; else the absolute URL of the request line; else the `Host` header with port
/// 80 over plain HTTP.
pub open spec fn target_of(
    req: RequestView,
    fixed: Option<(Seq<char>, Seq<char>, u16)>,
) -> Result<TargetView, Seq<char>> {
    match fixed {
        Some((scheme, host, port)) => match origin_path_of(req.path) {
            Ok(p) => Ok(TargetView { scheme, host, port, path: p }),
            Err(e) => Err(e),
        },
        None => if is_absolute(req.path) {
            match url_parts(req.path) {
                None => Err("invalid absolute request URL"@),
                Some(u) => target_of_url(u),
            }
        } else {
            match header_of(req.headers, "host"@) {
                None => Err("HTTP request has no Host header"@),
                Some(hh) => match split_host_port_of(hh, 80) {
                    Err(e) => Err(e),
                    Ok((host, port)) => match origin_path_of(req.path) {
                        Ok(p) => Ok(TargetView { scheme: "http"@, host, port, path: p }),
                        Err(e) => Err(e),
                    },
                },
            }
        },
    }
}

/// Where a request goes; `fixed` is the scheme, host and port of an intercepted
/// connection.
pub fn target_from_request(
    request: &ParsedRequest,
    fixed: Option<(&str, &str, u16)>,
) -> (r: Result<UpstreamTarget, String>)
    ensures
        match target_of(
            request@,
            match fixed {
                Some((s, h, p)) => Some((s@, h@, p)),
                None => None,
            },
        ) {
            Ok(t) => r matches Ok(x) && x@ == t,
            Err(e) => r matches Err(m) && m@ == e,
        },
{
    match fixed {
        Some((scheme, host, port)) => {
            let path = origin_path(request.path.as_str())?;
            return Ok(UpstreamTarget { scheme: text::to_owned(scheme), host: text::to_owned(host), port, path });
        },
        None => {},
    }
    if text::has_prefix(request.path.as_str(), "http://") || text::has_prefix(request.path.as_str(), "https://") {
        return match parse_url(request.path.as_str()) {
            Some(u) => target_from_url(&u),
            None => Err(text::to_owned("invalid absolute request URL")),
        };
    }
    let host_header = match header_value(request.headers.as_slice(), "host") {
        Some(h) => h,
        None => return Err(text::to_owned("HTTP request has no Host header")),
    };
    let (host, port) = split_host_port(host_header.as_str(), 80)?;
    let path = origin_path(request.path.as_str())?;
    Ok(UpstreamTarget { scheme: text::to_owned("http"), host, port, path })
}

// ---------------------------------------------------------------------------
// The upstream head
// ---------------------------------------------------------------------------

/// Whether a header is dropped on the way upstream: the proxy's own headers always,
/// and the connection headers unless they are kept for an upgrade.
pub open spec fn dropped_header(lower: Seq<char>, keep_connection: bool) -> bool {
    lower == "proxy-connection"@ || lower == "proxy-authorization"@ || (!keep_connection && (
    lower == "connection"@ || lower == "keep-alive"@))
}

/// The header lines sent upstream for the request's headers, in order: `Host` is
/// rewritten to the target's authority, dropped headers are left out.
pub open spec fn forwarded_lines(hs: Seq<(Seq<char>, Seq<char>)>, authority: Seq<char>, keep_connection: bool) -> Seq<char>
    decreases hs.len(),
{
    if hs.len() == 0 {
        Seq::empty()
    } else {
        let h = hs.last();
        let lower = text::lower(h.0);
        forwarded_lines(hs.drop_last(), authority, keep_connection) + if dropped_header(
            lower,
            keep_connection,
        ) {
            Seq::empty()
        } else if lower == "host"@ {
            "Host: "@ + authority + "\r\n"@
        } else {
            h.0 + ": "@ + h.1 + "\r\n"@
        }
    }
}

/// Whether some header's lower-case name is `name`.
pub open spec fn any_named(hs: Seq<(Seq<char>, Seq<char>)>, name: Seq<char>) -> bool
    decreases hs.len(),
{
    hs.len() > 0 && (any_named(hs.drop_last(), name) || text::lower(hs.last().0) == name)
}

/// Whether a `Host` header is forwarded.
pub open spec fn forwards_host(hs: Seq<(Seq<char>, Seq<char>)>, keep_connection: bool) -> bool {
    any_named(hs, "host"@)
}

/// Whether a `Connection` header is forwarded: only when connection headers are kept.
pub open spec fn forwards_connection(hs: Seq<(Seq<char>, Seq<char>)>, keep_connection: bool) -> bool {
    keep_connection && any_named(hs, "connection"@)
}

/// The request head sent upstream: the request line with the target's path, the
/// forwarded headers, a `Host` header if none was forwarded, and `Connection: close`
/// (or `Connection: Upgrade` for an upgrade that had no `Connection` header).
pub open spec fn upstream_head(req: RequestView, target: TargetView, keep_connection: bool) -> Seq<char> {
    let authority = target_authority(target.scheme, target.host, target.port);
    req.method + " "@ + target.path + " "@ + req.version + "\r\n"@ + forwarded_lines(
        req.headers,
        authority,
        keep_connection,
    ) + if forwards_host(req.headers, keep_connection) {
        Seq::empty()
    } else {
        "Host: "@ + authority + "\r\n"@
    } + if !keep_connection {
        "Connection: close\r\n"@
    } else if !forwards_connection(req.headers, keep_connection) {
        "Connection: Upgrade\r\n"@
    } else {
        Seq::empty()
    } + "\r\n"@
}

fn build_upstream_header_inner(request: &ParsedRequest, target: &UpstreamTarget, keep_connection: bool) -> (r: String)
    ensures
        r@ == upstream_head(request@, target@, keep_connection),
{
    let authority = target.authority();
    let mut out = request.method.clone();
    text::push_str(&mut out, " ");
    text::push_str(&mut out, target.path.as_str());
    text::push_str(&mut out, " ");
    text::push_str(&mut out, request.version.as_str());
    text::push_str(&mut out, "\r\n");
    let ghost start = out@;
    let ghost hs = request@.headers;
    let mut has_host = false;
    let mut has_connection = false;
    let mut i: usize = 0;
    proof {
        assert(hs.take(0) =~= Seq::<(Seq<char>, Seq<char>)>::empty());
    }
    while i < request.headers.len()
        invariant
            0 <= i <= request.headers@.len(),
            hs == request@.headers,
            authority@ == target_authority(target@.scheme, target@.host, target@.port),
            out@ == start + forwarded_lines(hs.take(i as int), authority@, keep_connection),
            has_host == any_named(hs.take(i as int), "host"@),
            has_connection == (keep_connection && any_named(hs.take(i as int), "connection"@)),
        decreases request.headers.len() - i,
    {
        let lower = text::to_lower(request.headers[i].0.as_str());
        proof {
            assert(hs[i as int].0 == request.headers@[i as int].0@);
            assert(hs.take(i + 1).drop_last() =~= hs.take(i as int));
            assert(hs.take(i + 1).last() == hs[i as int]);
            assert(lower@ == text::lower(hs[i as int].0));
            assert(any_named(hs.take(i + 1), "host"@) == (any_named(hs.take(i as int), "host"@)
                || lower@ == "host"@));
            assert(any_named(hs.take(i + 1), "connection"@) == (any_named(
                hs.take(i as int),
                "connection"@,
            ) || lower@ == "connection"@));
            reveal_strlit("host");
            reveal_strlit("connection");
            reveal_strlit("proxy-connection");
            reveal_strlit("proxy-authorization");
            reveal_strlit("keep-alive");
        }
        let is_proxy = text::str_eq(lower.as_str(), "proxy-connection") || text::str_eq(
            lower.as_str(),
            "proxy-authorization",
        );
        let is_conn = text::str_eq(lower.as_str(), "connection");
        let is_keep_alive = text::str_eq(lower.as_str(), "keep-alive");
        let is_host = text::str_eq(lower.as_str(), "host");
        if is_proxy || (!keep_connection && (is_conn || is_keep_alive)) {
            proof {
                reveal_strlit("host");
                reveal_strlit("connection");
                reveal_strlit("proxy-connection");
                reveal_strlit("proxy-authorization");
                reveal_strlit("keep-alive");
                assert("host"@.len() == 4);
                assert("connection"@.len() == 10);
                assert("proxy-connection"@.len() == 16);
                assert("proxy-authorization"@.len() == 19);
                assert("keep-alive"@.len() == 10);
                assert(lower@ != "host"@);
                assert(keep_connection ==> lower@ != "connection"@);
            }
        } else if is_host {
            has_host = true;
            text::push_str(&mut out, "Host: ");
            text::push_str(&mut out, authority.as_str());
            text::push_str(&mut out, "\r\n");
            proof {
                reveal_strlit("host");
                reveal_strlit("connection");
                assert("host"@.len() == 4);
                assert("connection"@.len() == 10);
                assert(lower@ == "host"@);
                assert(lower@ != "connection"@);
            }
        } else {
            if is_conn {
                has_connection = true;
            }
            text::push_str(&mut out, request.headers[i].0.as_str());
            text::push_str(&mut out, ": ");
            text::push_str(&mut out, request.headers[i].1.as_str());
            text::push_str(&mut out, "\r\n");
        }
        proof {
            assert(has_host == any_named(hs.take(i + 1), "host"@));
            assert(has_connection == (keep_connection && any_named(hs.take(i + 1), "connection"@)));
        }
        i = i + 1;
    }
    proof {
        assert(hs.take(request.headers@.len() as int) =~= hs);
    }
    if !has_host {
        text::push_str(&mut out, "Host: ");
        text::push_str(&mut out, authority.as_str());
        text::push_str(&mut out, "\r\n");
    }
    if !keep_connection {
        text::push_str(&mut out, "Connection: close\r\n");
    } else if !has_connection {
        text::push_str(&mut out, "Connection: Upgrade\r\n");
    }
    text::push_str(&mut out, "\r\n");
    out
}

/// The bytes of a text in UTF-8.
fn text_bytes(s: &str) -> (r: Vec<u8>)
    ensures
        r@ == vstd::utf8::encode_utf8(s@),
{
    let b = s.as_bytes();
    let mut r: Vec<u8> = Vec::new();
    let mut i: usize = 0;
    while i < b.len()
        invariant
            0 <= i <= b@.len(),
            r@ =~= b@.take(i as int),
        decreases b.len() - i,
    {
        r.push(b[i]);
        i = i + 1;
    }
    proof {
        assert(b@.take(b@.len() as int) =~= b@);
    }
    r
}

/// The request head sent upstream for an ordinary exchange, which closes the
/// upstream connection afterwards.
pub fn build_upstream_header(request: &ParsedRequest, target: &UpstreamTarget) -> (r: Vec<u8>)
    ensures
        r@ == vstd::utf8::encode_utf8(upstream_head(request@, target@, false)),
{
    let t = build_upstream_header_inner(request, target, false);
    text_bytes(t.as_str())
}

/// The request head sent upstream for a protocol upgrade, which keeps the
/// connection headers.
pub fn build_upstream_upgrade_header(request: &ParsedRequest, target: &UpstreamTarget) -> (r: Vec<u8>)
    ensures
        r@ == vstd::utf8::encode_utf8(upstream_head(request@, target@, true)),
{
    let t = build_upstream_header_inner(request, target, true);
    text_bytes(t.as_str())
}

} // verus!
