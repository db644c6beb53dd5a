//! The outbound request proxy: extracts the target from the request path,
//! picks a scheme, forwards only explicitly marked headers, and wraps the
//! upstream response so the caller always sees a 200 with the real status in
//! a header.

use vstd::prelude::*;

use crate::text::{
    has_prefix, lower_seq, push_char, str_eq, str_has_prefix, to_ascii_lower,
};

verus! {

/// Errors the proxy can produce.
#[derive(Debug)]
pub enum Error {
    /// The HTTP client failed to carry the request.
    Client(String),
    /// The target URL could not be used.
    InvalidUrl(String),
    /// Proxying is not available in this build.
    NotSupported(String),
    /// A transport failure while streaming.
    Io(String),
    /// Building the forwarded request or response failed.
    Http(String),
    /// Opaque passthrough.
    Other(String),
}

/// A plain outbound HTTP request: the method, the request target, the
/// headers and the collected body.
#[derive(Debug)]
pub struct ProxyRequest {
    pub method: String,
    /// The request path, or the full target once the proxy has rewritten it.
    pub path: String,
    /// The query string, without the leading question mark.
    pub query: Option<String>,
    pub headers: Vec<(String, String)>,
    pub body: Vec<u8>,
}

/// A plain HTTP response: status, headers and collected body.
#[derive(Debug)]
pub struct ProxyResponse {
    pub status: u16,
    pub headers: Vec<(String, String)>,
    pub body: Vec<u8>,
}

/// The views of a header list's name/value pairs.
pub open spec fn pair_views(hs: Seq<(String, String)>) -> Seq<(Seq<char>, Seq<char>)> {
    hs.map(|i: int, h: (String, String)| (h.0@, h.1@))
}

/// The longest prefix of `s` before the first occurrence of `c`, or all of
/// `s` when `c` does not occur.
pub open spec fn head_until(s: Seq<char>, c: char) -> Seq<char>
    decreases s.len(),
{
    if s.len() == 0 {
        s
    } else if s[0] == c {
        Seq::empty()
    } else {
        seq![s[0]] + head_until(s.drop_first(), c)
    }
}

/// [`head_until`] is the prefix up to the first occurrence.
proof fn lemma_head_until(s: Seq<char>, c: char, i: int)
    requires
        0 <= i <= s.len(),
        forall|j: int| 0 <= j < i ==> s[j] != c,
        i < s.len() ==> s[i] == c,
    ensures
        head_until(s, c) == s.take(i),
    decreases i,
{
    if s.len() == 0 {
        assert(head_until(s, c) =~= s.take(i));
    } else if i == 0 {
        assert(head_until(s, c) =~= s.take(0));
    } else {
        let rest = s.drop_first();
        lemma_head_until(rest, c, i - 1);
        assert(seq![s[0]] + rest.take(i - 1) =~= s.take(i));
    }
}

/// Everything in `s` up to, and not including, the first `c`.
fn str_head_until<'a>(s: &'a str, c: char) -> (r: &'a str)
    ensures
        r@ == head_until(s@, c),
{
    let n = s.unicode_len();
    let mut i: usize = 0;
    while i < n
        invariant
            0 <= i <= n,
            n == s@.len(),
            forall|j: int| 0 <= j < i ==> s@[j] != c,
        decreases n - i,
    {
        if s.get_char(i) == c {
            proof {
                lemma_head_until(s@, c, i as int);
            }
            return s.substring_char(0, i);
        }
        i = i + 1;
    }
    proof {
        lemma_head_until(s@, c, n as int);
        assert(s@.take(n as int) =~= s@);
    }
    s
}

/// The host part of a schemeless URL: the text before the first slash,
/// truncated at the first colon.
pub open spec fn host_of(url: Seq<char>) -> Seq<char> {
    head_until(head_until(url, '/'), ':')
}

/// A host in one of the private IPv4 ranges (10/8, 172.16/12, 192.168/16).
pub open spec fn spec_is_private_ip(host: Seq<char>) -> bool {
    ||| has_prefix(host, "192.168."@)
    ||| has_prefix(host, "10."@)
    ||| has_prefix(host, "172.16."@)
    ||| has_prefix(host, "172.17."@)
    ||| has_prefix(host, "172.18."@)
    ||| has_prefix(host, "172.19."@)
    ||| has_prefix(host, "172.20."@)
    ||| has_prefix(host, "172.21."@)
    ||| has_prefix(host, "172.22."@)
    ||| has_prefix(host, "172.23."@)
    ||| has_prefix(host, "172.24."@)
    ||| has_prefix(host, "172.25."@)
    ||| has_prefix(host, "172.26."@)
    ||| has_prefix(host, "172.27."@)
    ||| has_prefix(host, "172.28."@)
    ||| has_prefix(host, "172.29."@)
    ||| has_prefix(host, "172.30."@)
    ||| has_prefix(host, "172.31."@)
}

/// Whether the host lies in a private IPv4 range.
pub fn is_private_ip(host: &str) -> (r: bool)
    ensures
        r == spec_is_private_ip(host@),
{
    str_has_prefix(host, "192.168.") || str_has_prefix(host, "10.") || str_has_prefix(
        host,
        "172.16.",
    ) || str_has_prefix(host, "172.17.") || str_has_prefix(host, "172.18.") || str_has_prefix(
        host,
        "172.19.",
    ) || str_has_prefix(host, "172.20.") || str_has_prefix(host, "172.21.") || str_has_prefix(
        host,
        "172.22.",
    ) || str_has_prefix(host, "172.23.") || str_has_prefix(host, "172.24.") || str_has_prefix(
        host,
        "172.25.",
    ) || str_has_prefix(host, "172.26.") || str_has_prefix(host, "172.27.") || str_has_prefix(
        host,
        "172.28.",
    ) || str_has_prefix(host, "172.29.") || str_has_prefix(host, "172.30.") || str_has_prefix(
        host,
        "172.31.",
    )
}

/// Whether a schemeless URL is served over plain HTTP: IPv6 loopback,
/// well-known local hosts, and private IPv4 ranges.
pub open spec fn spec_use_http(url: Seq<char>) -> bool {
    ||| has_prefix(url, "::1"@)
    ||| has_prefix(url, "[::1]"@)
    ||| host_of(url) == "localhost"@
    ||| host_of(url) == "127.0.0.1"@
    ||| host_of(url) == "host.docker.internal"@
    ||| spec_is_private_ip(host_of(url))
}

/// The URL with its scheme chosen: `http` for local and private hosts,
/// `https` otherwise.
pub open spec fn spec_adjust_scheme(url: Seq<char>) -> Seq<char> {
    if spec_use_http(url) {
        "http://"@ + url
    } else {
        "https://"@ + url
    }
}

/// Prepends `http://` for localhost, loopback, Docker-internal and private
/// IPv4 hosts, and `https://` for everything else.
pub fn adjust_scheme(url: &str) -> (r: String)
    ensures
        r@ == spec_adjust_scheme(url@),
{
    if str_has_prefix(url, "::1") || str_has_prefix(url, "[::1]") {
        return "http://".to_owned().concat(url);
    }
    let before_slash = str_head_until(url, '/');
    let host = str_head_until(before_slash, ':');
    let use_http = str_eq(host, "localhost") || str_eq(host, "127.0.0.1") || str_eq(
        host,
        "host.docker.internal",
    ) || is_private_ip(host);
    if use_http {
        "http://".to_owned().concat(url)
    } else {
        "https://".to_owned().concat(url)
    }
}

/// The headers forwarded upstream: exactly those whose lowercased name bears
/// the proxy marker, renamed with the marker stripped, in order.
pub open spec fn spec_filter_headers(hs: Seq<(String, String)>) -> Seq<(Seq<char>, Seq<char>)>
    decreases hs.len(),
{
    if hs.len() == 0 {
        Seq::empty()
    } else {
        let lname = lower_seq(hs[0].0@);
        let rest = spec_filter_headers(hs.drop_first());
        if has_prefix(lname, "x-proxy-header-"@) {
            seq![(lname.skip("x-proxy-header-"@.len() as int), hs[0].1@)] + rest
        } else {
            rest
        }
    }
}

/// Keeps only headers named `x-proxy-header-*`, stripping that marker; all
/// other request headers never reach the upstream host.
pub fn filter_proxy_headers(headers: &Vec<(String, String)>) -> (r: Vec<(String, String)>)
    ensures
        pair_views(r@) == spec_filter_headers(headers@),
{
    let ghost hs = headers@;
    let mut out: Vec<(String, String)> = Vec::new();
    let n = headers.len();
    let mut i: usize = 0;
    proof {
        assert(hs.skip(0) =~= hs);
        assert(pair_views(out@) + spec_filter_headers(hs) =~= spec_filter_headers(hs));
    }
    while i < n
        invariant
            0 <= i <= n,
            n == hs.len(),
            headers@ == hs,
            spec_filter_headers(hs) == pair_views(out@) + spec_filter_headers(hs.skip(i as int)),
        decreases n - i,
    {
        let ghost out_old = out@;
        proof {
            assert(hs.skip(i as int).len() > 0);
            assert(hs.skip(i as int)[0] == hs[i as int]);
            assert(hs.skip(i as int).drop_first() =~= hs.skip(i as int + 1));
        }
        let lname = to_ascii_lower(headers[i].0.as_str());
        if str_has_prefix(lname.as_str(), "x-proxy-header-") {
            let plen = "x-proxy-header-".unicode_len();
            let stripped = lname.as_str().substring_char(plen, lname.as_str().unicode_len());
            out.push((stripped.to_owned(), headers[i].1.clone()));
            proof {
                assert(lname@.skip(plen as int) == lname@.subrange(
                    plen as int,
                    lname@.len() as int,
                ));
                assert(pair_views(out@) =~= pair_views(out_old).push(
                    (lname@.skip("x-proxy-header-"@.len() as int), hs[i as int].1@),
                ));
                assert(pair_views(out_old).push(
                    (lname@.skip("x-proxy-header-"@.len() as int), hs[i as int].1@),
                ) + spec_filter_headers(hs.skip(i as int + 1)) =~= pair_views(out_old) + (seq![
                    (lname@.skip("x-proxy-header-"@.len() as int), hs[i as int].1@),
                ] + spec_filter_headers(hs.skip(i as int + 1))));
            }
        } else {
            proof {
                assert(pair_views(out@) + spec_filter_headers(hs.skip(i as int + 1))
                    =~= pair_views(out_old) + spec_filter_headers(hs.skip(i as int)));
            }
        }
        i = i + 1;
    }
    proof {
        assert(hs.skip(n as int) =~= Seq::<(String, String)>::empty());
        assert(pair_views(out@) + spec_filter_headers(hs.skip(n as int)) =~= pair_views(out@));
    }
    out
}

/// The decimal digit character for a value below ten.
pub open spec fn spec_digit(d: int) -> char {
    ((48 + d) as char)
}

/// The decimal numeral of a non-negative integer.
pub open spec fn spec_decimal(n: int) -> Seq<char>
    decreases n,
{
    if n < 10 {
        seq![spec_digit(n)]
    } else {
        spec_decimal(n / 10).push(spec_digit(n % 10))
    }
}

/// The decimal numeral of a status code.
pub fn u16_decimal(n: u16) -> (r: String)
    ensures
        r@ == spec_decimal(n as int),
    decreases n,
{
    let d = n % 10;
    let c = char::from_u32(48 + (d as u32)).unwrap();
    proof {
        vstd::utf8::char_u32_cast(c, (48 + (d as u32)) as u32);
    }
    if n < 10 {
        let mut s = String::new();
        push_char(&mut s, c);
        proof {
            assert(s@ =~= spec_decimal(n as int));
        }
        s
    } else {
        let mut s = u16_decimal(n / 10);
        push_char(&mut s, c);
        s
    }
}

/// The first `content-type` value among the headers, by lowercased name.
pub open spec fn spec_content_type(hs: Seq<(String, String)>) -> Option<Seq<char>>
    decreases hs.len(),
{
    if hs.len() == 0 {
        None
    } else if lower_seq(hs[0].0@) == "content-type"@ {
        Some(hs[0].1@)
    } else {
        spec_content_type(hs.drop_first())
    }
}

/// Finds the first `content-type` header, comparing names case-insensitively.
fn find_content_type(headers: &Vec<(String, String)>) -> (r: Option<String>)
    ensures
        match r {
            Some(v) => spec_content_type(headers@) matches Some(t) && v@ == t,
            None => spec_content_type(headers@) is None,
        },
{
    let ghost hs = headers@;
    let n = headers.len();
    let mut i: usize = 0;
    proof {
        assert(hs.skip(0) =~= hs);
    }
    while i < n
        invariant
            0 <= i <= n,
            n == hs.len(),
            headers@ == hs,
            spec_content_type(hs) == spec_content_type(hs.skip(i as int)),
        decreases n - i,
    {
        proof {
            assert(hs.skip(i as int).len() > 0);
            assert(hs.skip(i as int)[0] == hs[i as int]);
            assert(hs.skip(i as int).drop_first() =~= hs.skip(i as int + 1));
        }
        let lname = to_ascii_lower(headers[i].0.as_str());
        if str_eq(lname.as_str(), "content-type") {
            return Some(headers[i].1.clone());
        }
        i = i + 1;
    }
    proof {
        assert(hs.skip(n as int) =~= Seq::<(String, String)>::empty());
    }
    None
}

/// The headers of a wrapped upstream response: the real status in
/// `x-proxy-status-code`, every upstream header renamed with the proxy
/// marker, and the upstream `content-type` repeated unprefixed.
pub open spec fn spec_wrap_headers(status: u16, hs: Seq<(String, String)>) -> Seq<
    (Seq<char>, Seq<char>),
> {
    seq![("x-proxy-status-code"@, spec_decimal(status as int))] + hs.map(
        |i: int, h: (String, String)| ("x-proxy-header-"@ + lower_seq(h.0@), h.1@),
    ) + (match spec_content_type(hs) {
        Some(v) => seq![("content-type"@, v)],
        None => Seq::empty(),
    })
}

/// The wrapped response carries status 200, the wrapped headers, and the
/// upstream body unchanged.
pub open spec fn wrapped_response(resp: ProxyResponse, upstream: ProxyResponse) -> bool {
    &&& resp.status == 200
    &&& pair_views(resp.headers@) == spec_wrap_headers(upstream.status, upstream.headers@)
    &&& resp.body@ == upstream.body@
}

/// Wraps an upstream response: whatever came back, the caller sees a 200
/// whose headers carry the real status and the upstream headers marked.
pub fn wrap_upstream(upstream: ProxyResponse) -> (resp: ProxyResponse)
    ensures
        wrapped_response(resp, upstream),
{
    let ghost hs = upstream.headers@;
    let ghost mapped = hs.map(
        |i: int, h: (String, String)| ("x-proxy-header-"@ + lower_seq(h.0@), h.1@),
    );
    let mut out: Vec<(String, String)> = Vec::new();
    out.push(("x-proxy-status-code".to_owned(), u16_decimal(upstream.status)));
    let ghost first = pair_views(out@);
    proof {
        assert(first =~= seq![("x-proxy-status-code"@, spec_decimal(upstream.status as int))]);
        assert(mapped.take(0) =~= Seq::<(Seq<char>, Seq<char>)>::empty());
        assert(first + mapped.take(0) =~= first);
    }
    let n = upstream.headers.len();
    let mut i: usize = 0;
    while i < n
        invariant
            0 <= i <= n,
            n == hs.len(),
            upstream.headers@ == hs,
            mapped == hs.map(
                |i: int, h: (String, String)| ("x-proxy-header-"@ + lower_seq(h.0@), h.1@),
            ),
            first == seq![("x-proxy-status-code"@, spec_decimal(upstream.status as int))],
            pair_views(out@) == first + mapped.take(i as int),
        decreases n - i,
    {
        let ghost out_old = out@;
        let lname = to_ascii_lower(upstream.headers[i].0.as_str());
        let pname = "x-proxy-header-".to_owned().concat(lname.as_str());
        out.push((pname, upstream.headers[i].1.clone()));
        proof {
            assert(mapped[i as int] == ("x-proxy-header-"@ + lower_seq(hs[i as int].0@), hs[i as int].1@));
            assert(pair_views(out@) =~= pair_views(out_old).push(mapped[i as int]));
            assert((first + mapped.take(i as int)).push(mapped[i as int]) =~= first + mapped.take(
                i as int + 1,
            ));
        }
        i = i + 1;
    }
    proof {
        assert(mapped.take(n as int) =~= mapped);
    }
    match find_content_type(&upstream.headers) {
        Some(v) => {
            let ghost out_old = out@;
            out.push(("content-type".to_owned(), v));
            proof {
                assert(pair_views(out@) =~= pair_views(out_old).push(("content-type"@, spec_content_type(hs)->Some_0)));
                assert((first + mapped).push(("content-type"@, spec_content_type(hs)->Some_0))
                    =~= first + mapped + seq![("content-type"@, spec_content_type(hs)->Some_0)]);
            }
        }
        None => {
            proof {
                assert(first + mapped + Seq::<(Seq<char>, Seq<char>)>::empty() =~= first + mapped);
            }
        }
    }
    ProxyResponse { status: 200, headers: out, body: upstream.body }
}

/// The proxied target: everything after the proxy mount point, with the
/// query string reattached.
pub open spec fn spec_target(path: Seq<char>, query: Option<Seq<char>>) -> Seq<char> {
    let stripped = if has_prefix(path, "/.proxy/"@) {
        path.skip("/.proxy/"@.len() as int)
    } else {
        path
    };
    match query {
        Some(q) => stripped + "?"@ + q,
        None => stripped,
    }
}

/// Extracts the target URL from the request path and reattaches the query.
pub fn proxy_target(path: &str, query: &Option<String>) -> (r: String)
    ensures
        match query {
            Some(q) => r@ == spec_target(path@, Some(q@)),
            None => r@ == spec_target(path@, None),
        },
{
    let stripped: &str = if str_has_prefix(path, "/.proxy/") {
        let plen = "/.proxy/".unicode_len();
        let s = path.substring_char(plen, path.unicode_len());
        proof {
            assert(path@.subrange("/.proxy/"@.len() as int, path@.len() as int) == path@.skip(
                "/.proxy/"@.len() as int,
            ));
        }
        s
    } else {
        path
    };
    match query {
        Some(q) => {
            let withq = stripped.to_owned().concat("?");
            withq.concat(q.as_str())
        }
        None => stripped.to_owned(),
    }
}

/// The HTTP client a proxy forwards through. Implementations are supplied by
/// the embedding application; nothing is promised of what they return.
pub trait Client: Sized {
    /// Sends a request upstream.
    fn send(&self, request: ProxyRequest) -> Result<ProxyResponse, Error>;
}

/// Proxies HTTP requests through a client.
pub struct Proxy<C> {
    client: C,
}

impl<C: Client> Proxy<C> {
    /// A proxy around the given client.
    pub fn new(client: C) -> Proxy<C> {
        Proxy { client }
    }

    /// Forwards one request: the target is taken from the path after the
    /// proxy mount point, the scheme chosen by host, and only marked headers
    /// forwarded. Whatever the upstream answered, the result is its response
    /// wrapped by [`wrap_upstream`]; a client failure is passed through.
    pub fn proxy(&self, request: ProxyRequest) -> (r: Result<ProxyResponse, Error>)
        ensures
            match r {
                Ok(resp) => exists|upstream: ProxyResponse|
                    #[trigger] wrapped_response(resp, upstream),
                Err(e) => true,
            },
    {
        let target = proxy_target(&request.path, &request.query);
        let target = adjust_scheme(target.as_str());
        let filtered = filter_proxy_headers(&request.headers);
        let upstream_request = ProxyRequest {
            method: request.method,
            path: target,
            query: None,
            headers: filtered,
            body: request.body,
        };
        let upstream = match self.client.send(upstream_request) {
            Ok(u) => u,
            Err(e) => {
                return Err(e);
            }
        };
        let ghost gu = upstream;
        let resp = wrap_upstream(upstream);
        let r: Result<ProxyResponse, Error> = Ok(resp);
        proof {
            assert(r matches Ok(rr) && wrapped_response(rr, gu));
        }
        r
    }
}

/// A client that supports no proxying at all: every send fails with
/// `NotSupported`.
#[derive(Debug, Default)]
pub struct NoProxy;

impl Client for NoProxy {
    fn send(&self, request: ProxyRequest) -> (r: Result<ProxyResponse, Error>)
        ensures
            r matches Err(e) && e matches Error::NotSupported(msg) && msg@
                == "Proxy feature not available"@,
    {
        Err(Error::NotSupported("Proxy feature not available".to_owned()))
    }
}

} // verus!
