//! The pure steps of the request pipeline: method mapping, path
//! normalization, route classification and the upstream URI.

use crate::text::{has_prefix, is_prefix, same_text};
use http::uri::InvalidUri;
use http::Uri;
use std::str::FromStr;
use twilight_http_ratelimiting::headers::{HeaderParsingError, RatelimitHeaders};
use twilight_http_ratelimiting::request::{Method, Path, PathParseError};
use vstd::prelude::*;
use vstd::string::*;

verus! {

#[verifier::external_type_specification]
#[verifier::external_body]
pub struct ExPath(Path);

#[verifier::external_type_specification]
#[verifier::external_body]
pub struct ExPathParseError(PathParseError);

#[verifier::external_type_specification]
#[verifier::external_body]
pub struct ExUri(Uri);

#[verifier::external_type_specification]
#[verifier::external_body]
pub struct ExInvalidUri(InvalidUri);

#[verifier::external_type_specification]
#[verifier::external_body]
pub struct ExRatelimitHeaders(RatelimitHeaders);

#[verifier::external_type_specification]
#[verifier::external_body]
pub struct ExHeaderParsingError(HeaderParsingError);

/// The request methods that the upstream API routes.
#[derive(Clone, Copy, Debug, PartialEq, Eq, Structural)]
pub enum RequestMethod {
    Delete,
    Get,
    Patch,
    Post,
    Put,
}

pub open spec fn method_name(m: RequestMethod) -> Seq<char> {
    match m {
        RequestMethod::Delete => seq!['D', 'E', 'L', 'E', 'T', 'E'],
        RequestMethod::Get => seq!['G', 'E', 'T'],
        RequestMethod::Patch => seq!['P', 'A', 'T', 'C', 'H'],
        RequestMethod::Post => seq!['P', 'O', 'S', 'T'],
        RequestMethod::Put => seq!['P', 'U', 'T'],
    }
}

impl RequestMethod {
    /// The HTTP name of the method.
    pub fn name(&self) -> (r: &'static str)
        ensures
            r@ == method_name(*self),
    {
        proof {
            reveal_strlit("DELETE");
            reveal_strlit("GET");
            reveal_strlit("PATCH");
            reveal_strlit("POST");
            reveal_strlit("PUT");
        }
        match self {
            RequestMethod::Delete => "DELETE",
            RequestMethod::Get => "GET",
            RequestMethod::Patch => "PATCH",
            RequestMethod::Post => "POST",
            RequestMethod::Put => "PUT",
        }
    }
}

/// The method named `name`, if it is one of the five routed ones.
pub open spec fn method_of(name: Seq<char>) -> Option<RequestMethod> {
    if name == method_name(RequestMethod::Delete) {
        Some(RequestMethod::Delete)
    } else if name == method_name(RequestMethod::Get) {
        Some(RequestMethod::Get)
    } else if name == method_name(RequestMethod::Patch) {
        Some(RequestMethod::Patch)
    } else if name == method_name(RequestMethod::Post) {
        Some(RequestMethod::Post)
    } else if name == method_name(RequestMethod::Put) {
        Some(RequestMethod::Put)
    } else {
        None
    }
}

/// Maps an HTTP method name to a routed method.
pub fn parse_method(name: &str) -> (r: Option<RequestMethod>)
    ensures
        r == method_of(name@),
{
    proof {
        reveal_strlit("DELETE");
        reveal_strlit("GET");
        reveal_strlit("PATCH");
        reveal_strlit("POST");
        reveal_strlit("PUT");
    }
    assert("DELETE"@ == method_name(RequestMethod::Delete));
    assert("GET"@ == method_name(RequestMethod::Get));
    assert("PATCH"@ == method_name(RequestMethod::Patch));
    assert("POST"@ == method_name(RequestMethod::Post));
    assert("PUT"@ == method_name(RequestMethod::Put));
    if same_text(name, "DELETE") {
        Some(RequestMethod::Delete)
    } else if same_text(name, "GET") {
        Some(RequestMethod::Get)
    } else if same_text(name, "PATCH") {
        Some(RequestMethod::Patch)
    } else if same_text(name, "POST") {
        Some(RequestMethod::Post)
    } else if same_text(name, "PUT") {
        Some(RequestMethod::Put)
    } else {
        None
    }
}

pub open spec fn api_root() -> Seq<char> {
    seq!['/', 'a', 'p', 'i']
}

pub open spec fn is_digit(c: char) -> bool {
    '0' <= c && c <= '9'
}

pub open spec fn all_digits(s: Seq<char>) -> bool {
    forall|i: int| 0 <= i < s.len() ==> is_digit(#[trigger] s[i])
}

/// An API version segment: `v` and one or more decimal digits.
pub open spec fn is_version(seg: Seq<char>) -> bool {
    &&& seg.len() >= 2
    &&& seg[0] == 'v'
    &&& all_digits(seg.skip(1))
}

/// The length of the first segment of `u`: up to its first `/`, or all of it.
pub open spec fn segment_len(u: Seq<char>) -> nat
    decreases u.len(),
{
    if u.len() == 0 || u[0] == '/' {
        0
    } else {
        1 + segment_len(u.skip(1))
    }
}

/// The API prefix consumed from a request path, and the rest of the path.
/// `/api` is stripped, and after it a version segment; a path without `/api`
/// is taken as if it had it.
pub open spec fn normalized(p: Seq<char>) -> (Seq<char>, Seq<char>) {
    if is_prefix(api_root(), p) {
        let n = 5 + segment_len(p.skip(5)) as int;
        if p.len() > 4 && p[4] == '/' && is_version(p.subrange(5, n)) {
            (p.take(n), p.skip(n))
        } else {
            (api_root(), p.skip(4))
        }
    } else {
        (api_root(), p)
    }
}

/// The end of the segment of `s` that starts at `start`.
fn segment_end(s: &str, start: usize) -> (r: usize)
    requires
        start <= s@.len(),
    ensures
        r == start + segment_len(s@.skip(start as int)),
        r <= s@.len(),
{
    let len = s.unicode_len();
    let mut k: usize = start;
    while k < len && s.get_char(k) != '/'
        invariant
            len == s@.len(),
            start <= k <= len,
            segment_len(s@.skip(start as int)) == (k - start) + segment_len(s@.skip(k as int)),
        decreases len - k,
    {
        assert(s@.skip(k as int).skip(1) =~= s@.skip(k + 1));
        k += 1;
    }
    k
}

/// Whether the characters `from..to` of `s` form a version segment.
fn is_version_at(s: &str, from: usize, to: usize) -> (r: bool)
    requires
        from <= to <= s@.len(),
    ensures
        r == is_version(s@.subrange(from as int, to as int)),
{
    let ghost seg = s@.subrange(from as int, to as int);
    if to - from < 2 || s.get_char(from) != 'v' {
        return false;
    }
    let mut i: usize = from + 1;
    while i < to
        invariant
            from + 1 <= i <= to <= s@.len(),
            seg == s@.subrange(from as int, to as int),
            all_digits(s@.subrange(from + 1, i as int)),
        decreases to - i,
    {
        let c = s.get_char(i);
        if c < '0' || c > '9' {
            assert(!all_digits(seg.skip(1))) by {
                assert(seg.skip(1)[i - from - 1] == c);
            }
            return false;
        }
        assert(s@.subrange(from + 1, i + 1) =~= s@.subrange(from + 1, i as int).push(c));
        i += 1;
    }
    assert(seg.skip(1) =~= s@.subrange(from + 1, to as int));
    true
}

/// Splits a request path into the API prefix it consumed and the route path.
pub fn normalize_path(request_path: &str) -> (r: (&str, &str))
    ensures
        (r.0@, r.1@) == normalized(request_path@),
{
    proof {
        reveal_strlit("/api");
    }
    assert("/api"@ == api_root());
    let len = request_path.unicode_len();
    if !has_prefix(request_path, "/api") {
        return ("/api", request_path);
    }
    if len > 4 && request_path.get_char(4) == '/' {
        let n = segment_end(request_path, 5);
        if is_version_at(request_path, 5, n) {
            return (request_path.substring_char(0, n), request_path.substring_char(n, len));
        }
    }
    ("/api", request_path.substring_char(4, len))
}

/// Round trip: the two parts of a normalized path put back together give
/// the path under the `/api` root, and the upstream URI is that path on the
/// upstream origin.
pub proof fn lemma_normalize_concat(p: Seq<char>)
    ensures
        normalized(p).0 + normalized(p).1 == if is_prefix(api_root(), p) {
            p
        } else {
            api_root() + p
        },
        upstream_text(normalized(p).0, normalized(p).1, None) == upstream_origin() + (
        if is_prefix(api_root(), p) {
            p
        } else {
            api_root() + p
        }),
{
    lemma_normalize_parts(p);
    assert(upstream_origin() + normalized(p).0 + normalized(p).1 =~= upstream_origin() + (
    normalized(p).0 + normalized(p).1));
}

proof fn lemma_normalize_parts(p: Seq<char>)
    ensures
        normalized(p).0 + normalized(p).1 == if is_prefix(api_root(), p) {
            p
        } else {
            api_root() + p
        },
{
    if is_prefix(api_root(), p) {
        let n = 5 + segment_len(p.skip(5)) as int;
        if p.len() > 4 && p[4] == '/' && is_version(p.subrange(5, n)) {
            lemma_segment_len_bound(p.skip(5));
            assert(p.take(n) + p.skip(n) =~= p);
        } else {
            assert(api_root() + p.skip(4) =~= p);
        }
    }
}

proof fn lemma_segment_len_bound(u: Seq<char>)
    ensures
        segment_len(u) <= u.len(),
    decreases u.len(),
{
    if u.len() > 0 && u[0] != '/' {
        lemma_segment_len_bound(u.skip(1));
    }
}

pub const ACQUIRING_TICKET_FAILED_MSG: &'static str = "http-proxy: Acquiring ticket from the ratelimiter failed";

pub const INVALID_URI_MSG: &'static str = "http-proxy: Failed to create URI for requesting Discord API";

pub const INVALID_METHOD_MSG: &'static str = "http-proxy: Unsupported HTTP method in request";

pub const INVALID_PATH_MSG: &'static str = "http-proxy: Failed to parse API path from client request";

pub const REQUEST_ISSUE_MSG: &'static str = "http-proxy: Error requesting the Discord API";

/// Why a request could not be proxied.
pub enum RequestError {
    /// The ratelimiter did not hand out a ticket.
    AcquiringTicket { reason: String },
    /// The request's method is not one that the upstream routes.
    InvalidMethod { method: String },
    /// The route classifier rejected the path.
    InvalidPath { source: PathParseError },
    /// The upstream URI could not be built.
    InvalidURI { source: InvalidUri },
    /// The upstream request failed in transport.
    RequestIssue { reason: String },
}

pub open spec fn status_of(e: &RequestError) -> u16 {
    match e {
        RequestError::AcquiringTicket { .. } => 500,
        RequestError::InvalidURI { .. } => 500,
        RequestError::InvalidMethod { .. } => 501,
        RequestError::InvalidPath { .. } => 501,
        RequestError::RequestIssue { .. } => 502,
    }
}

pub open spec fn message_of(e: &RequestError) -> &'static str {
    match e {
        RequestError::AcquiringTicket { .. } => ACQUIRING_TICKET_FAILED_MSG,
        RequestError::InvalidURI { .. } => INVALID_URI_MSG,
        RequestError::InvalidMethod { .. } => INVALID_METHOD_MSG,
        RequestError::InvalidPath { .. } => INVALID_PATH_MSG,
        RequestError::RequestIssue { .. } => REQUEST_ISSUE_MSG,
    }
}

impl RequestError {
    /// The status code of the response that reports this error.
    pub fn status_code(&self) -> (r: u16)
        ensures
            r == status_of(self),
    {
        match self {
            RequestError::AcquiringTicket { .. } => 500,
            RequestError::InvalidURI { .. } => 500,
            RequestError::InvalidMethod { .. } => 501,
            RequestError::InvalidPath { .. } => 501,
            RequestError::RequestIssue { .. } => 502,
        }
    }

    /// The body of the response that reports this error.
    pub fn message(&self) -> (r: &'static str)
        ensures
            r == message_of(self),
    {
        match self {
            RequestError::AcquiringTicket { .. } => ACQUIRING_TICKET_FAILED_MSG,
            RequestError::InvalidURI { .. } => INVALID_URI_MSG,
            RequestError::InvalidMethod { .. } => INVALID_METHOD_MSG,
            RequestError::InvalidPath { .. } => INVALID_PATH_MSG,
            RequestError::RequestIssue { .. } => REQUEST_ISSUE_MSG,
        }
    }
}

/// Whether `twilight_http_ratelimiting`'s classifier accepts `path` under the
/// method named `method`.
pub uninterp spec fn route_accepted(method: Seq<char>, path: Seq<char>) -> bool;

/// Relies on `Path::try_from((Method, &str))` of twilight-http-ratelimiting:
/// it succeeds or fails on its arguments alone.
#[verifier::external_body]
fn classify(method: RequestMethod, path: &str) -> (r: Result<Path, PathParseError>)
    ensures
        r is Ok == route_accepted(method_name(method), path@),
{
    let method = match method {
        RequestMethod::Delete => Method::Delete,
        RequestMethod::Get => Method::Get,
        RequestMethod::Patch => Method::Patch,
        RequestMethod::Post => Method::Post,
        RequestMethod::Put => Method::Put,
    };
    Path::try_from((method, path))
}

/// Whether `http::Uri` parses `s`.
pub uninterp spec fn uri_accepted(s: Seq<char>) -> bool;

/// Relies on `<http::Uri as FromStr>::from_str`: it succeeds or fails on the
/// text alone.
#[verifier::external_body]
fn parse_uri(s: &str) -> (r: Result<Uri, InvalidUri>)
    ensures
        r is Ok == uri_accepted(s@),
{
    Uri::from_str(s)
}

/// The upstream host, sent as the `Host` header.
pub const UPSTREAM_HOST: &'static str = "discord.com";

/// Hop-by-hop headers that HTTP/2 forbids, removed before forwarding.
pub open spec fn hop_by_hop_names() -> Seq<Seq<char>> {
    seq![
        "connection"@,
        "keep-alive"@,
        "proxy-connection"@,
        "transfer-encoding"@,
        "upgrade"@,
    ]
}

/// The names of the headers to remove from a request before forwarding it.
pub fn hop_by_hop_headers() -> (r: Vec<&'static str>)
    ensures
        r@.map_values(|h: &'static str| h@) == hop_by_hop_names(),
{
    let r = vec!["connection", "keep-alive", "proxy-connection", "transfer-encoding", "upgrade"];
    assert(r@.map_values(|h: &'static str| h@) =~= hop_by_hop_names());
    r
}

pub open spec fn upstream_origin() -> Seq<char> {
    "https://discord.com"@
}

/// The upstream URI text for a normalized path and an optional query.
pub open spec fn upstream_text(api: Seq<char>, path: Seq<char>, query: Option<Seq<char>>) -> Seq<char> {
    let base = upstream_origin() + api + path;
    match query {
        Some(q) => base + seq!['?'] + q,
        None => base,
    }
}

/// Builds `https://discord.com{api}{path}`, with `?{query}` when there is one.
pub fn upstream_uri_text(api: &str, path: &str, query: Option<&str>) -> (r: String)
    ensures
        r@ == upstream_text(api@, path@, match query {
            Some(q) => Some(q@),
            None => None,
        }),
{
    let mut r = "https://discord.com".to_owned();
    r.append(api);
    r.append(path);
    match query {
        Some(q) => {
            proof {
                reveal_strlit("?");
            }
            r.append("?");
            r.append(q);
        },
        None => {},
    }
    r
}

/// The upstream URI for a normalized path and an optional query.
pub fn upstream_uri(api: &str, path: &str, query: Option<&str>) -> (r: Result<Uri, RequestError>)
    ensures
        r is Ok == uri_accepted(
            upstream_text(api@, path@, match query {
                Some(q) => Some(q@),
                None => None,
            }),
        ),
        r is Err ==> r->Err_0 is InvalidURI,
{
    let text = upstream_uri_text(api, path, query);
    match parse_uri(text.as_str()) {
        Ok(uri) => Ok(uri),
        Err(source) => Err(RequestError::InvalidURI { source }),
    }
}

/// A request matched to an upstream route.
pub struct Route {
    pub method: RequestMethod,
    /// The API prefix consumed from the request path (`/api`, `/api/v10`).
    pub api_path: String,
    /// The rest of the request path.
    pub route_path: String,
    /// The ratelimiting route.
    pub path: Path,
}

/// Maps a request's method and path to its route: the method must be one of
/// the five routed ones, and the classifier must accept the normalized path.
pub fn route_request(method: &str, request_path: &str) -> (r: Result<Route, RequestError>)
    ensures
        ({
            let rest = normalized(request_path@).1;
            match r {
                Ok(route) => {
                    &&& method_of(method@) == Some(route.method)
                    &&& route_accepted(method_name(route.method), rest)
                    &&& route.api_path@ == normalized(request_path@).0
                    &&& route.route_path@ == rest
                },
                Err(RequestError::InvalidMethod { method: m }) => method_of(method@) is None && m@
                    == method@,
                Err(RequestError::InvalidPath { .. }) => method_of(method@) is Some
                    && !route_accepted(method_name(method_of(method@)->0), rest),
                Err(_) => false,
            }
        }),
{
    let m = match parse_method(method) {
        Some(m) => m,
        None => {
            return Err(RequestError::InvalidMethod { method: method.to_owned() });
        },
    };
    let (api_path, route_path) = normalize_path(request_path);
    match classify(m, route_path) {
        Ok(path) => Ok(
            Route { method: m, api_path: api_path.to_owned(), route_path: route_path.to_owned(), path },
        ),
        Err(source) => Err(RequestError::InvalidPath { source }),
    }
}

/// Whether twilight's ratelimit header parser accepts these header pairs.
pub uninterp spec fn ratelimit_headers_accepted(pairs: Seq<(Seq<char>, Seq<u8>)>) -> bool;

pub open spec fn pairs_view(pairs: Seq<(String, Vec<u8>)>) -> Seq<(Seq<char>, Seq<u8>)> {
    pairs.map_values(|p: (String, Vec<u8>)| (p.0@, p.1@))
}

/// Relies on `RatelimitHeaders::from_pairs` of twilight-http-ratelimiting: it
/// succeeds or fails on the header names and values alone.
#[verifier::external_body]
fn parse_ratelimit_headers(pairs: &Vec<(String, Vec<u8>)>) -> (r: Result<RatelimitHeaders, HeaderParsingError>)
    ensures
        r is Ok == ratelimit_headers_accepted(pairs_view(pairs@)),
{
    RatelimitHeaders::from_pairs(pairs.iter().map(|(k, v)| (k.as_str(), v.as_slice())))
}

/// The ratelimit feedback of an upstream response, from its header pairs
/// (lower-case names): the parsed headers, or none when they do not parse.
pub fn feedback_headers(pairs: &Vec<(String, Vec<u8>)>) -> (r: Option<RatelimitHeaders>)
    ensures
        r is Some == ratelimit_headers_accepted(pairs_view(pairs@)),
{
    match parse_ratelimit_headers(pairs) {
        Ok(headers) => Some(headers),
        Err(_) => None,
    }
}

} // verus!
