//! Per-connection decisions: how a connection is classified, whether a CONNECT
//! is tunnelled or intercepted, what is blocked, and what each message of an
//! intercepted session turns into on the wire.
use vstd::prelude::*;

use crate::codec::{
    content_encoding_name, decimal_number, get_header, header_value, headers_view,
    parse_decimal, parse_first_line_buffer, request_line_parts,
};
use crate::config::ProxyConfig;
use crate::encoding::{codings_of, decode_content, undo_all, DecodeError};
use crate::filter::DomainFilter;
use crate::message::{
    body_view, encode_request, encode_response, request_wire, response_wire, HttpResponse,
    HttpsRequest,
};
use crate::mutate::{analyze_and_modify_response, mutated_body, strip_csp};
use crate::text::{find_from, first_occurrence, has_prefix, slice_to_vec, starts_with};

verus! {

/// Which handler an accepted connection goes to.
#[derive(Clone, Copy, Debug, PartialEq, Eq, Structural)]
pub enum Route {
    Http,
    Https,
}

/// How a CONNECT request is served.
#[derive(Clone, Copy, Debug, PartialEq, Eq, Structural)]
pub enum HttpsPath {
    /// Opaque byte copy between client and origin.
    Tunnel,
    /// TLS terminated locally with a minted leaf certificate.
    Intercept,
}

pub open spec fn connect_word() -> Seq<u8> {
    seq![67u8, 79, 78, 78, 69, 67, 84]
}

/// Dispatches on the first bytes of a connection: `CONNECT` goes to HTTPS.
pub fn classify_connection(peeked: &[u8]) -> (r: Route)
    ensures
        r == Route::Https <==> has_prefix(peeked@, connect_word()),
{
    let w: [u8; 7] = [67u8, 79, 78, 78, 69, 67, 84];
    assert(w@ =~= connect_word());
    if starts_with(peeked, w.as_slice()) {
        Route::Https
    } else {
        Route::Http
    }
}

/// The first line of a buffer, without its line ending.
pub open spec fn first_line(buf: Seq<u8>) -> Seq<u8> {
    let line = match first_occurrence(buf, seq![10u8], 0) {
        Some(k) => buf.subrange(0, k),
        None => buf,
    };
    if line.len() > 0 && line.last() == 13u8 {
        line.drop_last()
    } else {
        line
    }
}

/// The first line of `buffer`, with `\r\n` or `\n` dropped.
pub fn read_first_line(buffer: &[u8]) -> (r: Vec<u8>)
    ensures
        r@ == first_line(buffer@),
{
    let lf: [u8; 1] = [10u8];
    assert(lf@ =~= seq![10u8]);
    let n: usize = buffer.len();
    let end: usize = match find_from(buffer, lf.as_slice(), 0) {
        Some(k) => k,
        None => n,
    };
    assert(buffer@.subrange(0, n as int) =~= buffer@);
    if end > 0 && buffer[end - 1] == 13u8 {
        let r = slice_to_vec(buffer, 0, end - 1);
        assert(r@ =~= buffer@.subrange(0, end as int).drop_last());
        r
    } else {
        slice_to_vec(buffer, 0, end)
    }
}

/// The host of an authority: everything before the first `:`.
pub open spec fn authority_host(a: Seq<u8>) -> Seq<u8> {
    match first_occurrence(a, seq![58u8], 0) {
        Some(k) => a.subrange(0, k),
        None => a,
    }
}

/// The host part of `authority`.
pub fn host_of(authority: &[u8]) -> (r: Vec<u8>)
    ensures
        r@ == authority_host(authority@),
{
    let colon: [u8; 1] = [58u8];
    assert(colon@ =~= seq![58u8]);
    let n: usize = authority.len();
    match find_from(authority, colon.as_slice(), 0) {
        Some(k) => slice_to_vec(authority, 0, k),
        None => {
            assert(authority@.subrange(0, n as int) =~= authority@);
            slice_to_vec(authority, 0, n)
        },
    }
}

/// Splits `host:port` at its first `:`; the port must be a decimal `u16`.
pub open spec fn authority_parts(a: Seq<u8>) -> Option<(Seq<u8>, nat)> {
    match first_occurrence(a, seq![58u8], 0) {
        Some(k) => match decimal_number(a.subrange(k + 1, a.len() as int)) {
            Some(p) => if p <= 65535 {
                Some((a.subrange(0, k), p))
            } else {
                None
            },
            None => None,
        },
        None => None,
    }
}

/// Splits an authority into host and port.
pub fn split_authority(authority: &[u8]) -> (r: Option<(Vec<u8>, u16)>)
    ensures
        r matches Some((h, p)) ==> authority_parts(authority@) == Some((h@, p as nat)),
        r is None ==> authority_parts(authority@) is None,
{
    let colon: [u8; 1] = [58u8];
    assert(colon@ =~= seq![58u8]);
    let n: usize = authority.len();
    match find_from(authority, colon.as_slice(), 0) {
        Some(k) => {
            let port = slice_to_vec(authority, k + 1, n);
            match parse_decimal(port.as_slice()) {
                Some(p) => if p <= 65535 {
                    Some((slice_to_vec(authority, 0, k), p as u16))
                } else {
                    None
                },
                None => None,
            }
        },
        None => None,
    }
}

/// The host that a CONNECT line targets; empty when the line is malformed.
pub open spec fn connect_target_host(line: Seq<u8>) -> Seq<u8> {
    match request_line_parts(line) {
        Some(p) => authority_host(p.1),
        None => Seq::empty(),
    }
}

/// A CONNECT is intercepted only when interception is on and its host is not
/// whitelisted; otherwise it is tunnelled.
pub open spec fn https_path_spec(config: ProxyConfig, whitelisted: bool) -> HttpsPath {
    if config.intercept_tls && !whitelisted {
        HttpsPath::Intercept
    } else {
        HttpsPath::Tunnel
    }
}

/// Chooses tunnel or interception for a connection whose first line is
/// `first_line` (a CONNECT request line).
pub fn select_https_path(config: &ProxyConfig, first_line: &[u8], filter: &DomainFilter) -> (r:
    HttpsPath)
    requires
        filter@.well_formed(),
    ensures
        r == https_path_spec(*config, filter@.contains(false, connect_target_host(first_line@))),
{
    let host = match parse_first_line_buffer(first_line) {
        Ok((_, authority, _)) => host_of(authority.as_slice()),
        Err(_) => Vec::new(),
    };
    assert(host@ == connect_target_host(first_line@));
    let whitelisted = filter.whitelist.hits(host.as_slice());
    if config.intercept_tls && !whitelisted {
        HttpsPath::Intercept
    } else {
        HttpsPath::Tunnel
    }
}

/// The reply to a CONNECT: `<version> 200 Connection Established` and an empty line.
pub open spec fn connect_reply_spec(version: Seq<u8>) -> Seq<u8> {
    version + seq![
        32u8, 50, 48, 48, 32, 67, 111, 110, 110, 101, 99, 116, 105, 111, 110, 32, 69, 115, 116, 97,
        98, 108, 105, 115, 104, 101, 100, 13, 10, 13, 10
    ]
}

/// The bytes that acknowledge a CONNECT.
pub fn connect_reply(version: &[u8]) -> (r: Vec<u8>)
    ensures
        r@ == connect_reply_spec(version@),
{
    let tail: [u8; 31] = [
        32u8, 50, 48, 48, 32, 67, 111, 110, 110, 101, 99, 116, 105, 111, 110, 32, 69, 115, 116, 97,
        98, 108, 105, 115, 104, 101, 100, 13, 10, 13, 10
    ];
    let mut out = slice_to_vec(version, 0, version.len());
    assert(version@.subrange(0, version@.len() as int) =~= version@);
    crate::text::push_all(&mut out, tail.as_slice());
    assert(out@ =~= connect_reply_spec(version@));
    out
}

/// Whether a request target names a blacklisted host (the part before `:`).
pub fn is_ad_request_based_on_uri(uri: &[u8], filter: &DomainFilter) -> (r: bool)
    requires
        filter@.well_formed(),
    ensures
        r == filter@.contains(true, authority_host(uri@)),
{
    let host = host_of(uri);
    filter.blacklist.hits(host.as_slice())
}

/// A plain HTTP request is refused with 403 when ad blocking is on and its
/// `Host` header names a blacklisted host (a missing header counts as empty).
pub fn http_request_blocked(config: &ProxyConfig, host: Option<&[u8]>, filter: &DomainFilter) -> (r:
    bool)
    requires
        filter@.well_formed(),
    ensures
        r == (config.block_ads && filter@.contains(
            true,
            match host {
                Some(h) => h@,
                None => Seq::empty(),
            },
        )),
{
    if !config.block_ads {
        return false;
    }
    match host {
        Some(h) => filter.blacklist.hits(h),
        None => {
            let e: Vec<u8> = Vec::new();
            filter.blacklist.hits(e.as_slice())
        },
    }
}

/// The method sent upstream.
#[derive(Clone, Copy, Debug, PartialEq, Eq, Structural)]
pub enum Method {
    Get,
    Post,
    Put,
    Delete,
    Head,
    Patch,
}

pub open spec fn method_spec(m: Seq<u8>) -> Method {
    if m == seq![80u8, 79, 83, 84] {
        Method::Post
    } else if m == seq![80u8, 85, 84] {
        Method::Put
    } else if m == seq![68u8, 69, 76, 69, 84, 69] {
        Method::Delete
    } else if m == seq![72u8, 69, 65, 68] {
        Method::Head
    } else if m == seq![80u8, 65, 84, 67, 72] {
        Method::Patch
    } else {
        Method::Get
    }
}

/// GET, POST, PUT, DELETE, HEAD and PATCH map to themselves; any other method
/// becomes GET.
pub fn upstream_method(method: &[u8]) -> (r: Method)
    ensures
        r == method_spec(method@),
{
    let post: [u8; 4] = [80u8, 79, 83, 84];
    let put: [u8; 3] = [80u8, 85, 84];
    let delete: [u8; 6] = [68u8, 69, 76, 69, 84, 69];
    let head: [u8; 4] = [72u8, 69, 65, 68];
    let patch: [u8; 5] = [80u8, 65, 84, 67, 72];
    assert(post@ =~= seq![80u8, 79, 83, 84]);
    assert(put@ =~= seq![80u8, 85, 84]);
    assert(delete@ =~= seq![68u8, 69, 76, 69, 84, 69]);
    assert(head@ =~= seq![72u8, 69, 65, 68]);
    assert(patch@ =~= seq![80u8, 65, 84, 67, 72]);
    if crate::text::bytes_equal(method, post.as_slice()) {
        Method::Post
    } else if crate::text::bytes_equal(method, put.as_slice()) {
        Method::Put
    } else if crate::text::bytes_equal(method, delete.as_slice()) {
        Method::Delete
    } else if crate::text::bytes_equal(method, head.as_slice()) {
        Method::Head
    } else if crate::text::bytes_equal(method, patch.as_slice()) {
        Method::Patch
    } else {
        Method::Get
    }
}


/// The method's token.
pub open spec fn method_token(m: Method) -> Seq<u8> {
    match m {
        Method::Get => seq![71u8, 69, 84],
        Method::Post => seq![80u8, 79, 83, 84],
        Method::Put => seq![80u8, 85, 84],
        Method::Delete => seq![68u8, 69, 76, 69, 84, 69],
        Method::Head => seq![72u8, 69, 65, 68],
        Method::Patch => seq![80u8, 65, 84, 67, 72],
    }
}

impl Method {
    /// The method's token as it goes on the request line.
    pub fn token(&self) -> (r: Vec<u8>)
        ensures
            r@ == method_token(*self),
    {
        let v: Vec<u8> = match self {
            Method::Get => vec![71u8, 69, 84],
            Method::Post => vec![80u8, 79, 83, 84],
            Method::Put => vec![80u8, 85, 84],
            Method::Delete => vec![68u8, 69, 76, 69, 84, 69],
            Method::Head => vec![72u8, 69, 65, 68],
            Method::Patch => vec![80u8, 65, 84, 67, 72],
        };
        assert(v@ =~= method_token(*self));
        v
    }
}

pub open spec fn http_scheme() -> Seq<u8> {
    seq![104u8, 116, 116, 112, 58, 47, 47]
}

/// An absolute-form `http://authority/path` target split into a non-empty
/// authority and a path (`/` when none is given).
pub open spec fn absolute_target(uri: Seq<u8>) -> Option<(Seq<u8>, Seq<u8>)> {
    if has_prefix(uri, http_scheme()) {
        let rest = uri.skip(7);
        let (authority, path) = match first_occurrence(rest, seq![47u8], 0) {
            Some(k) => (rest.subrange(0, k), rest.subrange(k, rest.len() as int)),
            None => (rest, seq![47u8]),
        };
        if authority.len() > 0 {
            Some((authority, path))
        } else {
            None
        }
    } else {
        None
    }
}

/// Splits an absolute-form target into authority and path.
pub fn split_absolute_target(uri: &[u8]) -> (r: Option<(Vec<u8>, Vec<u8>)>)
    ensures
        r matches Some((a, p)) ==> absolute_target(uri@) == Some((a@, p@)),
        r is None ==> absolute_target(uri@) is None,
{
    let scheme: [u8; 7] = [104u8, 116, 116, 112, 58, 47, 47];
    assert(scheme@ =~= http_scheme());
    if !starts_with(uri, scheme.as_slice()) {
        return None;
    }
    let n: usize = uri.len();
    let rest = slice_to_vec(uri, 7, n);
    assert(rest@ =~= uri@.skip(7));
    let slash: [u8; 1] = [47u8];
    assert(slash@ =~= seq![47u8]);
    let m: usize = rest.len();
    let (authority, path) = match find_from(rest.as_slice(), slash.as_slice(), 0) {
        Some(k) => (slice_to_vec(rest.as_slice(), 0, k), slice_to_vec(rest.as_slice(), k, m)),
        None => {
            assert(rest@.subrange(0, m as int) =~= rest@);
            let root: Vec<u8> = vec![47u8];
            assert(root@ =~= seq![47u8]);
            (slice_to_vec(rest.as_slice(), 0, m), root)
        },
    };
    if authority.len() > 0 {
        Some((authority, path))
    } else {
        None
    }
}

/// How the upstream request of a plain HTTP request is sent.
#[derive(Clone, Copy, Debug, PartialEq, Eq, Structural)]
pub enum UpstreamProtocol {
    /// HTTP/1.1, accepting HTTP/0.9 responses.
    Http09,
    /// HTTP/2 with prior knowledge.
    Http2PriorKnowledge,
    /// HTTP/1.x only.
    Http1Only,
}

pub open spec fn protocol_spec(version: Seq<u8>) -> UpstreamProtocol {
    if version == seq![72u8, 84, 84, 80, 47, 48, 46, 57] {
        UpstreamProtocol::Http09
    } else if version == seq![72u8, 84, 84, 80, 47, 50, 46, 48] || version == seq![
        72u8,
        84,
        84,
        80,
        47,
        50,
    ] {
        UpstreamProtocol::Http2PriorKnowledge
    } else {
        UpstreamProtocol::Http1Only
    }
}

/// The upstream protocol for the version a client announced: `HTTP/0.9`
/// and `HTTP/2.0` (or `HTTP/2`) are honoured, anything else goes as HTTP/1.
pub fn upstream_protocol(version: &[u8]) -> (r: UpstreamProtocol)
    ensures
        r == protocol_spec(version@),
{
    let v09: [u8; 8] = [72u8, 84, 84, 80, 47, 48, 46, 57];
    let v20: [u8; 8] = [72u8, 84, 84, 80, 47, 50, 46, 48];
    let v2: [u8; 6] = [72u8, 84, 84, 80, 47, 50];
    assert(v09@ =~= seq![72u8, 84, 84, 80, 47, 48, 46, 57]);
    assert(v20@ =~= seq![72u8, 84, 84, 80, 47, 50, 46, 48]);
    assert(v2@ =~= seq![72u8, 84, 84, 80, 47, 50]);
    if crate::text::bytes_equal(version, v09.as_slice()) {
        UpstreamProtocol::Http09
    } else if crate::text::bytes_equal(version, v20.as_slice()) || crate::text::bytes_equal(
        version,
        v2.as_slice(),
    ) {
        UpstreamProtocol::Http2PriorKnowledge
    } else {
        UpstreamProtocol::Http1Only
    }
}

pub open spec fn blocked_text() -> Seq<u8> {
    seq![
        66u8, 108, 111, 99, 107, 101, 100, 32, 98, 121, 32, 78, 101, 116, 119, 111, 114, 107, 32,
        65, 100, 109, 105, 110, 105, 115, 116, 114, 97, 116, 111, 114
    ]
}

pub open spec fn no_content_text() -> Seq<u8> {
    seq![78u8, 111, 32, 67, 111, 110, 116, 101, 110, 116]
}

pub open spec fn forbidden_body() -> Seq<u8> {
    seq![52u8, 48, 51, 32, 70, 111, 114, 98, 105, 100, 100, 101, 110]
}

pub open spec fn forbidden_text() -> Seq<u8> {
    seq![70u8, 111, 114, 98, 105, 100, 100, 101, 110]
}

/// The 204 answer to a blocked request on an intercepted session.
pub fn blocked_response(version: &[u8]) -> (r: HttpResponse)
    ensures
        r.version@ == version@,
        r.status_code == 204,
        r.status_text@ == no_content_text(),
        r.headers@.len() == 0,
        body_view(r.body) == Some(blocked_text()),
{
    let t: [u8; 10] = [78u8, 111, 32, 67, 111, 110, 116, 101, 110, 116];
    let b: [u8; 32] = [
        66u8, 108, 111, 99, 107, 101, 100, 32, 98, 121, 32, 78, 101, 116, 119, 111, 114, 107, 32,
        65, 100, 109, 105, 110, 105, 115, 116, 114, 97, 116, 111, 114
    ];
    assert(t@ =~= no_content_text());
    assert(b@ =~= blocked_text());
    assert(version@.subrange(0, version@.len() as int) =~= version@);
    HttpResponse {
        version: slice_to_vec(version, 0, version.len()),
        status_code: 204,
        status_text: slice_to_vec(t.as_slice(), 0, 10),
        headers: Vec::new(),
        body: Some(slice_to_vec(b.as_slice(), 0, 32)),
    }
}

/// The 403 answer to a blocked plain HTTP request.
pub fn forbidden_response() -> (r: HttpResponse)
    ensures
        r.version@ == seq![72u8, 84, 84, 80, 47, 49, 46, 49],
        r.status_code == 403,
        r.status_text@ == forbidden_text(),
        r.headers@.len() == 0,
        body_view(r.body) == Some(forbidden_body()),
{
    let v: [u8; 8] = [72u8, 84, 84, 80, 47, 49, 46, 49];
    let t: [u8; 9] = [70u8, 111, 114, 98, 105, 100, 100, 101, 110];
    let b: [u8; 13] = [52u8, 48, 51, 32, 70, 111, 114, 98, 105, 100, 100, 101, 110];
    assert(v@ =~= seq![72u8, 84, 84, 80, 47, 49, 46, 49]);
    assert(t@ =~= forbidden_text());
    assert(b@ =~= forbidden_body());
    HttpResponse {
        version: slice_to_vec(v.as_slice(), 0, 8),
        status_code: 403,
        status_text: slice_to_vec(t.as_slice(), 0, 9),
        headers: Vec::new(),
        body: Some(slice_to_vec(b.as_slice(), 0, 13)),
    }
}

/// The answer to a plain HTTP request whose upstream exchange failed: a 200
/// whose body carries the error message.
pub fn upstream_error_response(message: Vec<u8>) -> (r: HttpResponse)
    ensures
        r.version@ == seq![72u8, 84, 84, 80, 47, 49, 46, 49],
        r.status_code == 200,
        r.status_text@ == seq![79u8, 75],
        r.headers@.len() == 0,
        body_view(r.body) == Some(message@),
{
    let v: [u8; 8] = [72u8, 84, 84, 80, 47, 49, 46, 49];
    let t: [u8; 2] = [79u8, 75];
    assert(v@ =~= seq![72u8, 84, 84, 80, 47, 49, 46, 49]);
    assert(t@ =~= seq![79u8, 75]);
    HttpResponse {
        version: slice_to_vec(v.as_slice(), 0, 8),
        status_code: 200,
        status_text: slice_to_vec(t.as_slice(), 0, 2),
        headers: Vec::new(),
        body: Some(message),
    }
}

/// What to do with a request read from the client of an intercepted session.
pub enum ClientAction {
    /// Write these bytes back to the client; nothing goes upstream.
    Respond(Vec<u8>),
    /// Write these bytes to the origin.
    Forward(Vec<u8>),
}

/// A request is blocked when ad blocking is on and its target's host is
/// blacklisted: the client gets a 204; otherwise the request goes upstream as is.
pub fn handle_client_request(
    config: &ProxyConfig,
    req: &HttpsRequest,
    version: &[u8],
    filter: &DomainFilter,
) -> (r: ClientAction)
    requires
        filter@.well_formed(),
    ensures
        config.block_ads && filter@.contains(true, authority_host(req.uri@)) ==> (r matches ClientAction::Respond(b) && b@
            == response_wire(version@, 204, no_content_text(), Seq::empty(), Some(blocked_text()))),
        !(config.block_ads && filter@.contains(true, authority_host(req.uri@))) ==> (r matches ClientAction::Forward(b) && b@
            == request_wire(
            req.method@,
            req.uri@,
            req.version@,
            headers_view(req.headers@),
            body_view(req.body),
        )),
{
    if config.block_ads && is_ad_request_based_on_uri(req.uri.as_slice(), filter) {
        let resp = blocked_response(version);
        assert(headers_view(resp.headers@) =~= Seq::<(Seq<u8>, Seq<u8>)>::empty());
        ClientAction::Respond(encode_response(&resp))
    } else {
        ClientAction::Forward(encode_request(req))
    }
}

/// The body after undoing its content codings: unchanged without a
/// `Content-Encoding` header or without a body; `None` when a decoder fails.
pub open spec fn decoded_body(hs: Seq<(Seq<u8>, Seq<u8>)>, body: Option<Seq<u8>>) -> Option<
    Option<Seq<u8>>,
> {
    match (header_value(hs, content_encoding_name()), body) {
        (Some(ce), Some(b)) => match undo_all(b, codings_of(ce)) {
            Some(x) => Some(Some(x)),
            None => None,
        },
        _ => Some(body),
    }
}

/// The wire form of a response from the origin of an intercepted session, as
/// the client receives it.
pub open spec fn origin_response_wire(resp: HttpResponse, blacklist: crate::filter::ListModel) -> Option<
    Seq<u8>,
> {
    let hs = headers_view(resp.headers@);
    match decoded_body(hs, body_view(resp.body)) {
        Some(b) => Some(
            response_wire(
                resp.version@,
                resp.status_code as nat,
                resp.status_text@,
                strip_csp(hs),
                mutated_body(strip_csp(hs), b, blacklist),
            ),
        ),
        None => None,
    }
}

/// Turns a response from the origin into the bytes for the client: the body's
/// content codings are undone, the response is rewritten, and it is serialized
/// with a `Content-Length` and without transfer or content encoding.
pub fn handle_origin_response(resp: HttpResponse, filter: &DomainFilter) -> (r: Result<
    Vec<u8>,
    DecodeError,
>)
    requires
        filter@.well_formed(),
    ensures
        r matches Ok(b) ==> origin_response_wire(resp, filter@.blacklist) == Some(b@),
        r is Err ==> origin_response_wire(resp, filter@.blacklist) is None,
{
    let ghost hs = headers_view(resp.headers@);
    let mut resp = resp;
    let ce: [u8; 16] = [67u8, 111, 110, 116, 101, 110, 116, 45, 69, 110, 99, 111, 100, 105, 110, 103];
    assert(ce@ =~= content_encoding_name());
    match get_header(&resp.headers, ce.as_slice()) {
        Some(enc) => {
            let taken = resp.body.take();
            match taken {
                Some(body) => {
                    let decoded = decode_content(body, enc.as_slice())?;
                    resp.body = Some(decoded);
                },
                None => {},
            }
        },
        None => {},
    }
    let modified = analyze_and_modify_response(&resp, filter);
    Ok(encode_response(&modified))
}


/// A non-HTML response whose body was brotli- then gzip-encoded
/// (`Content-Encoding: br, gzip`) reaches the client with the plain body, with
/// exactly one `Content-Length` (the last header, giving the plain length), and
/// with no `Transfer-Encoding` or `Content-Encoding` header.
pub proof fn lemma_br_gzip_response(
    resp: HttpResponse,
    blacklist: crate::filter::ListModel,
    encoded: Seq<u8>,
    mid: Seq<u8>,
    plain: Seq<u8>,
)
    requires
        header_value(headers_view(resp.headers@), content_encoding_name())
            == Some(crate::encoding::br_gzip()),
        header_value(strip_csp(headers_view(resp.headers@)), crate::mutate::content_type_name())
            is None || !crate::mutate::is_html(
            header_value(
                strip_csp(headers_view(resp.headers@)),
                crate::mutate::content_type_name(),
            ).unwrap(),
        ),
        body_view(resp.body) == Some(encoded),
        crate::encoding::gzip_decoded(encoded) == Some(mid),
        crate::encoding::brotli_decoded(mid) == Some(plain),
    ensures
        origin_response_wire(resp, blacklist) == Some(
            response_wire(
                resp.version@,
                resp.status_code as nat,
                resp.status_text@,
                strip_csp(headers_view(resp.headers@)),
                Some(plain),
            ),
        ),
        ({
            let w = crate::message::wire_headers(strip_csp(headers_view(resp.headers@)), Some(plain));
            &&& w.last() == (crate::codec::content_length_name(), crate::codec::decimal(plain.len()))
            &&& forall|j: int|
                0 <= j < w.len() - 1 ==> !crate::text::eq_ignore_case(
                    #[trigger] w[j].0,
                    crate::codec::content_length_name(),
                )
            &&& forall|j: int|
                0 <= j < w.len() ==> !crate::text::eq_ignore_case(
                    #[trigger] w[j].0,
                    crate::codec::transfer_encoding_name(),
                ) && !crate::text::eq_ignore_case(w[j].0, crate::codec::content_encoding_name())
        }),
{
    crate::encoding::lemma_br_gzip_order(encoded);
    let hs = headers_view(resp.headers@);
    assert(decoded_body(hs, Some(encoded)) == Some(Some(plain)));
    assert(mutated_body(strip_csp(hs), Some(plain), blacklist) == Some(plain));
    crate::message::lemma_wire_headers_single_length(strip_csp(hs), plain);
}


/// An HTML response without content coding reaches the client with its text
/// cleaned of ad scripts and the marker script injected before the last
/// `</body>`, none of the four CSP headers, exactly one `Content-Length` (the
/// last header, giving the new body's length) and no transfer or content
/// encoding.
pub proof fn lemma_html_response(
    resp: HttpResponse,
    blacklist: crate::filter::ListModel,
    ct: Seq<u8>,
    body: Seq<u8>,
)
    requires
        header_value(headers_view(resp.headers@), content_encoding_name()) is None,
        header_value(strip_csp(headers_view(resp.headers@)), crate::mutate::content_type_name())
            == Some(ct),
        crate::mutate::is_html(ct),
        body_view(resp.body) == Some(body),
    ensures
        ({
            let out = crate::mutate::injected(
                crate::mutate::strip_ads(crate::mutate::html_text(ct, body), blacklist),
                crate::mutate::marker(),
            );
            let w = crate::message::wire_headers(strip_csp(headers_view(resp.headers@)), Some(out));
            &&& origin_response_wire(resp, blacklist) == Some(
                response_wire(
                    resp.version@,
                    resp.status_code as nat,
                    resp.status_text@,
                    strip_csp(headers_view(resp.headers@)),
                    Some(out),
                ),
            )
            &&& w.last() == (crate::codec::content_length_name(), crate::codec::decimal(out.len()))
            &&& forall|j: int|
                0 <= j < w.len() - 1 ==> !crate::text::eq_ignore_case(
                    #[trigger] w[j].0,
                    crate::codec::content_length_name(),
                )
            &&& forall|j: int, k: int|
                0 <= j < w.len() && 0 <= k < 4 ==> !crate::text::eq_ignore_case(
                    #[trigger] w[j].0,
                    #[trigger] crate::mutate::csp_name(k),
                )
        }),
{
    let hs = headers_view(resp.headers@);
    let out = crate::mutate::injected(
        crate::mutate::strip_ads(crate::mutate::html_text(ct, body), blacklist),
        crate::mutate::marker(),
    );
    assert(decoded_body(hs, Some(body)) == Some(Some(body)));
    crate::message::lemma_wire_headers_single_length(strip_csp(hs), out);
    let w = crate::message::wire_headers(strip_csp(hs), Some(out));
    crate::mutate::lemma_csp_absent(hs, Some(out), 0);
    crate::mutate::lemma_csp_absent(hs, Some(out), 1);
    crate::mutate::lemma_csp_absent(hs, Some(out), 2);
    crate::mutate::lemma_csp_absent(hs, Some(out), 3);
    assert forall|j: int, k: int| 0 <= j < w.len() && 0 <= k < 4 implies !crate::text::eq_ignore_case(
        #[trigger] w[j].0,
        #[trigger] crate::mutate::csp_name(k),
    ) by {
        if k == 0 {
        } else if k == 1 {
        } else if k == 2 {
        } else {
        }
    }
}

} // verus!
