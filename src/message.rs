//! Request and response envelopes and their wire form.
use vstd::prelude::*;
use vstd::utf8::{decode_utf8, valid_utf8};

use crate::codec::{
    content_encoding_bytes, content_encoding_name, content_length_bytes, content_length_name,
    decimal, header_bytes, headers_view, lemma_without_header_absent, remove_header,
    transfer_encoding_bytes,
    transfer_encoding_name, without_header, write_decimal, write_headers, Header,
    header_view,
};
use crate::text::{copy_bytes, eq_ignore_case, lower, push_all, slice_to_vec};

verus! {

/// A response as read from an origin or written to a client.
pub struct HttpResponse {
    pub version: Vec<u8>,
    pub status_code: u16,
    pub status_text: Vec<u8>,
    pub headers: Vec<Header>,
    pub body: Option<Vec<u8>>,
}

/// A response on an intercepted TLS session; the same fields as `HttpResponse`.
pub struct HttpsResponse {
    pub version: Vec<u8>,
    pub status_code: u16,
    pub status_text: Vec<u8>,
    pub headers: Vec<Header>,
    pub body: Option<Vec<u8>>,
}

/// A response of either kind.
pub enum Response {
    Http(HttpResponse),
    Https(HttpsResponse),
}

/// A request as read from a client on an intercepted TLS session.
pub struct HttpsRequest {
    pub method: Vec<u8>,
    pub version: Vec<u8>,
    pub uri: Vec<u8>,
    pub headers: Vec<Header>,
    pub body: Option<Vec<u8>>,
}

/// The parsed `CONNECT` request of a connection.
pub struct StreamParser {
    pub buffer: Vec<u8>,
    pub header_lines: Vec<Vec<u8>>,
    pub method: Vec<u8>,
    pub authority: Vec<u8>,
    pub version: Vec<u8>,
}

pub open spec fn body_view(b: Option<Vec<u8>>) -> Option<Seq<u8>> {
    match b {
        Some(v) => Some(v@),
        None => None,
    }
}

/// The text that a body holds, if it is valid UTF-8.
pub open spec fn body_text(b: Option<Seq<u8>>) -> Option<Seq<char>> {
    match b {
        Some(v) => if valid_utf8(v) {
            Some(decode_utf8(v))
        } else {
            None
        },
        None => None,
    }
}

/// Relies on `String::from_utf8`: the bytes as a string exactly when they are
/// valid UTF-8.
#[verifier::external_body]
pub(crate) fn utf8_string(bytes: Vec<u8>) -> (r: Option<String>)
    ensures
        r matches Some(s) ==> valid_utf8(bytes@) && s@ == decode_utf8(bytes@),
        r is None ==> !valid_utf8(bytes@),
{
    String::from_utf8(bytes).ok()
}

pub fn copy_body(b: &Option<Vec<u8>>) -> (r: Option<Vec<u8>>)
    ensures
        body_view(r) == body_view(*b),
{
    match b {
        Some(v) => Some(copy_bytes(v)),
        None => None,
    }
}

pub fn copy_headers(hs: &Vec<Header>) -> (r: Vec<Header>)
    ensures
        headers_view(r@) == headers_view(hs@),
{
    let mut out: Vec<Header> = Vec::new();
    let mut i: usize = 0;
    while i < hs.len()
        invariant
            0 <= i <= hs@.len(),
            headers_view(out@) == headers_view(hs@).subrange(0, i as int),
        decreases hs@.len() - i,
    {
        let ghost before = headers_view(out@);
        let h = Header { name: copy_bytes(&hs[i].name), value: copy_bytes(&hs[i].value) };
        assert(header_view(h) == headers_view(hs@)[i as int]);
        out.push(h);
        assert(headers_view(out@) =~= before.push(headers_view(hs@)[i as int]));
        assert(headers_view(hs@).subrange(0, i + 1) =~= headers_view(hs@).subrange(0, i as int).push(
            headers_view(hs@)[i as int],
        ));
        i += 1;
    }
    assert(headers_view(hs@).subrange(0, i as int) =~= headers_view(hs@));
    out
}

impl HttpResponse {
    /// A field-by-field copy.
    pub fn copy(&self) -> (r: HttpResponse)
        ensures
            r.version@ == self.version@,
            r.status_code == self.status_code,
            r.status_text@ == self.status_text@,
            headers_view(r.headers@) == headers_view(self.headers@),
            body_view(r.body) == body_view(self.body),
    {
        HttpResponse {
            version: copy_bytes(&self.version),
            status_code: self.status_code,
            status_text: copy_bytes(&self.status_text),
            headers: copy_headers(&self.headers),
            body: copy_body(&self.body),
        }
    }
}

impl Response {
    pub open spec fn headers_spec(&self) -> Seq<(Seq<u8>, Seq<u8>)> {
        match self {
            Response::Http(r) => headers_view(r.headers@),
            Response::Https(r) => headers_view(r.headers@),
        }
    }

    pub open spec fn body_spec(&self) -> Option<Seq<u8>> {
        match self {
            Response::Http(r) => body_view(r.body),
            Response::Https(r) => body_view(r.body),
        }
    }

    /// A copy of the header set.
    pub fn headers(&self) -> (r: Vec<Header>)
        ensures
            headers_view(r@) == self.headers_spec(),
    {
        match self {
            Response::Http(r) => copy_headers(&r.headers),
            Response::Https(r) => copy_headers(&r.headers),
        }
    }

    /// The header set, for changing in place.
    pub fn headers_mut(&mut self) -> (r: &mut Vec<Header>)
        ensures
            *r == match *old(self) {
                Response::Http(x) => x.headers,
                Response::Https(x) => x.headers,
            },
            *final(self) == match *old(self) {
                Response::Http(x) => Response::Http(HttpResponse { headers: *final(r), ..x }),
                Response::Https(x) => Response::Https(HttpsResponse { headers: *final(r), ..x }),
            },
    {
        match self {
            Response::Http(r) => &mut r.headers,
            Response::Https(r) => &mut r.headers,
        }
    }

    /// The body as text, when there is one and it is valid UTF-8.
    pub fn body_as_string(&self) -> (r: Option<String>)
        ensures
            r matches Some(s) ==> body_text(self.body_spec()) == Some(s@),
            r is None ==> body_text(self.body_spec()) is None,
    {
        let b = match self {
            Response::Http(r) => copy_body(&r.body),
            Response::Https(r) => copy_body(&r.body),
        };
        match b {
            Some(v) => utf8_string(v),
            None => None,
        }
    }

    /// Replaces the body.
    pub fn set_body(&mut self, body: Vec<u8>)
        ensures
            final(self).body_spec() == Some(body@),
            final(self).headers_spec() == old(self).headers_spec(),
    {
        match self {
            Response::Http(r) => r.body = Some(body),
            Response::Https(r) => r.body = Some(body),
        }
    }

    /// Replaces the body by the UTF-8 bytes of `body`.
    pub fn set_body_str(&mut self, body: &str)
        ensures
            final(self).body_spec() == Some(vstd::utf8::encode_utf8(body@)),
            final(self).headers_spec() == old(self).headers_spec(),
    {
        let b = body.as_bytes();
        let v = crate::text::slice_to_vec(b, 0, b.len());
        assert(b@.subrange(0, b@.len() as int) =~= b@);
        self.set_body(v);
    }
}

/// The headers a response goes out with: with a body, every `Transfer-Encoding`,
/// `Content-Encoding` and `Content-Length` pair is dropped, whatever its case,
/// and one `Content-Length` giving the body's length is appended.
pub open spec fn wire_headers(hs: Seq<(Seq<u8>, Seq<u8>)>, body: Option<Seq<u8>>) -> Seq<
    (Seq<u8>, Seq<u8>),
> {
    match body {
        Some(b) => without_header(
            without_header(without_header(hs, transfer_encoding_name()), content_encoding_name()),
            content_length_name(),
        ).push((content_length_name(), decimal(b.len()))),
        None => hs,
    }
}

/// A response with a body goes out with no `Transfer-Encoding` and no
/// `Content-Encoding` header in any case, and with exactly one `Content-Length`
/// header in any case: the last, giving the body's length.
pub proof fn lemma_wire_headers_single_length(hs: Seq<(Seq<u8>, Seq<u8>)>, b: Seq<u8>)
    ensures
        ({
            let w = wire_headers(hs, Some(b));
            &&& w.len() >= 1
            &&& w.last() == (content_length_name(), decimal(b.len()))
            &&& forall|j: int|
                0 <= j < w.len() - 1 ==> !eq_ignore_case(#[trigger] w[j].0, content_length_name())
            &&& forall|j: int|
                0 <= j < w.len() ==> !eq_ignore_case(#[trigger] w[j].0, transfer_encoding_name())
                    && !eq_ignore_case(w[j].0, content_encoding_name())
        }),
{
    let t = transfer_encoding_name();
    let e = content_encoding_name();
    let l = content_length_name();
    let h1 = without_header(hs, t);
    let h2 = without_header(h1, e);
    let h3 = without_header(h2, l);
    lemma_without_header_absent(hs, t, t);
    lemma_without_header_absent(h1, e, t);
    lemma_without_header_absent(h2, l, t);
    lemma_without_header_absent(h1, e, e);
    lemma_without_header_absent(h2, l, e);
    lemma_without_header_absent(h2, l, l);
    assert(lower(l).len() != lower(t).len());
    assert(lower(l).len() != lower(e).len());
    let w = wire_headers(hs, Some(b));
    assert(w == h3.push((l, decimal(b.len()))));
    assert forall|j: int| 0 <= j < w.len() implies !eq_ignore_case(#[trigger] w[j].0, t)
        && !eq_ignore_case(w[j].0, e) by {
        if j < h3.len() {
            assert(w[j] == h3[j]);
        }
    }
    assert forall|j: int| 0 <= j < w.len() - 1 implies !eq_ignore_case(#[trigger] w[j].0, l) by {
        assert(w[j] == h3[j]);
    }
}

/// The wire form of a response.
pub open spec fn response_wire(
    version: Seq<u8>,
    code: nat,
    text: Seq<u8>,
    hs: Seq<(Seq<u8>, Seq<u8>)>,
    body: Option<Seq<u8>>,
) -> Seq<u8> {
    version + seq![32u8] + decimal(code) + seq![32u8] + text + seq![13u8, 10u8] + header_bytes(
        wire_headers(hs, body),
    ) + seq![13u8, 10u8] + match body {
        Some(b) => b,
        None => Seq::empty(),
    }
}

/// The wire form of a request.
pub open spec fn request_wire(
    method: Seq<u8>,
    uri: Seq<u8>,
    version: Seq<u8>,
    hs: Seq<(Seq<u8>, Seq<u8>)>,
    body: Option<Seq<u8>>,
) -> Seq<u8> {
    method + seq![32u8] + uri + seq![32u8] + version + seq![13u8, 10u8] + header_bytes(hs) + seq![
        13u8,
        10u8,
    ] + match body {
        Some(b) => b,
        None => Seq::empty(),
    }
}

/// Serializes a response: status line, headers in order, an empty line, the body.
pub fn encode_response(resp: &HttpResponse) -> (r: Vec<u8>)
    ensures
        r@ == response_wire(
            resp.version@,
            resp.status_code as nat,
            resp.status_text@,
            headers_view(resp.headers@),
            body_view(resp.body),
        ),
{
    let sp: [u8; 1] = [32u8];
    let crlf: [u8; 2] = [13u8, 10u8];
    assert(sp@ =~= seq![32u8]);
    assert(crlf@ =~= seq![13u8, 10u8]);
    let mut headers = copy_headers(&resp.headers);
    match &resp.body {
        Some(b) => {
            let te = transfer_encoding_bytes();
            let ce = content_encoding_bytes();
            let cl = content_length_bytes();
            remove_header(&mut headers, te.as_slice());
            remove_header(&mut headers, ce.as_slice());
            remove_header(&mut headers, cl.as_slice());
            let mut len_digits: Vec<u8> = Vec::new();
            write_decimal(&mut len_digits, b.len());
            let ghost before = headers_view(headers@);
            let h = Header { name: slice_to_vec(cl.as_slice(), 0, 14), value: len_digits };
            assert(header_view(h) == (content_length_name(), decimal(b@.len())));
            headers.push(h);
            assert(headers_view(headers@) =~= before.push(header_view(h)));
        },
        None => {},
    }
    let mut out: Vec<u8> = Vec::new();
    push_all(&mut out, resp.version.as_slice());
    push_all(&mut out, sp.as_slice());
    write_decimal(&mut out, resp.status_code as usize);
    push_all(&mut out, sp.as_slice());
    push_all(&mut out, resp.status_text.as_slice());
    push_all(&mut out, crlf.as_slice());
    write_headers(&mut out, &headers);
    push_all(&mut out, crlf.as_slice());
    match &resp.body {
        Some(b) => push_all(&mut out, b.as_slice()),
        None => {},
    }
    assert(out@ =~= response_wire(
        resp.version@,
        resp.status_code as nat,
        resp.status_text@,
        headers_view(resp.headers@),
        body_view(resp.body),
    ));
    out
}

/// Serializes a request: request line, headers in order, an empty line, the body.
pub fn encode_request(req: &HttpsRequest) -> (r: Vec<u8>)
    ensures
        r@ == request_wire(
            req.method@,
            req.uri@,
            req.version@,
            headers_view(req.headers@),
            body_view(req.body),
        ),
{
    let sp: [u8; 1] = [32u8];
    let crlf: [u8; 2] = [13u8, 10u8];
    assert(sp@ =~= seq![32u8]);
    assert(crlf@ =~= seq![13u8, 10u8]);
    let mut out: Vec<u8> = Vec::new();
    push_all(&mut out, req.method.as_slice());
    push_all(&mut out, sp.as_slice());
    push_all(&mut out, req.uri.as_slice());
    push_all(&mut out, sp.as_slice());
    push_all(&mut out, req.version.as_slice());
    push_all(&mut out, crlf.as_slice());
    write_headers(&mut out, &req.headers);
    push_all(&mut out, crlf.as_slice());
    match &req.body {
        Some(b) => push_all(&mut out, b.as_slice()),
        None => {},
    }
    assert(out@ =~= request_wire(
        req.method@,
        req.uri@,
        req.version@,
        headers_view(req.headers@),
        body_view(req.body),
    ));
    out
}

} // verus!
