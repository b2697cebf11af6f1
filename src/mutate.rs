//! Rewriting of responses on their way to the client: CSP headers, ad scripts,
//! charset and the marker script.
use vstd::prelude::*;

use crate::codec::{
    get_header, header_value, headers_view, lemma_without_header_absent, remove_header,
    without_header, Header,
};
use crate::filter::{DomainFilter, ListModel};
use crate::message::{body_view, HttpResponse};
use crate::text::{
    find_from, first_occurrence, is_space, is_space_exec, last_occurrence_before, lower,
    occurs_at, occurs_at_exec, push_all, push_range, rfind, slice_to_vec, eq_ignore_case,
};

verus! {

pub open spec fn body_close() -> Seq<u8> {
    seq![60u8, 47, 98, 111, 100, 121, 62]
}

pub open spec fn script_open_tag() -> Seq<u8> {
    seq![60u8, 115, 99, 114, 105, 112, 116, 62]
}

pub open spec fn script_start() -> Seq<u8> {
    seq![60u8, 115, 99, 114, 105, 112, 116]
}

pub open spec fn script_close() -> Seq<u8> {
    seq![60u8, 47, 115, 99, 114, 105, 112, 116, 62]
}

/// `html` with `<script>script</script>` inserted just before the last
/// `</body>`, or appended when there is none.
pub open spec fn injected(html: Seq<u8>, script: Seq<u8>) -> Seq<u8> {
    let tag = script_open_tag() + script + script_close();
    match last_occurrence_before(html, body_close(), html.len() as int) {
        Some(p) => html.subrange(0, p) + tag + html.subrange(p, html.len() as int),
        None => html + tag,
    }
}

/// Inserts `<script>script</script>` before the last `</body>` of `html`, or at
/// its end.
pub fn inject_customs_script(html: &[u8], script: &[u8]) -> (r: Vec<u8>)
    ensures
        r@ == injected(html@, script@),
{
    let open: [u8; 8] = [60u8, 115, 99, 114, 105, 112, 116, 62];
    let close: [u8; 9] = [60u8, 47, 115, 99, 114, 105, 112, 116, 62];
    let body_end: [u8; 7] = [60u8, 47, 98, 111, 100, 121, 62];
    assert(open@ =~= script_open_tag());
    assert(close@ =~= script_close());
    assert(body_end@ =~= body_close());
    let n: usize = html.len();
    let mut out: Vec<u8> = Vec::new();
    match rfind(html, body_end.as_slice()) {
        Some(p) => {
            proof {
                lemma_last_occurrence_bound(html@, body_close(), html@.len() as int);
            }
            push_range(&mut out, html, 0, p);
            push_all(&mut out, open.as_slice());
            push_all(&mut out, script);
            push_all(&mut out, close.as_slice());
            push_range(&mut out, html, p, n);
        },
        None => {
            push_range(&mut out, html, 0, n);
            assert(html@.subrange(0, n as int) =~= html@);
            push_all(&mut out, open.as_slice());
            push_all(&mut out, script);
            push_all(&mut out, close.as_slice());
        },
    }
    assert(out@ =~= injected(html@, script@));
    out
}

/// Same as `inject_customs_script`.
pub fn inject_script(html: &[u8], script: &[u8]) -> (r: Vec<u8>)
    ensures
        r@ == injected(html@, script@),
{
    inject_customs_script(html, script)
}

proof fn lemma_last_occurrence_bound(s: Seq<u8>, pat: Seq<u8>, end: int)
    ensures
        last_occurrence_before(s, pat, end) matches Some(p) ==> 0 <= p && p + pat.len() <= end
            && end <= s.len(),
    decreases end + 1,
{
    if end >= pat.len() && end <= s.len() && !occurs_at(s, pat, end - pat.len()) {
        lemma_last_occurrence_bound(s, pat, end - 1);
    }
}


/// Skips ASCII whitespace forward from `p`.
pub open spec fn skip_spaces(b: Seq<u8>, p: int) -> int
    decreases b.len() - p,
{
    if 0 <= p < b.len() && is_space(b[p]) {
        skip_spaces(b, p + 1)
    } else {
        p
    }
}

/// Skips ASCII whitespace backward from `p` (looking at `b[p - 1]`).
pub open spec fn skip_spaces_back(b: Seq<u8>, p: int) -> int
    decreases p,
{
    if 0 < p <= b.len() && is_space(b[p - 1]) {
        skip_spaces_back(b, p - 1)
    } else {
        p
    }
}

/// A byte of `\w`: a letter, a digit or `_`.
pub open spec fn is_word(c: u8) -> bool {
    (48 <= c && c <= 57) || (65 <= c && c <= 90) || (97 <= c && c <= 122) || c == 95
}

pub open spec fn src_word() -> Seq<u8> {
    seq![115u8, 114, 99]
}

pub open spec fn ads_word() -> Seq<u8> {
    seq![119u8, 105, 110, 100, 111, 119, 46, 97, 100, 115, 98, 121, 103, 111, 111, 103, 108, 101]
}

/// The position of the `=` of the first `src` attribute (whitespace, `src`,
/// optional whitespace, `=`) at or after `p` in the attribute text `a`.
pub open spec fn src_eq_from(a: Seq<u8>, p: int) -> Option<int>
    decreases a.len() + 1 - p,
{
    if p < 0 || p >= a.len() {
        None
    } else if is_space(a[p]) && occurs_at(a, src_word(), p + 1) && skip_spaces(a, p + 4) < a.len()
        && a[skip_spaces(a, p + 4)] == 61u8 {
        Some(skip_spaces(a, p + 4))
    } else {
        src_eq_from(a, p + 1)
    }
}

/// Where a host ends: at `/`, whitespace, a quote, or the end.
pub open spec fn host_end(a: Seq<u8>, p: int) -> int
    decreases a.len() - p,
{
    if p < 0 || p >= a.len() {
        p
    } else if a[p] == 47u8 || is_space(a[p]) || a[p] == 34u8 || a[p] == 39u8 {
        p
    } else {
        host_end(a, p + 1)
    }
}

/// The host of a `src` URL whose `=` is at `q`: optional whitespace, an optional
/// quote, an optional `http:` or `https:`, then `//` and a non-empty host.
pub open spec fn url_host(a: Seq<u8>, q: int) -> Option<Seq<u8>> {
    let u = skip_spaces(a, q + 1);
    let v = if u < a.len() && (a[u] == 34u8 || a[u] == 39u8) {
        u + 1
    } else {
        u
    };
    let w = if occurs_at(a, seq![104u8, 116, 116, 112, 115, 58], v) {
        v + 6
    } else if occurs_at(a, seq![104u8, 116, 116, 112, 58], v) {
        v + 5
    } else {
        v
    };
    if occurs_at(a, seq![47u8, 47], w) && host_end(a, w + 2) > w + 2 {
        Some(a.subrange(w + 2, host_end(a, w + 2)))
    } else {
        None
    }
}

/// The host that the `src` attribute of an opening tag's attribute text names.
pub open spec fn src_host(a: Seq<u8>) -> Option<Seq<u8>> {
    match src_eq_from(a, 0) {
        Some(q) => url_host(a, q),
        None => None,
    }
}

/// `window.adsbygoogle` at `p`, preceded by `word =` with optional whitespace.
pub open spec fn ads_ref_at(b: Seq<u8>, p: int) -> bool {
    occurs_at(b, ads_word(), p) && {
        let q = skip_spaces_back(b, p);
        q > 0 && b[q - 1] == 61u8 && {
            let r = skip_spaces_back(b, q - 1);
            r > 0 && is_word(b[r - 1])
        }
    }
}

/// Some position at or after `p` holds an ads reference.
pub open spec fn ads_ref_from(b: Seq<u8>, p: int) -> bool
    decreases b.len() + 1 - p,
{
    if p < 0 || p > b.len() {
        false
    } else {
        ads_ref_at(b, p) || ads_ref_from(b, p + 1)
    }
}

/// A script element at `i`: the position of the `>` that ends its opening tag,
/// and of the `</script>` that closes it.
pub open spec fn script_element(h: Seq<u8>, i: int) -> Option<(int, int)> {
    if occurs_at(h, script_start(), i) {
        match first_occurrence(h, seq![62u8], i + 7) {
            Some(t) => match first_occurrence(h, script_close(), t + 1) {
                Some(c) => Some((t, c)),
                None => None,
            },
            None => None,
        }
    } else {
        None
    }
}

/// The element with tag end `t` and closing tag at `c` is an ad: an inline
/// script without `src` that references `window.adsbygoogle`, or an external
/// script whose host is blacklisted.
pub open spec fn is_ad(h: Seq<u8>, i: int, t: int, c: int, blacklist: ListModel) -> bool {
    let attrs = h.subrange(i + 7, t);
    let body = h.subrange(t + 1, c);
    (src_eq_from(attrs, 0) is None && ads_ref_from(body, 0)) || (match src_host(attrs) {
        Some(host) => blacklist.hits(host),
        None => false,
    })
}

/// `h` from `i` on, with every ad script element removed.
pub open spec fn strip_from(h: Seq<u8>, i: int, blacklist: ListModel) -> Seq<u8>
    decreases h.len() - i,
{
    if i < 0 || i >= h.len() {
        Seq::empty()
    } else {
        match script_element(h, i) {
            Some((t, c)) => if i + 7 <= t && t < c && c + 9 <= h.len() && is_ad(
                h,
                i,
                t,
                c,
                blacklist,
            ) {
                strip_from(h, c + 9, blacklist)
            } else {
                seq![h[i]] + strip_from(h, i + 1, blacklist)
            },
            None => seq![h[i]] + strip_from(h, i + 1, blacklist),
        }
    }
}

/// `h` with every ad script element removed.
pub open spec fn strip_ads(h: Seq<u8>, blacklist: ListModel) -> Seq<u8> {
    strip_from(h, 0, blacklist)
}

fn skip_spaces_exec(b: &[u8], p: usize) -> (r: usize)
    requires
        p <= b@.len(),
    ensures
        r as int == skip_spaces(b@, p as int),
        p <= r <= b@.len(),
{
    let mut k: usize = p;
    while k < b.len() && is_space_exec(b[k])
        invariant
            p <= k <= b@.len(),
            skip_spaces(b@, p as int) == skip_spaces(b@, k as int),
        decreases b@.len() - k,
    {
        k += 1;
    }
    k
}

fn skip_spaces_back_exec(b: &[u8], p: usize) -> (r: usize)
    requires
        p <= b@.len(),
    ensures
        r as int == skip_spaces_back(b@, p as int),
        r <= p,
{
    let mut k: usize = p;
    while k > 0 && is_space_exec(b[k - 1])
        invariant
            k <= p <= b@.len(),
            skip_spaces_back(b@, p as int) == skip_spaces_back(b@, k as int),
        decreases k,
    {
        k -= 1;
    }
    k
}

fn src_eq_exec(a: &[u8]) -> (r: Option<usize>)
    ensures
        r matches Some(q) ==> src_eq_from(a@, 0) == Some(q as int) && q < a@.len(),
        r is None ==> src_eq_from(a@, 0) is None,
{
    let src: [u8; 3] = [115u8, 114, 99];
    assert(src@ =~= src_word());
    let mut p: usize = 0;
    while p < a.len()
        invariant
            p <= a@.len(),
            src@ == src_word(),
            src_eq_from(a@, 0) == src_eq_from(a@, p as int),
        decreases a@.len() - p,
    {
        if is_space_exec(a[p]) && occurs_at_exec(a, src.as_slice(), p + 1) {
            let q = skip_spaces_exec(a, p + 4);
            if q < a.len() && a[q] == 61u8 {
                return Some(q);
            }
        }
        p += 1;
    }
    None
}

fn host_end_exec(a: &[u8], p: usize) -> (r: usize)
    requires
        p <= a@.len(),
    ensures
        r as int == host_end(a@, p as int),
        p <= r <= a@.len(),
{
    let mut k: usize = p;
    while k < a.len() && !(a[k] == 47u8 || is_space_exec(a[k]) || a[k] == 34u8 || a[k] == 39u8)
        invariant
            p <= k <= a@.len(),
            host_end(a@, p as int) == host_end(a@, k as int),
        decreases a@.len() - k,
    {
        k += 1;
    }
    k
}

fn url_host_exec(a: &[u8], q: usize) -> (r: Option<Vec<u8>>)
    requires
        q < a@.len(),
    ensures
        r matches Some(h) ==> url_host(a@, q as int) == Some(h@),
        r is None ==> url_host(a@, q as int) is None,
{
    let https: [u8; 6] = [104u8, 116, 116, 112, 115, 58];
    let http: [u8; 5] = [104u8, 116, 116, 112, 58];
    let slashes: [u8; 2] = [47u8, 47];
    assert(https@ =~= seq![104u8, 116, 116, 112, 115, 58]);
    assert(http@ =~= seq![104u8, 116, 116, 112, 58]);
    assert(slashes@ =~= seq![47u8, 47]);
    let alen: usize = a.len();
    let u = skip_spaces_exec(a, q + 1);
    let v: usize = if u < a.len() && (a[u] == 34u8 || a[u] == 39u8) {
        u + 1
    } else {
        u
    };
    let w: usize = if occurs_at_exec(a, https.as_slice(), v) {
        v + 6
    } else if occurs_at_exec(a, http.as_slice(), v) {
        v + 5
    } else {
        v
    };
    if occurs_at_exec(a, slashes.as_slice(), w) {
        let e = host_end_exec(a, w + 2);
        if e > w + 2 {
            return Some(slice_to_vec(a, w + 2, e));
        }
    }
    None
}

fn ads_ref_exec(b: &[u8]) -> (r: bool)
    ensures
        r == ads_ref_from(b@, 0),
{
    let word: [u8; 18] = [119u8, 105, 110, 100, 111, 119, 46, 97, 100, 115, 98, 121, 103, 111, 111, 103, 108, 101];
    assert(word@ =~= ads_word());
    let mut p: usize = 0;
    loop
        invariant
            p <= b@.len(),
            word@ == ads_word(),
            ads_ref_from(b@, 0) == ads_ref_from(b@, p as int),
        decreases b@.len() - p,
    {
        if occurs_at_exec(b, word.as_slice(), p) {
            let q = skip_spaces_back_exec(b, p);
            if q > 0 && b[q - 1] == 61u8 {
                let r = skip_spaces_back_exec(b, q - 1);
                if r > 0 && is_word_exec(b[r - 1]) {
                    return true;
                }
            }
        }
        if p == b.len() {
            assert(ads_ref_from(b@, p + 1) == false);
            return false;
        }
        p += 1;
    }
}

fn is_word_exec(c: u8) -> (r: bool)
    ensures
        r == is_word(c),
{
    (48 <= c && c <= 57) || (65 <= c && c <= 90) || (97 <= c && c <= 122) || c == 95
}

fn script_element_exec(h: &[u8], i: usize) -> (r: Option<(usize, usize)>)
    requires
        i <= h@.len(),
    ensures
        r matches Some((t, c)) ==> script_element(h@, i as int) == Some((t as int, c as int))
            && i + 7 <= t < c && c + 9 <= h@.len(),
        r is None ==> script_element(h@, i as int) is None,
{
    let open: [u8; 7] = [60u8, 115, 99, 114, 105, 112, 116];
    let gt: [u8; 1] = [62u8];
    let close: [u8; 9] = [60u8, 47, 115, 99, 114, 105, 112, 116, 62];
    assert(open@ =~= script_start());
    assert(gt@ =~= seq![62u8]);
    assert(close@ =~= script_close());
    let hlen: usize = h.len();
    if !occurs_at_exec(h, open.as_slice(), i) {
        return None;
    }
    match find_from(h, gt.as_slice(), i + 7) {
        Some(t) => match find_from(h, close.as_slice(), t + 1) {
            Some(c) => Some((t, c)),
            None => None,
        },
        None => None,
    }
}

/// Removes ad scripts from `html`: inline scripts without `src` that reference
/// `window.adsbygoogle`, and external scripts whose host the blacklist holds.
pub fn remove_ad_scripts(html: &[u8], filter: &DomainFilter) -> (r: Vec<u8>)
    requires
        filter@.well_formed(),
    ensures
        r@ == strip_ads(html@, filter@.blacklist),
{
    let ghost bl = filter@.blacklist;
    let mut out: Vec<u8> = Vec::new();
    let mut i: usize = 0;
    let n: usize = html.len();
    loop
        invariant
            i <= html@.len(),
            n == html@.len(),
            bl == filter@.blacklist,
            filter@.well_formed(),
            out@ + strip_from(html@, i as int, bl) == strip_ads(html@, bl),
        decreases html@.len() - i,
    {
        if i >= n {
            assert(out@ + Seq::<u8>::empty() =~= out@);
            return out;
        }
        let ghost before = out@;
        match script_element_exec(html, i) {
            Some((t, c)) => {
                let attrs = slice_to_vec(html, i + 7, t);
                let body = slice_to_vec(html, t + 1, c);
                let inline_ad = src_eq_exec(attrs.as_slice()).is_none() && ads_ref_exec(
                    body.as_slice(),
                );
                let external_ad = match src_eq_exec(attrs.as_slice()) {
                    Some(q) => match url_host_exec(attrs.as_slice(), q) {
                        Some(host) => filter.blacklist.hits(host.as_slice()),
                        None => false,
                    },
                    None => false,
                };
                assert((inline_ad || external_ad) == is_ad(html@, i as int, t as int, c as int, bl));
                if inline_ad || external_ad {
                    i = c + 9;
                    continue ;
                }
            },
            None => {},
        }
        out.push(html[i]);
        assert(out@ + strip_from(html@, i + 1, bl) =~= before + strip_from(html@, i as int, bl));
        i += 1;
    }
}

/// The four Content-Security-Policy header names.
pub open spec fn csp_name(k: int) -> Seq<u8> {
    if k == 0 {
        seq![67u8, 111, 110, 116, 101, 110, 116, 45, 83, 101, 99, 117, 114, 105, 116, 121, 45, 80, 111, 108, 105, 99, 121]
    } else if k == 1 {
        seq![88u8, 45, 67, 111, 110, 116, 101, 110, 116, 45, 83, 101, 99, 117, 114, 105, 116, 121, 45, 80, 111, 108, 105, 99, 121]
    } else if k == 2 {
        seq![67u8, 111, 110, 116, 101, 110, 116, 45, 83, 101, 99, 117, 114, 105, 116, 121, 45, 80, 111, 108, 105, 99, 121, 45, 82, 101, 112, 111, 114, 116, 45, 79, 110, 108, 121]
    } else {
        seq![88u8, 45, 87, 101, 98, 75, 105, 116, 45, 67, 83, 80]
    }
}

/// A header set without any of the four CSP headers, whatever their case.
pub open spec fn strip_csp(hs: Seq<(Seq<u8>, Seq<u8>)>) -> Seq<(Seq<u8>, Seq<u8>)> {
    without_header(
        without_header(without_header(without_header(hs, csp_name(0)), csp_name(1)), csp_name(2)),
        csp_name(3),
    )
}

/// Removes the CSP headers from a header set.
pub fn strip_csp_headers(headers: &mut Vec<Header>)
    ensures
        headers_view(final(headers)@) == strip_csp(headers_view(old(headers)@)),
{
    let a: [u8; 23] = [67u8, 111, 110, 116, 101, 110, 116, 45, 83, 101, 99, 117, 114, 105, 116, 121, 45, 80, 111, 108, 105, 99, 121];
    let b: [u8; 25] = [88u8, 45, 67, 111, 110, 116, 101, 110, 116, 45, 83, 101, 99, 117, 114, 105, 116, 121, 45, 80, 111, 108, 105, 99, 121];
    let c: [u8; 35] = [67u8, 111, 110, 116, 101, 110, 116, 45, 83, 101, 99, 117, 114, 105, 116, 121, 45, 80, 111, 108, 105, 99, 121, 45, 82, 101, 112, 111, 114, 116, 45, 79, 110, 108, 121];
    let d: [u8; 12] = [88u8, 45, 87, 101, 98, 75, 105, 116, 45, 67, 83, 80];
    assert(a@ =~= csp_name(0));
    assert(b@ =~= csp_name(1));
    assert(c@ =~= csp_name(2));
    assert(d@ =~= csp_name(3));
    remove_header(headers, a.as_slice());
    remove_header(headers, b.as_slice());
    remove_header(headers, c.as_slice());
    remove_header(headers, d.as_slice());
}

/// Removes the CSP headers from a response.
pub fn csp_stripping(response: &mut HttpResponse)
    ensures
        headers_view(final(response).headers@) == strip_csp(headers_view(old(response).headers@)),
        final(response).version == old(response).version,
        final(response).status_code == old(response).status_code,
        final(response).status_text == old(response).status_text,
        final(response).body == old(response).body,
{
    strip_csp_headers(&mut response.headers);
}


pub open spec fn content_type_name() -> Seq<u8> {
    seq![67u8, 111, 110, 116, 101, 110, 116, 45, 84, 121, 112, 101]
}

pub open spec fn html_word() -> Seq<u8> {
    seq![116u8, 101, 120, 116, 47, 104, 116, 109, 108]
}

pub open spec fn charset_word() -> Seq<u8> {
    seq![99u8, 104, 97, 114, 115, 101, 116, 61]
}

pub open spec fn latin1_word() -> Seq<u8> {
    seq![105u8, 115, 111, 45, 56, 56, 53, 57, 45, 49]
}

/// The marker script's text.
pub open spec fn marker() -> Seq<u8> {
    seq![99u8, 111, 110, 115, 111, 108, 101, 46, 108, 111, 103, 40, 39, 73, 110, 106, 101, 99, 116, 101, 100, 32, 115, 99, 114, 105, 112, 116, 32, 98, 121, 32, 78, 101, 116, 119, 111, 114, 107, 32, 65, 100, 109, 105, 110, 105, 115, 116, 114, 97, 116, 111, 114, 39, 41, 59]
}

/// The marker script's text: a console message naming the proxy.
pub fn marker_script() -> (r: Vec<u8>)
    ensures
        r@ == marker(),
{
    let m: [u8; 56] = [99u8, 111, 110, 115, 111, 108, 101, 46, 108, 111, 103, 40, 39, 73, 110, 106, 101, 99, 116, 101, 100, 32, 115, 99, 114, 105, 112, 116, 32, 98, 121, 32, 78, 101, 116, 119, 111, 114, 107, 32, 65, 100, 109, 105, 110, 105, 115, 116, 114, 97, 116, 111, 114, 39, 41, 59];
    assert(m@ =~= marker());
    slice_to_vec(m.as_slice(), 0, 56)
}

/// A `Content-Type` value that announces HTML.
pub open spec fn is_html(ct: Seq<u8>) -> bool {
    first_occurrence(ct, html_word(), 0) is Some
}

/// The charset that a `Content-Type` value declares: what follows `charset=`,
/// up to any `;`.
pub open spec fn declared_charset(ct: Seq<u8>) -> Option<Seq<u8>> {
    match first_occurrence(ct, charset_word(), 0) {
        Some(k) => {
            let rest = ct.subrange(k + 8, ct.len() as int);
            match first_occurrence(rest, seq![59u8], 0) {
                Some(e) => Some(rest.subrange(0, e)),
                None => Some(rest),
            }
        },
        None => None,
    }
}

/// The `Content-Type` value declares ISO-8859-1, in any case.
pub open spec fn is_latin1(ct: Seq<u8>) -> bool {
    match declared_charset(ct) {
        Some(c) => lower(c) == latin1_word(),
        None => false,
    }
}

/// The UTF-8 encoding of one ISO-8859-1 byte.
pub open spec fn latin1_char(b: u8) -> Seq<u8> {
    if b < 128 {
        seq![b]
    } else {
        seq![(192 + b / 64) as u8, (128 + b % 64) as u8]
    }
}

/// ISO-8859-1 bytes re-encoded as UTF-8, each byte mapped to the character of
/// the same number.
pub open spec fn latin1_to_utf8(b: Seq<u8>) -> Seq<u8>
    decreases b.len(),
{
    if b.len() == 0 {
        Seq::empty()
    } else {
        latin1_to_utf8(b.drop_last()) + latin1_char(b.last())
    }
}

/// What `String::from_utf8_lossy` makes of `b`, as UTF-8 bytes.
pub uninterp spec fn utf8_lossy(b: Seq<u8>) -> Seq<u8>;

/// Relies on `String::from_utf8_lossy`: invalid sequences become U+FFFD, and
/// valid UTF-8 comes back unchanged.
#[verifier::external_body]
fn lossy_utf8(b: &[u8]) -> (r: Vec<u8>)
    ensures
        r@ == utf8_lossy(b@),
        vstd::utf8::valid_utf8(b@) ==> r@ == b@,
{
    String::from_utf8_lossy(b).into_owned().into_bytes()
}

/// Re-encodes ISO-8859-1 bytes as UTF-8.
pub fn decode_latin1(b: &[u8]) -> (r: Vec<u8>)
    ensures
        r@ == latin1_to_utf8(b@),
{
    let mut out: Vec<u8> = Vec::new();
    let mut i: usize = 0;
    while i < b.len()
        invariant
            0 <= i <= b@.len(),
            out@ == latin1_to_utf8(b@.subrange(0, i as int)),
        decreases b@.len() - i,
    {
        assert(b@.subrange(0, i + 1).drop_last() =~= b@.subrange(0, i as int));
        let x = b[i];
        if x < 128 {
            out.push(x);
        } else {
            out.push(192 + x / 64);
            out.push(128 + x % 64);
        }
        assert(out@ =~= latin1_to_utf8(b@.subrange(0, i + 1)));
        i += 1;
    }
    assert(b@.subrange(0, i as int) =~= b@);
    out
}

fn is_latin1_exec(ct: &[u8]) -> (r: bool)
    ensures
        r == is_latin1(ct@),
{
    let cs: [u8; 8] = [99u8, 104, 97, 114, 115, 101, 116, 61];
    let semi: [u8; 1] = [59u8];
    let l1: [u8; 10] = [105u8, 115, 111, 45, 56, 56, 53, 57, 45, 49];
    assert(cs@ =~= charset_word());
    assert(semi@ =~= seq![59u8]);
    assert(l1@ =~= latin1_word());
    let n: usize = ct.len();
    match find_from(ct, cs.as_slice(), 0) {
        Some(k) => {
            let rest = slice_to_vec(ct, k + 8, n);
            let value = match find_from(rest.as_slice(), semi.as_slice(), 0) {
                Some(e) => slice_to_vec(rest.as_slice(), 0, e),
                None => rest,
            };
            let low = crate::codec::to_lower(value.as_slice());
            crate::text::bytes_equal(low.as_slice(), l1.as_slice())
        },
        None => false,
    }
}

/// The text of an HTML body: ISO-8859-1 re-encoded when declared, else UTF-8
/// with invalid sequences replaced.
pub open spec fn html_text(ct: Seq<u8>, body: Seq<u8>) -> Seq<u8> {
    if is_latin1(ct) {
        latin1_to_utf8(body)
    } else {
        utf8_lossy(body)
    }
}

/// The body a response leaves with: for HTML, its text with ad scripts removed
/// and the marker script injected; otherwise unchanged.
pub open spec fn mutated_body(
    hs: Seq<(Seq<u8>, Seq<u8>)>,
    body: Option<Seq<u8>>,
    blacklist: ListModel,
) -> Option<Seq<u8>> {
    match header_value(hs, content_type_name()) {
        Some(ct) => if is_html(ct) {
            let raw = match body {
                Some(b) => b,
                None => Seq::empty(),
            };
            Some(injected(strip_ads(html_text(ct, raw), blacklist), marker()))
        } else {
            body
        },
        None => body,
    }
}

/// Rewrites a response for the client: strips the CSP headers, and for an HTML
/// body removes ad scripts, decodes the charset and injects the marker script.
pub fn analyze_and_modify_response(resp: &HttpResponse, filter: &DomainFilter) -> (r: HttpResponse)
    requires
        filter@.well_formed(),
    ensures
        r.version@ == resp.version@,
        r.status_code == resp.status_code,
        r.status_text@ == resp.status_text@,
        headers_view(r.headers@) == strip_csp(headers_view(resp.headers@)),
        body_view(r.body) == mutated_body(
            strip_csp(headers_view(resp.headers@)),
            body_view(resp.body),
            filter@.blacklist,
        ),
{
    let mut out = resp.copy();
    strip_csp_headers(&mut out.headers);
    let ctn: [u8; 12] = [67u8, 111, 110, 116, 101, 110, 116, 45, 84, 121, 112, 101];
    let hw: [u8; 9] = [116u8, 101, 120, 116, 47, 104, 116, 109, 108];
    assert(ctn@ =~= content_type_name());
    assert(hw@ =~= html_word());
    match get_header(&out.headers, ctn.as_slice()) {
        Some(ct) => {
            if find_from(ct.as_slice(), hw.as_slice(), 0).is_some() {
                let raw = match &out.body {
                    Some(b) => crate::text::copy_bytes(b),
                    None => Vec::new(),
                };
                assert(raw@ == match body_view(resp.body) {
                    Some(b) => b,
                    None => Seq::<u8>::empty(),
                });
                let text = if is_latin1_exec(ct.as_slice()) {
                    decode_latin1(raw.as_slice())
                } else {
                    lossy_utf8(raw.as_slice())
                };
                let cleaned = remove_ad_scripts(text.as_slice(), filter);
                let m = marker_script();
                out.body = Some(inject_customs_script(cleaned.as_slice(), m.as_slice()));
            }
        },
        None => {},
    }
    out
}

/// None of the four CSP headers, in any case, is left in the headers a stripped
/// response goes out with.
pub proof fn lemma_csp_absent(hs: Seq<(Seq<u8>, Seq<u8>)>, body: Option<Seq<u8>>, k: int)
    requires
        0 <= k < 4,
    ensures
        forall|j: int|
            0 <= j < crate::message::wire_headers(strip_csp(hs), body).len() ==> !eq_ignore_case(
                #[trigger] crate::message::wire_headers(strip_csp(hs), body)[j].0,
                csp_name(k),
            ),
{
    let m = csp_name(k);
    let h0 = without_header(hs, csp_name(0));
    let h1 = without_header(h0, csp_name(1));
    let h2 = without_header(h1, csp_name(2));
    let h3 = without_header(h2, csp_name(3));
    assert(eq_ignore_case(csp_name(k), m));
    if k == 0 {
        lemma_without_header_absent(hs, csp_name(0), m);
    }
    if k <= 1 {
        lemma_without_header_absent(h0, csp_name(1), m);
    }
    if k <= 2 {
        lemma_without_header_absent(h1, csp_name(2), m);
    }
    lemma_without_header_absent(h2, csp_name(3), m);
    match body {
        Some(b) => {
            let t = crate::codec::transfer_encoding_name();
            let e = crate::codec::content_encoding_name();
            let l = crate::codec::content_length_name();
            assert(lower(t).len() != lower(m).len());
            assert(lower(e).len() != lower(m).len());
            assert(lower(l).len() != lower(m).len());
            lemma_without_header_absent(h3, t, m);
            lemma_without_header_absent(without_header(h3, t), e, m);
            let h6 = without_header(without_header(h3, t), e);
            lemma_without_header_absent(h6, l, m);
            let w = crate::message::wire_headers(strip_csp(hs), body);
            let h7 = without_header(h6, l);
            assert(w == h7.push((l, crate::codec::decimal(b.len()))));
            assert forall|j: int| 0 <= j < w.len() implies !eq_ignore_case(#[trigger] w[j].0, m) by {
                if j < h7.len() {
                    assert(w[j] == h7[j]);
                }
            }
        },
        None => {},
    }
}

} // verus!
