use std::io::Write;

use network_administrator::codec::{get_header, Header};
use network_administrator::config::{check_ca_expiry, check_ca_rotation, CaError, CaStatus, ProxyConfig};
use network_administrator::filter::{add_domain_to_blacklist, DomainFilter, ListConfigType};
use network_administrator::message::{HttpResponse, Response};
use network_administrator::mutate::{
    analyze_and_modify_response, csp_stripping, decode_latin1, inject_customs_script, inject_script,
    marker_script, remove_ad_scripts,
};

fn h(n: &str, v: &str) -> Header {
    Header { name: n.as_bytes().to_vec(), value: v.as_bytes().to_vec() }
}

fn html_response(ct: &str, body: &[u8]) -> HttpResponse {
    HttpResponse {
        version: b"HTTP/1.1".to_vec(),
        status_code: 200,
        status_text: b"OK".to_vec(),
        headers: vec![h("Content-Type", ct)],
        body: Some(body.to_vec()),
    }
}

#[test]
fn inline_ad_removed_other_script_kept() {
    let f = DomainFilter::new();
    let html = b"<p>a</p><script>(adsbygoogle = window.adsbygoogle || []).push({});</script><script>console.log('x');</script>";
    let out = remove_ad_scripts(html, &f);
    assert_eq!(out, b"<p>a</p><script>console.log('x');</script>".to_vec());
}

#[test]
fn inline_script_with_src_is_not_an_inline_ad() {
    let f = DomainFilter::new();
    let html = b"<script src=\"/local.js\">x = window.adsbygoogle</script>";
    assert_eq!(remove_ad_scripts(html, &f), html.to_vec());
}

#[test]
fn external_ad_removed_when_host_blacklisted() {
    let mut f = DomainFilter::new();
    add_domain_to_blacklist(&mut f, "pagead2.googlesyndication.com", ListConfigType::Exact).unwrap();
    let html = b"<head><script src=\"https://pagead2.googlesyndication.com/x.js\"></script><script src=\"https://ajax.googleapis.com/jquery.js\"></script></head>";
    let out = remove_ad_scripts(html, &f);
    assert_eq!(
        out,
        b"<head><script src=\"https://ajax.googleapis.com/jquery.js\"></script></head>".to_vec()
    );
}

#[test]
fn protocol_relative_src_is_checked() {
    let mut f = DomainFilter::new();
    add_domain_to_blacklist(&mut f, "*.doubleclick.net", ListConfigType::Wildcard).unwrap();
    let html = b"a<script async src='//ad.doubleclick.net/t.js'></script>b";
    assert_eq!(remove_ad_scripts(html, &f), b"ab".to_vec());
}

#[test]
fn injection_before_last_body_close() {
    let out = inject_customs_script(b"<body>x</body><body>y</body>", b"go()");
    assert_eq!(out, b"<body>x</body><body>y<script>go()</script></body>".to_vec());
}

#[test]
fn injection_appended_without_body_close() {
    let out = inject_script(b"<p>x</p>", b"go()");
    assert_eq!(out, b"<p>x</p><script>go()</script>".to_vec());
}

#[test]
fn csp_headers_removed_whatever_their_case() {
    let mut resp = html_response("text/plain", b"x");
    resp.headers.push(h("content-security-policy", "a"));
    resp.headers.push(h("X-CONTENT-SECURITY-POLICY", "b"));
    resp.headers.push(h("Content-Security-Policy-Report-Only", "c"));
    resp.headers.push(h("x-webkit-csp", "d"));
    resp.headers.push(h("X-Other", "e"));
    let f = DomainFilter::new();
    let out = analyze_and_modify_response(&resp, &f);
    assert_eq!(out.headers.len(), 2);
    assert_eq!(get_header(&out.headers, b"x-other"), Some(b"e".to_vec()));
    let wire = network_administrator::message::encode_response(&out);
    let text = String::from_utf8(wire).unwrap().to_lowercase();
    assert!(!text.contains("security-policy"));
    assert!(!text.contains("webkit-csp"));
    let mut r2 = html_response("text/plain", b"x");
    r2.headers.push(h("Content-Security-Policy", "a"));
    csp_stripping(&mut r2);
    assert_eq!(r2.headers.len(), 1);
}

#[test]
fn html_response_gets_marker_and_loses_ads() {
    let f = DomainFilter::new();
    let body = b"<body><script>a = window.adsbygoogle;</script>hi</body>";
    let out = analyze_and_modify_response(&html_response("text/html; charset=utf-8", body), &f);
    let mut expected = b"<body>hi<script>".to_vec();
    expected.extend_from_slice(&marker_script());
    expected.extend_from_slice(b"</script></body>");
    assert_eq!(out.body, Some(expected));
    assert_eq!(
        marker_script(),
        b"console.log('Injected script by Network Administrator');".to_vec()
    );
}

#[test]
fn non_html_body_is_untouched() {
    let f = DomainFilter::new();
    let out = analyze_and_modify_response(&html_response("application/json", b"{\"a\":1}"), &f);
    assert_eq!(out.body, Some(b"{\"a\":1}".to_vec()));
}

#[test]
fn latin1_body_is_reencoded() {
    assert_eq!(decode_latin1(&[0x41, 0xE9]), "A\u{e9}".as_bytes().to_vec());
    let f = DomainFilter::new();
    let out = analyze_and_modify_response(&html_response("text/html; charset=ISO-8859-1", &[0xE9]), &f);
    let body = out.body.unwrap();
    assert!(body.starts_with("\u{e9}<script>".as_bytes()));
}

#[test]
fn invalid_utf8_is_replaced() {
    let f = DomainFilter::new();
    let out = analyze_and_modify_response(&html_response("text/html", &[0xFF]), &f);
    assert!(out.body.unwrap().starts_with("\u{fffd}".as_bytes()));
}

#[test]
fn response_body_accessors() {
    let mut r = Response::Http(html_response("text/html", b"abc"));
    assert_eq!(r.body_as_string(), Some("abc".to_string()));
    r.set_body(vec![0xFF]);
    assert_eq!(r.body_as_string(), None);
    r.set_body_str("xyz");
    assert_eq!(r.body_as_string(), Some("xyz".to_string()));
    r.headers_mut().push(h("X", "1"));
    assert_eq!(r.headers().len(), 2);
}

#[test]
fn expired_ca_disables_interception() {
    let mut c = ProxyConfig { intercept_tls: true, block_ads: true, cache_enabled: false };
    assert_eq!(check_ca_expiry(&mut c, 1_000, 2_000), Err(CaError::Expired));
    assert_eq!(c, ProxyConfig { intercept_tls: false, block_ads: true, cache_enabled: false });
}

#[test]
fn ca_expiry_warning_window() {
    let mut c = ProxyConfig { intercept_tls: true, block_ads: false, cache_enabled: false };
    assert_eq!(check_ca_expiry(&mut c, 2_000 + 86_400, 2_000), Ok(CaStatus::ExpiringSoon));
    assert_eq!(check_ca_expiry(&mut c, 2_000 + 40 * 86_400, 2_000), Ok(CaStatus::Valid));
    assert!(c.intercept_tls);
}

#[test]
fn identical_ca_is_rejected() {
    assert_eq!(check_ca_rotation(b"c", Some(b"c"), b"k", Some(b"k2")), Err(CaError::Identical));
    assert_eq!(check_ca_rotation(b"c", Some(b"old"), b"k", None), Ok(()));
    assert_eq!(check_ca_rotation(b"c", None, b"k", None), Ok(()));
}

#[test]
fn encoders_available_for_fixtures() {
    let mut e = flate2::write::GzEncoder::new(Vec::new(), flate2::Compression::default());
    e.write_all(b"x").unwrap();
    assert!(!e.finish().unwrap().is_empty());
}
