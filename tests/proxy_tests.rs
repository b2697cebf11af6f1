use std::io::Write;

use network_administrator::chunked::{decode_chunked, Chunked};
use network_administrator::codec::{parse_response_head, Header};
use network_administrator::config::ProxyConfig;
use network_administrator::filter::{
    add_domain_to_blacklist, add_domain_to_whitelist, DomainFilter, ListConfigType,
};
use network_administrator::message::{HttpResponse, HttpsRequest};
use network_administrator::proxy::{
    classify_connection, connect_reply, forbidden_response, handle_client_request,
    handle_origin_response, host_of, http_request_blocked, is_ad_request_based_on_uri,
    read_first_line, select_https_path, split_authority, upstream_method, ClientAction,
    HttpsPath, Method, Route,
};
use network_administrator::proxy::{
    split_absolute_target, upstream_error_response, upstream_protocol, UpstreamProtocol,
};

fn cfg(intercept: bool, block: bool) -> ProxyConfig {
    ProxyConfig { intercept_tls: intercept, block_ads: block, cache_enabled: false }
}

fn h(n: &str, v: &str) -> Header {
    Header { name: n.as_bytes().to_vec(), value: v.as_bytes().to_vec() }
}

#[test]
fn connect_goes_to_https_and_get_to_http() {
    assert_eq!(classify_connection(b"CONNECT example.com:443 HTTP/1.1\r\n"), Route::Https);
    assert_eq!(classify_connection(b"GET / HTTP/1.1\r\n"), Route::Http);
    assert_eq!(classify_connection(b""), Route::Http);
}

#[test]
fn tunnel_when_interception_off() {
    let f = DomainFilter::new();
    let line = read_first_line(b"CONNECT example.com:443 HTTP/1.1\r\nHost: example.com\r\n\r\n");
    assert_eq!(line, b"CONNECT example.com:443 HTTP/1.1".to_vec());
    assert_eq!(select_https_path(&cfg(false, false), &line, &f), HttpsPath::Tunnel);
    assert_eq!(
        connect_reply(b"HTTP/1.1"),
        b"HTTP/1.1 200 Connection Established\r\n\r\n".to_vec()
    );
}

#[test]
fn intercept_unless_whitelisted() {
    let mut f = DomainFilter::new();
    let line = b"CONNECT example.com:443 HTTP/1.1";
    assert_eq!(select_https_path(&cfg(true, false), line, &f), HttpsPath::Intercept);
    add_domain_to_whitelist(&mut f, "example.com", ListConfigType::Exact).unwrap();
    assert_eq!(select_https_path(&cfg(true, false), line, &f), HttpsPath::Tunnel);
}

#[test]
fn authority_parts() {
    assert_eq!(split_authority(b"example.com:443"), Some((b"example.com".to_vec(), 443)));
    assert_eq!(split_authority(b"example.com"), None);
    assert_eq!(split_authority(b"example.com:99999"), None);
    assert_eq!(host_of(b"example.com:443"), b"example.com".to_vec());
    assert_eq!(host_of(b"example.com"), b"example.com".to_vec());
}

#[test]
fn blacklisted_http_host_gets_403() {
    let mut f = DomainFilter::new();
    add_domain_to_blacklist(&mut f, "doubleclick.net", ListConfigType::Wildcard).unwrap();
    assert!(http_request_blocked(&cfg(false, true), Some(b"ads.doubleclick.net"), &f));
    assert!(!http_request_blocked(&cfg(false, false), Some(b"ads.doubleclick.net"), &f));
    assert!(!http_request_blocked(&cfg(false, true), None, &f));
    let r = forbidden_response();
    assert_eq!(r.status_code, 403);
    assert_eq!(r.body, Some(b"403 Forbidden".to_vec()));
}

#[test]
fn methods_map_literally_or_to_get() {
    assert_eq!(upstream_method(b"POST"), Method::Post);
    assert_eq!(upstream_method(b"PATCH"), Method::Patch);
    assert_eq!(upstream_method(b"HEAD"), Method::Head);
    assert_eq!(upstream_method(b"PUT"), Method::Put);
    assert_eq!(upstream_method(b"DELETE"), Method::Delete);
    assert_eq!(upstream_method(b"OPTIONS"), Method::Get);
}

#[test]
fn intercepted_ad_request_gets_204() {
    let mut f = DomainFilter::new();
    add_domain_to_blacklist(&mut f, "ads.example", ListConfigType::Exact).unwrap();
    assert!(is_ad_request_based_on_uri(b"ads.example:443", &f));
    let req = HttpsRequest {
        method: b"GET".to_vec(),
        version: b"HTTP/1.1".to_vec(),
        uri: b"ads.example:443".to_vec(),
        headers: vec![],
        body: None,
    };
    match handle_client_request(&cfg(true, true), &req, b"HTTP/1.1", &f) {
        ClientAction::Respond(b) => assert_eq!(
            b,
            b"HTTP/1.1 204 No Content\r\nContent-Length: 32\r\n\r\nBlocked by Network Administrator".to_vec()
        ),
        ClientAction::Forward(_) => panic!("should be blocked"),
    }
    match handle_client_request(&cfg(true, false), &req, b"HTTP/1.1", &f) {
        ClientAction::Forward(b) => assert_eq!(b, b"GET ads.example:443 HTTP/1.1\r\n\r\n".to_vec()),
        ClientAction::Respond(_) => panic!("should be forwarded"),
    }
}

#[test]
fn chunked_brotli_gzip_origin_response() {
    let plain = b"<html><body>hello</body></html>".to_vec();
    let mut gz = flate2::write::GzEncoder::new(Vec::new(), flate2::Compression::default());
    gz.write_all(&plain).unwrap();
    let gzipped = gz.finish().unwrap();
    let mut br = Vec::new();
    {
        let mut w = brotli::CompressorWriter::new(&mut br, 4096, 11, 22);
        w.write_all(&plain).unwrap();
    }
    // "br, gzip": brotli applied first, gzip outermost.
    let mut inner = Vec::new();
    {
        let mut w = brotli::CompressorWriter::new(&mut inner, 4096, 11, 22);
        w.write_all(&plain).unwrap();
    }
    let mut gz2 = flate2::write::GzEncoder::new(Vec::new(), flate2::Compression::default());
    gz2.write_all(&inner).unwrap();
    let encoded = gz2.finish().unwrap();
    assert!(!gzipped.is_empty() && !br.is_empty());
    let mut wire = format!("{:x}\r\n", encoded.len()).into_bytes();
    wire.extend_from_slice(&encoded);
    wire.extend_from_slice(b"\r\n0\r\n\r\n");
    let body = match decode_chunked(&wire).unwrap() {
        Chunked::Complete { body, .. } => body,
        Chunked::Incomplete => panic!("incomplete"),
    };
    let head = parse_response_head(
        b"HTTP/1.1 200 OK\r\nContent-Type: text/plain\r\nContent-Encoding: br, gzip\r\nTransfer-Encoding: chunked\r\n\r\n",
    )
    .unwrap();
    let resp = HttpResponse {
        version: head.version,
        status_code: head.status_code,
        status_text: head.status_text,
        headers: head.headers,
        body: Some(body),
    };
    let f = DomainFilter::new();
    let out = handle_origin_response(resp, &f).unwrap();
    let mut expected = format!(
        "HTTP/1.1 200 OK\r\nContent-Type: text/plain\r\nContent-Length: {}\r\n\r\n",
        plain.len()
    )
    .into_bytes();
    expected.extend_from_slice(&plain);
    assert_eq!(out, expected);
}

#[test]
fn origin_html_gets_marker_and_csp_removed() {
    let resp = HttpResponse {
        version: b"HTTP/1.1".to_vec(),
        status_code: 200,
        status_text: b"OK".to_vec(),
        headers: vec![h("Content-Type", "text/html"), h("Content-Security-Policy", "default-src 'self'")],
        body: Some(b"<body>x</body>".to_vec()),
    };
    let f = DomainFilter::new();
    let out = String::from_utf8(handle_origin_response(resp, &f).unwrap()).unwrap();
    assert!(out.contains("x<script>console.log('Injected script by Network Administrator');</script></body>"));
    assert!(!out.contains("Content-Security-Policy"));
}

#[test]
fn undecodable_origin_body_is_an_error() {
    let resp = HttpResponse {
        version: b"HTTP/1.1".to_vec(),
        status_code: 200,
        status_text: b"OK".to_vec(),
        headers: vec![h("Content-Encoding", "gzip")],
        body: Some(b"plain".to_vec()),
    };
    assert!(handle_origin_response(resp, &DomainFilter::new()).is_err());
}

#[test]
fn upstream_protocol_follows_announced_version() {
    assert_eq!(upstream_protocol(b"HTTP/0.9"), UpstreamProtocol::Http09);
    assert_eq!(upstream_protocol(b"HTTP/2.0"), UpstreamProtocol::Http2PriorKnowledge);
    assert_eq!(upstream_protocol(b"HTTP/2"), UpstreamProtocol::Http2PriorKnowledge);
    assert_eq!(upstream_protocol(b"HTTP/1.0"), UpstreamProtocol::Http1Only);
    assert_eq!(upstream_protocol(b"HTTP/1.1"), UpstreamProtocol::Http1Only);
    assert_eq!(Method::Delete.token(), b"DELETE".to_vec());
}

#[test]
fn absolute_targets() {
    assert_eq!(split_absolute_target(b"http://a.example"), Some((b"a.example".to_vec(), b"/".to_vec())));
    assert_eq!(
        split_absolute_target(b"http://ads.doubleclick.net:8081/x?y=1"),
        Some((b"ads.doubleclick.net:8081".to_vec(), b"/x?y=1".to_vec()))
    );
    assert_eq!(split_absolute_target(b"http:///x"), None);
    assert_eq!(split_absolute_target(b"/relative"), None);
}

#[test]
fn upstream_failure_becomes_200_with_message() {
    let r = upstream_error_response(b"Error: refused".to_vec());
    assert_eq!(r.status_code, 200);
    assert_eq!(r.status_text, b"OK".to_vec());
    assert!(r.headers.is_empty());
    assert_eq!(r.body, Some(b"Error: refused".to_vec()));
}
