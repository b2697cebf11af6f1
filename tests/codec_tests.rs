use std::io::Write;

use network_administrator::chunked::{decode_chunked, Chunked, ParseError};
use network_administrator::codec::{
    body_framing, get_header, parse_decimal, parse_first_line_buffer, parse_headers,
    parse_request_head, parse_response_head, remove_header, request_body_length, set_header,
    split, BodyFraming, Header,
};
use network_administrator::encoding::{
    content_codings, decode_brotli, decode_content, decode_deflate, decode_gzip, decode_zstd,
    Coding, DecodeError,
};
use network_administrator::message::{encode_request, encode_response, HttpResponse, HttpsRequest};

fn gzip(data: &[u8]) -> Vec<u8> {
    let mut e = flate2::write::GzEncoder::new(Vec::new(), flate2::Compression::default());
    e.write_all(data).unwrap();
    e.finish().unwrap()
}

fn brotli_enc(data: &[u8]) -> Vec<u8> {
    let mut out = Vec::new();
    {
        let mut w = brotli::CompressorWriter::new(&mut out, 4096, 11, 22);
        w.write_all(data).unwrap();
    }
    out
}

fn h(n: &str, v: &str) -> Header {
    Header { name: n.as_bytes().to_vec(), value: v.as_bytes().to_vec() }
}

#[test]
fn chunked_wikipedia() {
    let r = decode_chunked(b"4\r\nWiki\r\n5\r\npedia\r\n0\r\n\r\n").unwrap();
    match r {
        Chunked::Complete { body, consumed } => {
            assert_eq!(body, b"Wikipedia".to_vec());
            assert_eq!(consumed, 24);
        }
        Chunked::Incomplete => panic!("expected a complete body"),
    }
}

#[test]
fn chunked_with_extension_and_trailer() {
    let r = decode_chunked(b"a;name=x\r\n0123456789\r\n0\r\nX-T: 1\r\n\r\nrest").unwrap();
    match r {
        Chunked::Complete { body, consumed } => {
            assert_eq!(body, b"0123456789".to_vec());
            assert_eq!(consumed, 35);
        }
        Chunked::Incomplete => panic!("expected a complete body"),
    }
}

#[test]
fn chunked_incomplete_and_invalid() {
    assert!(matches!(decode_chunked(b"4\r\nWi"), Ok(Chunked::Incomplete)));
    assert!(matches!(decode_chunked(b""), Ok(Chunked::Incomplete)));
    assert!(matches!(decode_chunked(b"zz\r\n"), Err(ParseError::BadChunkSize)));
    assert!(matches!(decode_chunked(b"\r\n"), Err(ParseError::BadChunkSize)));
}

#[test]
fn gzip_then_brotli_is_undone_brotli_first() {
    let plain = b"hello encoded world".to_vec();
    let body = brotli_enc(&gzip(&plain));
    assert_eq!(content_codings(b"gzip, br"), vec![Coding::Gzip, Coding::Brotli]);
    assert_eq!(decode_content(body, b"gzip, br").unwrap(), plain);
}

#[test]
fn coding_tokens() {
    assert_eq!(
        content_codings(b"deflate,zstd , identity,,x-custom"),
        vec![Coding::Deflate, Coding::Zstd, Coding::Identity, Coding::Identity, Coding::Unknown]
    );
    assert_eq!(decode_content(b"abc".to_vec(), b"identity, x-custom").unwrap(), b"abc".to_vec());
}

#[test]
fn decoders_round_trip_and_fail() {
    let plain = b"some text to squeeze".to_vec();
    assert_eq!(decode_gzip(&gzip(&plain)).unwrap(), plain);
    assert_eq!(decode_brotli(&brotli_enc(&plain)).unwrap(), plain);
    let mut d = flate2::write::DeflateEncoder::new(Vec::new(), flate2::Compression::default());
    d.write_all(&plain).unwrap();
    assert_eq!(decode_deflate(&d.finish().unwrap()).unwrap(), plain);
    assert_eq!(decode_zstd(&zstd::encode_all(&plain[..], 3).unwrap()).unwrap(), plain);
    assert_eq!(decode_gzip(b"not gzip"), Err(DecodeError::Gzip));
    assert_eq!(decode_content(b"not gzip".to_vec(), b"gzip"), Err(DecodeError::Gzip));
}

#[test]
fn request_head_parses() {
    let head = b"GET /index.html HTTP/1.1\r\nHost: example.com\r\nContent-Length: 5\r\n\r\n";
    let r = parse_request_head(head).unwrap();
    assert_eq!(r.method, b"GET".to_vec());
    assert_eq!(r.target, b"/index.html".to_vec());
    assert_eq!(r.version, b"HTTP/1.1".to_vec());
    assert_eq!(r.headers.len(), 2);
    assert_eq!(get_header(&r.headers, b"host"), Some(b"example.com".to_vec()));
    assert_eq!(request_body_length(&r.headers), 5);
}

#[test]
fn malformed_request_line() {
    assert!(matches!(parse_request_head(b"GET /\r\n\r\n"), Err(ParseError::MalformedRequestLine)));
    assert!(matches!(
        parse_first_line_buffer(b"CONNECT a b c"),
        Err(ParseError::MalformedRequestLine)
    ));
    let (m, a, v) = parse_first_line_buffer(b"CONNECT example.com:443 HTTP/1.1").unwrap();
    assert_eq!((m, a, v), (b"CONNECT".to_vec(), b"example.com:443".to_vec(), b"HTTP/1.1".to_vec()));
}

#[test]
fn response_head_parses() {
    let head = b"HTTP/1.1 404 Not Found\r\nContent-Type: text/html\r\nTransfer-Encoding: Chunked\r\n\r\n";
    let r = parse_response_head(head).unwrap();
    assert_eq!(r.version, b"HTTP/1.1".to_vec());
    assert_eq!(r.status_code, 404);
    assert_eq!(r.status_text, b"Not Found".to_vec());
    assert_eq!(body_framing(&r.headers), Ok(BodyFraming::Chunked));
    assert!(matches!(parse_response_head(b"HTTP/1.1 abc OK\r\n\r\n"), Err(ParseError::MalformedStatusLine)));
    assert!(matches!(parse_response_head(b"HTTP/1.1\r\n\r\n"), Err(ParseError::MalformedStatusLine)));
    assert!(matches!(parse_response_head(b"HTTP/1.1 70000 X\r\n\r\n"), Err(ParseError::MalformedStatusLine)));
}

#[test]
fn framing_rules() {
    assert_eq!(body_framing(&vec![h("Content-Length", "12")]), Ok(BodyFraming::Length(12)));
    assert_eq!(body_framing(&vec![h("content-length", "x")]), Err(ParseError::BadContentLength));
    assert_eq!(body_framing(&vec![h("Transfer-Encoding", "gzip")]), Ok(BodyFraming::NoBody));
    assert_eq!(body_framing(&vec![]), Ok(BodyFraming::NoBody));
    assert_eq!(request_body_length(&vec![h("Content-Length", "oops")]), 0);
    assert_eq!(parse_decimal(b"65536"), Some(65536));
    assert_eq!(parse_decimal(b""), None);
    assert_eq!(parse_decimal(b"99999999999999999999999"), None);
}

#[test]
fn header_set_semantics() {
    let lines = vec![b"A: 1".to_vec(), b"no separator".to_vec(), b"a: 2".to_vec(), b"B: x: y".to_vec()];
    let hs = parse_headers(&lines);
    assert_eq!(hs.len(), 2);
    assert_eq!(hs[0].name, b"A".to_vec());
    assert_eq!(hs[0].value, b"2".to_vec());
    assert_eq!(hs[1].value, b"x: y".to_vec());
    let mut hs = hs;
    set_header(&mut hs, b"C", b"3".to_vec());
    remove_header(&mut hs, b"a");
    assert_eq!(hs.len(), 2);
    assert_eq!(get_header(&hs, b"c"), Some(b"3".to_vec()));
}

#[test]
fn split_keeps_empty_pieces() {
    assert_eq!(split(b"a,,b", b","), vec![b"a".to_vec(), b"".to_vec(), b"b".to_vec()]);
    assert_eq!(split(b"", b","), vec![b"".to_vec()]);
}

#[test]
fn response_serialization_sets_length_and_drops_codings() {
    let resp = HttpResponse {
        version: b"HTTP/1.1".to_vec(),
        status_code: 200,
        status_text: b"OK".to_vec(),
        headers: vec![h("Content-Encoding", "gzip"), h("X-A", "1"), h("transfer-encoding", "chunked")],
        body: Some(b"hello".to_vec()),
    };
    let wire = encode_response(&resp);
    assert_eq!(wire, b"HTTP/1.1 200 OK\r\nX-A: 1\r\nContent-Length: 5\r\n\r\nhello".to_vec());
}

#[test]
fn response_without_body_keeps_headers() {
    let resp = HttpResponse {
        version: b"HTTP/1.0".to_vec(),
        status_code: 304,
        status_text: b"Not Modified".to_vec(),
        headers: vec![h("ETag", "x")],
        body: None,
    };
    assert_eq!(encode_response(&resp), b"HTTP/1.0 304 Not Modified\r\nETag: x\r\n\r\n".to_vec());
}

#[test]
fn request_serialization() {
    let req = HttpsRequest {
        method: b"POST".to_vec(),
        version: b"HTTP/1.1".to_vec(),
        uri: b"/api".to_vec(),
        headers: vec![h("Host", "example.com")],
        body: Some(b"{}".to_vec()),
    };
    assert_eq!(encode_request(&req), b"POST /api HTTP/1.1\r\nHost: example.com\r\n\r\n{}".to_vec());
}

#[test]
fn duplicate_content_length_collapses_to_one() {
    let resp = HttpResponse {
        version: b"HTTP/1.1".to_vec(),
        status_code: 200,
        status_text: b"OK".to_vec(),
        headers: vec![h("Content-Length", "1"), h("X-A", "1"), h("content-length", "7")],
        body: Some(b"xy".to_vec()),
    };
    let wire = encode_response(&resp);
    assert_eq!(wire, b"HTTP/1.1 200 OK\r\nX-A: 1\r\nContent-Length: 2\r\n\r\nxy".to_vec());
}
