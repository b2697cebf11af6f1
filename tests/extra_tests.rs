use network_administrator::cache::{should_bypass_http_request, CacheMetrics};
use network_administrator::chunked::ParseError;
use network_administrator::codec::{find_head_end, parse_connect, Header};
use network_administrator::config::{ports_conflict, LogFormat, LogLevel, OutputFormat, ProxyCommand, ProxyConfig};
use network_administrator::resolve::{first_of_family, IpAddress, ResolveError};
use network_administrator::sniff::{EtherType, PacketDecoder};

fn h(n: &str, v: &str) -> Header {
    Header { name: n.as_bytes().to_vec(), value: v.as_bytes().to_vec() }
}

#[test]
fn head_end_found_after_empty_line() {
    assert_eq!(find_head_end(b"GET / HTTP/1.1\r\nHost: a\r\n\r\nbody"), Ok(Some(27)));
    assert_eq!(find_head_end(b"GET / HTTP/1.1\nHost: a\n\nbody"), Ok(Some(24)));
    assert_eq!(find_head_end(b"GET / HTTP/1.1\r\nHost: a\r\n"), Ok(None));
    assert_eq!(find_head_end(b""), Ok(None));
}

#[test]
fn head_with_too_many_lines_is_refused() {
    let mut buf = Vec::new();
    for _ in 0..101 {
        buf.extend_from_slice(b"X: y\r\n");
    }
    buf.extend_from_slice(b"\r\n");
    assert_eq!(find_head_end(&buf), Err(ParseError::HeadersTooLarge));
    let mut ok = Vec::new();
    for _ in 0..100 {
        ok.extend_from_slice(b"X: y\r\n");
    }
    ok.extend_from_slice(b"\r\n");
    assert_eq!(find_head_end(&ok), Ok(Some(602)));
}

#[test]
fn connect_head_parses() {
    let p = parse_connect(b"CONNECT example.com:443 HTTP/1.1\r\nHost: example.com:443\r\n\r\n").unwrap();
    assert_eq!(p.method, b"CONNECT".to_vec());
    assert_eq!(p.authority, b"example.com:443".to_vec());
    assert_eq!(p.version, b"HTTP/1.1".to_vec());
    assert_eq!(p.header_lines, vec![b"Host: example.com:443".to_vec()]);
    assert!(parse_connect(b"CONNECT\r\n\r\n").is_err());
}

#[test]
fn cache_bypass_rules() {
    assert!(should_bypass_http_request(false, &vec![]));
    assert!(!should_bypass_http_request(true, &vec![]));
    assert!(should_bypass_http_request(true, &vec![h("Cache-Control", "no-store")]));
    assert!(!should_bypass_http_request(true, &vec![h("Cache-Control", "max-age=0"), h("Pragma", "no-cache")]));
    assert!(should_bypass_http_request(true, &vec![h("Pragma", "no-cache")]));
    assert!(should_bypass_http_request(true, &vec![h("X-Proxy-Bypass-Cache", "1")]));
}

#[test]
fn cache_metrics_count() {
    let mut m = CacheMetrics::new();
    m.record_hit(10);
    m.record_hit(5);
    m.record_miss();
    assert_eq!((m.hits, m.misses, m.bytes_saved), (2, 1, 15));
}

#[test]
fn ether_types() {
    assert_eq!(EtherType::from_u16(0x0800), EtherType::Ipv4);
    assert_eq!(EtherType::from_u16(0x0806), EtherType::Arp);
    assert_eq!(EtherType::from_u16(0x86DD), EtherType::Unknown(0x86DD));
    assert_eq!(EtherType::Unknown(7).to_u16(), 7);
    assert_eq!(EtherType::Arp.to_u16(), 0x0806);
}

#[test]
fn frame_fields() {
    let mut pkt = vec![1, 2, 3, 4, 5, 6, 10, 11, 12, 13, 14, 15, 0x08, 0x06];
    pkt.extend_from_slice(&[9, 9]);
    let d = PacketDecoder::from_packet(&pkt);
    assert_eq!(d.dst_mac, [1, 2, 3, 4, 5, 6]);
    assert_eq!(d.src_mac, [10, 11, 12, 13, 14, 15]);
    assert_eq!(d.ethertype, EtherType::Arp);
    assert_eq!(d.payload, vec![9, 9]);
}

#[test]
fn config_from_command_line() {
    let cmd = ProxyCommand {
        host: "127.0.0.1".to_string(),
        port: 8080,
        ipv6: false,
        log_level: LogLevel::Info,
        log_file: None,
        log_format: LogFormat::Pretty,
        log_max_files: None,
        admin_port: 8000,
        intercept_tls: true,
        block_ads: false,
        cache_enabled: true,
    };
    assert_eq!(
        ProxyConfig::from_cli(&cmd),
        ProxyConfig { intercept_tls: true, block_ads: false, cache_enabled: true }
    );
    assert!(!ports_conflict(&cmd));
    assert_eq!(OutputFormat::Yaml.to_string(), "YAML");
    assert_eq!(OutputFormat::Txt.to_string(), "TXT");
}

#[test]
fn first_address_of_family() {
    let v6 = IpAddress::V6([0; 16]);
    let a = IpAddress::V4([10, 0, 0, 1]);
    let b = IpAddress::V4([10, 0, 0, 2]);
    assert_eq!(first_of_family(&vec![v6, a, b], true), Ok(a));
    assert_eq!(first_of_family(&vec![v6, a, b], false), Ok(v6));
    assert_eq!(first_of_family(&vec![a, b], false), Err(ResolveError::NoAddressOfFamily));
    assert_eq!(first_of_family(&vec![], true), Err(ResolveError::NoAddressOfFamily));
}

#[test]
fn ipv4_and_arp_payload_fields() {
    let mut pkt = vec![0u8; 12];
    pkt.extend_from_slice(&[0x08, 0x00]);
    let ip: Vec<u8> = (0u8..20).collect();
    pkt.extend_from_slice(&ip);
    let d = PacketDecoder::from_packet(&pkt);
    let f = d.decode_payload();
    let names: Vec<&str> = f.iter().map(|(n, _)| n.as_str()).collect();
    assert_eq!(names, vec!["IpVersion", "Ttl", "Protocol", "SrcIp", "DstIp"]);
    assert_eq!(f[1].1, vec![8]);
    assert_eq!(f[3].1, vec![12, 13, 14, 15]);

    let mut arp = vec![0u8; 12];
    arp.extend_from_slice(&[0x08, 0x06]);
    arp.extend((0u8..28).collect::<Vec<u8>>());
    let f = PacketDecoder::from_packet(&arp).decode_payload();
    assert_eq!(f.len(), 9);
    assert_eq!(f[8].0, "TargetIp".to_string());
    assert_eq!(f[8].1, vec![24, 25, 26, 27]);

    let mut other = vec![0u8; 12];
    other.extend_from_slice(&[0x86, 0xDD]);
    assert!(PacketDecoder::from_packet(&other).decode_payload().is_empty());
}

#[test]
fn mac_addresses_as_text() {
    let mut pkt = vec![0x00, 0x1a, 0x2b, 0xff, 0x0c, 0x9d, 0xde, 0xad, 0xbe, 0xef, 0x00, 0x01];
    pkt.extend_from_slice(&[0x08, 0x00]);
    let d = PacketDecoder::from_packet(&pkt);
    assert_eq!(d.dst_mac_to_string(), "00:1a:2b:ff:0c:9d");
    assert_eq!(d.src_mac_to_string(), "de:ad:be:ef:00:01");
}
