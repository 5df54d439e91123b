use cilium_mini::classifier::{dns_tc, get_ipv4_header_len, parse_udp, try_dns_tc, TC_ACT_OK};
use cilium_mini::cilium_common::{RawIpAddr, AF_INET, AF_INET6};
use cilium_mini::watcher_classifier;
use cilium_mini::watcher_common;

fn eth(ether_type: u16) -> Vec<u8> {
    let mut f = vec![0xAA; 12];
    f.extend_from_slice(&ether_type.to_be_bytes());
    f
}

fn ipv4_udp(src_port: u16, dst_port: u16, payload: &[u8]) -> Vec<u8> {
    let mut f = eth(0x0800);
    f.extend_from_slice(&[0x45, 0, 0, 0, 0, 0, 0, 0, 64, 17, 0, 0, 8, 8, 8, 8, 192, 168, 1, 10]);
    f.extend_from_slice(&src_port.to_be_bytes());
    f.extend_from_slice(&dst_port.to_be_bytes());
    f.extend_from_slice(&[0, 0, 0, 0]);
    f.extend_from_slice(payload);
    f
}

fn ipv6_udp(src_port: u16, payload: &[u8]) -> Vec<u8> {
    let mut f = eth(0x86DD);
    f.extend_from_slice(&[0x60, 0, 0, 0, 0, 0, 17, 64]);
    let src: Vec<u8> = (1..=16).collect();
    let dst: Vec<u8> = (101..=116).collect();
    f.extend_from_slice(&src);
    f.extend_from_slice(&dst);
    f.extend_from_slice(&src_port.to_be_bytes());
    f.extend_from_slice(&[0x9c, 0x40, 0, 0, 0, 0]);
    f.extend_from_slice(payload);
    f
}

#[test]
fn ipv4_dns_response_yields_event() {
    let frame = ipv4_udp(53, 40000, &[1, 2, 3, 4, 5]);
    let d = dns_tc(&frame, 99);
    assert_eq!(d.action, TC_ACT_OK);
    let e = d.event.expect("event");
    assert_eq!(e.src_ip.bytes[..4], [8, 8, 8, 8]);
    assert_eq!(e.src_ip.family, AF_INET);
    assert_eq!(e.dst_ip.bytes[..4], [192, 168, 1, 10]);
    assert_eq!(e.src_port, 53);
    assert_eq!(e.dst_port, 40000);
    assert_eq!(e.payload_len, 5);
    assert_eq!(&e.payload[..5], &[1, 2, 3, 4, 5]);
    assert_eq!(e.payload[5], 0);
    assert_eq!(e.timestamp_ns, 99);
}

#[test]
fn ipv6_dns_response_yields_event() {
    let frame = ipv6_udp(53, &[9; 20]);
    let e = dns_tc(&frame, 1).event.expect("event");
    assert_eq!(e.src_ip.family, AF_INET6);
    assert_eq!(e.src_ip.bytes.to_vec(), (1..=16).collect::<Vec<u8>>());
    assert_eq!(e.dst_ip.bytes.to_vec(), (101..=116).collect::<Vec<u8>>());
    assert_eq!(e.dst_port, 40000);
    assert_eq!(e.payload_len, 20);
}

#[test]
fn queries_and_other_traffic_pass_without_event() {
    let query = ipv4_udp(40000, 53, &[1, 2, 3]);
    let d = dns_tc(&query, 0);
    assert_eq!(d.action, TC_ACT_OK);
    assert!(d.event.is_none());
    let mut tcp = ipv4_udp(53, 40000, &[1]);
    tcp[14 + 9] = 6;
    assert!(dns_tc(&tcp, 0).event.is_none());
    assert!(try_dns_tc(&tcp, 0).is_ok());
    let arp = eth(0x0806);
    assert!(dns_tc(&arp, 0).event.is_none());
    assert!(try_dns_tc(&arp, 0).is_ok());
}

#[test]
fn empty_payload_yields_no_event() {
    let frame = ipv4_udp(53, 40000, &[]);
    let r = try_dns_tc(&frame, 0).unwrap();
    assert!(r.event.is_none());
}

#[test]
fn malformed_frames_pass() {
    assert!(try_dns_tc(&[0; 10], 0).is_err());
    assert_eq!(dns_tc(&[0; 10], 0).action, TC_ACT_OK);
    let truncated_ip = &ipv4_udp(53, 1, &[1])[..20];
    assert!(try_dns_tc(truncated_ip, 0).is_err());
    let mut bad_ihl = ipv4_udp(53, 1, &[1]);
    bad_ihl[14] = 0x44;
    assert!(try_dns_tc(&bad_ihl, 0).is_err());
    let mut unnamed_proto = ipv4_udp(53, 1, &[1]);
    unnamed_proto[14 + 9] = 200;
    assert!(try_dns_tc(&unnamed_proto, 0).is_err());
    let truncated_udp = &ipv4_udp(53, 1, &[])[..38];
    assert!(try_dns_tc(truncated_udp, 0).is_err());
}

#[test]
fn payload_is_cut_at_512_bytes() {
    let payload: Vec<u8> = (0..700u32).map(|i| (i % 251) as u8).collect();
    let frame = ipv4_udp(53, 5353, &payload);
    let e = dns_tc(&frame, 0).event.expect("event");
    assert_eq!(e.payload_len, 512);
    assert_eq!(e.payload.to_vec(), payload[..512].to_vec());
}

#[test]
fn ipv4_header_length_bounds() {
    assert_eq!(get_ipv4_header_len(&[0x45]), Ok(20));
    assert_eq!(get_ipv4_header_len(&[0x4F]), Ok(60));
    assert_eq!(get_ipv4_header_len(&[0x44]), Err(()));
}

#[test]
fn options_move_the_udp_header() {
    let mut frame = eth(0x0800);
    frame.extend_from_slice(&[0x46, 0, 0, 0, 0, 0, 0, 0, 64, 17, 0, 0, 1, 1, 1, 1, 2, 2, 2, 2]);
    frame.extend_from_slice(&[0, 0, 0, 0]);
    frame.extend_from_slice(&[0, 53, 0x30, 0x39, 0, 0, 0, 0, 42]);
    let e = dns_tc(&frame, 0).event.expect("event");
    assert_eq!(e.dst_port, 12345);
    assert_eq!(e.payload_len, 1);
    assert_eq!(e.payload[0], 42);
}

#[test]
fn parse_udp_reads_ports() {
    let src = RawIpAddr::from_ipv4([1, 2, 3, 4]);
    let dst = RawIpAddr::from_ipv4([5, 6, 7, 8]);
    let dgram = [0, 53, 0, 80, 0, 0, 0, 0, 7, 7];
    let e = parse_udp(&dgram, 0, src, dst, 5).unwrap().unwrap();
    assert_eq!(e.dst_port, 80);
    assert_eq!(e.payload_len, 2);
    assert!(parse_udp(&dgram[..7], 0, src, dst, 5).is_err());
    assert!(parse_udp(&[0, 54, 0, 80, 0, 0, 0, 0, 7], 0, src, dst, 5).unwrap().is_none());
}

#[test]
fn watcher_ipv4_dns_response_yields_event() {
    let frame = ipv4_udp(53, 40000, &[1, 2, 3]);
    let d = watcher_classifier::dns_tc(&frame);
    assert_eq!(d.action, TC_ACT_OK);
    let e = d.event.expect("event");
    assert_eq!(e.src_ip.family, watcher_common::AF_INET);
    assert_eq!(e.src_ip.bytes[..4], [8, 8, 8, 8]);
    assert_eq!(e.src_ip.bytes[4..], [0; 12]);
    assert_eq!(e.dst_port, 40000);
    assert_eq!(e.payload_len, 3);
    assert_eq!(&e.payload[..3], &[1, 2, 3]);
}

#[test]
fn watcher_ipv6_and_filters() {
    let e = watcher_classifier::dns_tc(&ipv6_udp(53, &[5; 600])).event.expect("event");
    assert_eq!(e.src_ip.family, watcher_common::AF_INET6);
    assert_eq!(e.payload_len, 512);
    assert!(watcher_classifier::dns_tc(&ipv6_udp(80, &[5])).event.is_none());
    assert!(watcher_classifier::try_dns_tc(&ipv4_udp(53, 1, &[])).is_err());
    assert!(watcher_classifier::try_dns_tc(&[1, 2, 3]).is_err());
    assert_eq!(watcher_classifier::get_ipv4_header_len(&[0x45]), 20);
    assert_eq!(watcher_classifier::get_ipv4_header_len(&[0x40]), 0);
}

#[test]
fn watcher_address_constructor() {
    let a = watcher_common::RawIpAddr::new([7; 16], watcher_common::AF_INET6);
    assert_eq!(a.bytes, [7; 16]);
    assert_eq!(a.family, 10);
    assert_eq!(a._pad, [0; 7]);
}

#[test]
fn captured_event_decodes_end_to_end() {
    let mut dns = vec![0xab, 0xcd, 0x81, 0x80, 0, 1, 0, 1, 0, 0, 0, 0];
    dns.extend_from_slice(&[3, b'a', b'p', b'i', 6, b'g', b'i', b't', b'h', b'u', b'b', 3, b'c', b'o', b'm', 0, 0, 1, 0, 1]);
    dns.extend_from_slice(&[0xC0, 0x0C, 0, 1, 0, 1, 0, 0, 0, 30, 0, 4, 140, 82, 121, 4]);
    let frame = ipv4_udp(53, 41000, &dns);
    let event = dns_tc(&frame, 123).event.expect("event");
    let mut slot = cilium_mini::dns::DnsResponse::default();
    assert_eq!(cilium_mini::dns::parse_dns_into(&event, &mut slot), Ok(()));
    assert_eq!(slot.src_ip, "8.8.8.8");
    assert_eq!(slot.dst_ip, "192.168.1.10");
    assert_eq!(slot.dst_port, 41000);
    assert_eq!(slot.timestamp_ns, 123);
    assert_eq!(slot.domain_name, "api.github.com");
    assert_eq!(slot.resolved_ip, "140.82.121.4");
    let engine = cilium_mini::policy::FqdnPolicyEngine::new(vec!["api.github.com".to_string()]);
    let ip = engine.allowed_ip(&slot).unwrap().unwrap();
    assert_eq!(ip.bytes[..4], [140, 82, 121, 4]);
}

#[test]
fn parse_udp_keeps_any_addresses() {
    let mut src = RawIpAddr::from_ipv4([1, 2, 3, 4]);
    src._pad = 0xdead;
    let dst = RawIpAddr::from_ipv6([9; 16]);
    let dgram = [0, 53, 0, 80, 0, 0, 0, 0, 7];
    let e = parse_udp(&dgram, 0, src, dst, 5).unwrap().unwrap();
    assert_eq!(e.src_ip.bytes, src.bytes);
    assert_eq!(e.src_ip.family, AF_INET);
    assert_eq!(e.src_ip._pad, 0xdead);
    assert_eq!(e.dst_ip.bytes, [9; 16]);
    assert_eq!(e.dst_ip.family, AF_INET6);
    assert!(parse_udp(&[0, 53, 0, 80, 0, 0, 0, 0], 0, src, dst, 5).unwrap().is_none());
    assert!(parse_udp(&[0, 54, 0, 80, 0, 0, 0, 0, 1], 0, src, dst, 5).unwrap().is_none());
}

#[test]
fn watcher_parse_udp_keeps_any_addresses() {
    let mut src = watcher_common::RawIpAddr::new([4; 16], watcher_common::AF_INET);
    src._pad = [1; 7];
    let dst = watcher_common::RawIpAddr::new([5; 16], watcher_common::AF_INET6);
    let dgram = [0, 53, 0, 80, 0, 0, 0, 0, 7, 8];
    let e = watcher_classifier::parse_udp(&dgram, 0, src, dst).unwrap().unwrap();
    assert_eq!(e.src_ip.bytes, [4; 16]);
    assert_eq!(e.src_ip._pad, [1; 7]);
    assert_eq!(e.dst_ip.family, watcher_common::AF_INET6);
    assert_eq!(e.payload_len, 2);
    assert!(watcher_classifier::parse_udp(&[0, 53, 0, 80, 0, 0, 0, 0], 0, src, dst).is_err());
    assert!(watcher_classifier::parse_udp(&[0, 1, 0, 80, 0, 0, 0, 0], 0, src, dst).unwrap().is_none());
}

#[test]
fn watcher_captures_dns_queries() {
    let query = ipv4_udp(40000, 53, &[0xab, 0xcd, 1, 0]);
    let d = watcher_classifier::dns_tc(&query);
    assert_eq!(d.action, TC_ACT_OK);
    let e = d.event.expect("event");
    assert_eq!(e.src_port, 40000);
    assert_eq!(e.dst_port, 53);
    assert_eq!(e.payload_len, 4);
    assert_eq!(&e.payload[..4], &[0xab, 0xcd, 1, 0]);
    assert!(watcher_classifier::dns_tc(&ipv4_udp(40000, 80, &[1])).event.is_none());
    assert!(dns_tc(&query, 0).event.is_none());
}
