use cilium_mini::cilium_common::{AF_INET, AF_INET6};
use cilium_mini::dns::DnsResponse;
use cilium_mini::ingestor::{format_ip, to_proto_event};
use cilium_mini::policy::{FqdnPolicyEngine, ObserverError};
use cilium_mini::reporter::{self, connection_metric_line, http_response, metrics_body, ConnectionInfo, MetricSample};
use cilium_mini::watcher_common::{DnsEvent, IpAddress};

fn response(domain: &str, family: u32, raw: &[u8]) -> DnsResponse {
    let mut r = DnsResponse::default();
    r.domain_name = domain.to_string();
    r.ip_family = family;
    r.resolved_ip_raw = raw.to_vec();
    r
}

#[test]
fn allowed_domain_yields_its_address() {
    let engine = FqdnPolicyEngine::new(vec!["api.github.com".to_string(), "example.org".to_string()]);
    let ip = engine.allowed_ip(&response("api.github.com", AF_INET, &[140, 82, 121, 4])).unwrap().unwrap();
    assert_eq!(ip.bytes[..4], [140, 82, 121, 4]);
    assert_eq!(ip.bytes[4..], [0; 12]);
    assert_eq!(ip.family, AF_INET);
    let v6: Vec<u8> = (0..16).collect();
    let ip6 = engine.allowed_ip(&response("example.org", AF_INET6, &v6)).unwrap().unwrap();
    assert_eq!(ip6.bytes.to_vec(), v6);
    assert_eq!(ip6.family, AF_INET6);
}

#[test]
fn first_address_is_taken() {
    let engine = FqdnPolicyEngine::new(vec!["a.b".to_string()]);
    let ip = engine.allowed_ip(&response("a.b", AF_INET, &[1, 1, 1, 1, 2, 2, 2, 2])).unwrap().unwrap();
    assert_eq!(ip.bytes[..4], [1, 1, 1, 1]);
}

#[test]
fn other_domains_are_skipped() {
    let engine = FqdnPolicyEngine::new(vec!["api.github.com".to_string()]);
    assert_eq!(engine.allowed_ip(&response("evil.com", AF_INET, &[1, 2, 3, 4])).unwrap().is_none(), true);
    assert!(engine.allowed_ip(&response("evil.com", 0, &[])).unwrap().is_none());
    assert!(engine.is_allowed(&"api.github.com".to_string()));
    assert!(!engine.is_allowed(&"github.com".to_string()));
}

#[test]
fn allowed_domain_without_family_is_an_error() {
    let engine = FqdnPolicyEngine::new(vec!["x.y".to_string()]);
    assert_eq!(engine.allowed_ip(&response("x.y", 0, &[])).unwrap_err(), ObserverError::UnparsedAddressFamily);
}

#[test]
fn ingestor_formats_addresses() {
    assert_eq!(format_ip(&IpAddress::V4([127, 0, 0, 1])), "127.0.0.1");
    assert_eq!(format_ip(&IpAddress::V6([0, 0, 0, 0, 0, 0, 0, 0, 0, 0, 0, 0, 0, 0, 0, 1])), "::1");
    assert_eq!(format_ip(&IpAddress::Unknown), "unknown");
}

fn dns_event(name: &[u8], len: u32, is_response: u8) -> DnsEvent {
    let mut domain_name = [0u8; 256];
    domain_name[..name.len()].copy_from_slice(name);
    DnsEvent {
        src_ip: IpAddress::V4([10, 0, 0, 1]),
        dst_ip: IpAddress::V6([0x20, 0x01, 0x0d, 0xb8, 0, 0, 0, 0, 0, 0, 0, 0, 0, 0, 0, 2]),
        src_port: 53,
        dst_port: 3333,
        domain_name,
        domain_len: len,
        resolved_ip: IpAddress::V4([1, 2, 3, 4]),
        is_response,
    }
}

#[test]
fn events_become_log_messages() {
    let m = to_proto_event(&dns_event(b"example.com", 11, 1));
    assert_eq!(m.src_ip, "10.0.0.1");
    assert_eq!(m.dst_ip, "2001:db8::2");
    assert_eq!(m.src_port, 53);
    assert_eq!(m.dst_port, 3333);
    assert_eq!(m.domain_name, "example.com");
    assert_eq!(m.resolved_ip, Some("1.2.3.4".to_string()));
    assert!(m.is_response);
    let q = to_proto_event(&dns_event(b"example.com", 7, 0));
    assert_eq!(q.domain_name, "example");
    assert_eq!(q.resolved_ip, None);
    assert!(!q.is_response);
}

#[test]
fn invalid_utf8_is_replaced() {
    let m = to_proto_event(&dns_event(b"ab\xffcd", 5, 0));
    assert_eq!(m.domain_name, "ab\u{FFFD}cd");
    let whole = to_proto_event(&dns_event(b"abc", 1000, 0));
    assert_eq!(whole.domain_name.len(), 256);
    assert!(whole.domain_name.starts_with("abc\0"));
}

#[test]
fn reporter_formats_addresses_in_hex() {
    assert_eq!(reporter::format_ip(&IpAddress::V4([10, 1, 2, 3])), "10.1.2.3");
    assert_eq!(
        reporter::format_ip(&IpAddress::V6([0x20, 0x01, 0x0d, 0xb8, 0, 0, 0, 0, 0, 0, 0, 0, 0xab, 0xcd, 0, 1])),
        "2001:0db8:0000:0000:0000:0000:abcd:0001"
    );
    assert_eq!(reporter::format_ip(&IpAddress::Unknown), "unknown");
}

#[test]
fn metric_lines() {
    let conn = ConnectionInfo {
        family: 2,
        src_ip: IpAddress::V4([127, 0, 0, 1]),
        src_port: 5555,
        dst_ip: IpAddress::V4([127, 0, 0, 2]),
        dst_port: 80,
    };
    assert_eq!(
        connection_metric_line("tcp_sendmsg", 3, &conn, 1500).unwrap(),
        "packet_watcher_last_connection{function=\"tcp_sendmsg\",cpu=\"3\",family=\"IPv4\",src=\"127.0.0.1:5555\",dst=\"127.0.0.2:80\"} 1500\n"
    );
    let v6 = ConnectionInfo { family: 10, ..conn };
    assert!(connection_metric_line("udp_recvmsg", 0, &v6, 0).unwrap().contains("family=\"IPv6\""));
    let empty = ConnectionInfo { family: 0, ..conn };
    assert!(connection_metric_line("tcp_recvmsg", 0, &empty, 0).is_none());
}

#[test]
fn http_responses_count_bytes() {
    assert_eq!(
        http_response("ab\n"),
        "HTTP/1.1 200 OK\r\nContent-Type: text/plain;\r\nContent-Length: 3\r\n\r\nab\n"
    );
    assert_eq!(
        http_response("é"),
        "HTTP/1.1 200 OK\r\nContent-Type: text/plain;\r\nContent-Length: 2\r\n\r\né"
    );
}

#[test]
fn message_takes_the_given_name() {
    let m = cilium_mini::ingestor::proto_event_with_name(&dns_event(b"ignored", 7, 0), "given.name".to_string());
    assert_eq!(m.domain_name, "given.name");
    assert_eq!(m.src_ip, "10.0.0.1");
    assert_eq!(m.resolved_ip, None);
}

#[test]
fn metrics_body_joins_lines_in_order() {
    let conn = ConnectionInfo {
        family: 2,
        src_ip: IpAddress::V4([1, 1, 1, 1]),
        src_port: 1,
        dst_ip: IpAddress::V4([2, 2, 2, 2]),
        dst_port: 2,
    };
    let samples = vec![
        MetricSample { function_name: "tcp_sendmsg".to_string(), cpu_id: 0, conn, bytes: 10 },
        MetricSample { function_name: "tcp_sendmsg".to_string(), cpu_id: 1, conn: ConnectionInfo { family: 0, ..conn }, bytes: 11 },
        MetricSample { function_name: "udp_recvmsg".to_string(), cpu_id: 2, conn, bytes: 12 },
    ];
    let body = metrics_body(&samples);
    assert_eq!(
        body,
        "packet_watcher_last_connection{function=\"tcp_sendmsg\",cpu=\"0\",family=\"IPv4\",src=\"1.1.1.1:1\",dst=\"2.2.2.2:2\"} 10\n\
packet_watcher_last_connection{function=\"udp_recvmsg\",cpu=\"2\",family=\"IPv4\",src=\"1.1.1.1:1\",dst=\"2.2.2.2:2\"} 12\n"
    );
    assert_eq!(metrics_body(&Vec::new()), "");
}

#[test]
fn observer_error_messages() {
    assert_eq!(ObserverError::UnparsedAddressFamily.message(), "Ip family should be already parsed, so this is a bug");
    assert_eq!(ObserverError::MapUpdateFailed.message(), "failed to insert the address into the allowed IP map");
}

#[test]
fn duplicate_domains_are_kept_once() {
    let engine = FqdnPolicyEngine::new(vec!["a.com".to_string(), "b.com".to_string(), "a.com".to_string()]);
    assert_eq!(engine.allowed_domains, vec!["a.com".to_string(), "b.com".to_string()]);
    assert!(engine.is_allowed(&"b.com".to_string()));
}
