use cilium_mini::cilium_common::{RawDnsEvent, RawIpAddr, AF_INET, AF_INET6};
use cilium_mini::dns::{parse_dns_into, parse_qname, skip_name, DnsHdr, DnsParseError, DnsResponse, RecordType};

fn header(answers: u16) -> Vec<u8> {
    let mut h = vec![0x12, 0x34, 0x81, 0x80, 0, 1];
    h.extend_from_slice(&answers.to_be_bytes());
    h.extend_from_slice(&[0, 0, 0, 0]);
    h
}

fn question(labels: &[&str]) -> Vec<u8> {
    let mut q = Vec::new();
    for l in labels {
        q.push(l.len() as u8);
        q.extend_from_slice(l.as_bytes());
    }
    q.push(0);
    q.extend_from_slice(&[0, 1, 0, 1]);
    q
}

fn answer(rtype: u16, rdata: &[u8]) -> Vec<u8> {
    let mut a = vec![0xC0, 0x0C];
    a.extend_from_slice(&rtype.to_be_bytes());
    a.extend_from_slice(&[0, 1, 0, 0, 0, 60]);
    a.extend_from_slice(&(rdata.len() as u16).to_be_bytes());
    a.extend_from_slice(rdata);
    a
}

fn event(payload: &[u8]) -> RawDnsEvent {
    let mut ev = RawDnsEvent::default();
    ev.src_ip = RawIpAddr::from_ipv4([10, 0, 0, 1]);
    ev.dst_ip = RawIpAddr::from_ipv4([192, 168, 1, 20]);
    ev.src_port = 53;
    ev.dst_port = 40000;
    ev.timestamp_ns = 77;
    ev.payload[..payload.len()].copy_from_slice(payload);
    ev.payload_len = payload.len() as u16;
    ev
}

#[test]
fn parses_a_record_response() {
    let mut p = header(1);
    p.extend(question(&["www", "example", "com"]));
    p.extend(answer(1, &[93, 184, 216, 34]));
    let mut slot = DnsResponse::default();
    assert_eq!(parse_dns_into(&event(&p), &mut slot), Ok(()));
    assert_eq!(slot.src_ip, "10.0.0.1");
    assert_eq!(slot.dst_ip, "192.168.1.20");
    assert_eq!(slot.src_port, 53);
    assert_eq!(slot.dst_port, 40000);
    assert_eq!(slot.timestamp_ns, 77);
    assert_eq!(slot.domain_name, "www.example.com");
    assert_eq!(slot.resolved_ip, "93.184.216.34");
    assert_eq!(slot.resolved_ip_raw, vec![93, 184, 216, 34]);
    assert_eq!(slot.ip_family, AF_INET);
}

#[test]
fn parses_aaaa_record_response() {
    let mut p = header(1);
    p.extend(question(&["example", "org"]));
    let addr = [0x20, 0x01, 0x0d, 0xb8, 0, 0, 0, 0, 0, 0, 0, 0, 0, 0, 0, 1];
    p.extend(answer(28, &addr));
    let mut slot = DnsResponse::default();
    assert_eq!(parse_dns_into(&event(&p), &mut slot), Ok(()));
    assert_eq!(slot.domain_name, "example.org");
    assert_eq!(slot.resolved_ip, "2001:db8::1");
    assert_eq!(slot.resolved_ip_raw, addr.to_vec());
    assert_eq!(slot.ip_family, AF_INET6);
}

#[test]
fn header_is_decoded_big_endian() {
    let h = DnsHdr::from(&[0x12, 0x34, 0x81, 0x80, 0, 1, 0, 2, 0, 3, 0, 4, 99]).unwrap();
    assert_eq!(h.transaction_id, 0x1234);
    assert_eq!(h.flags, 0x8180);
    assert_eq!(h.questions, 1);
    assert_eq!(h.answer_rrs, 2);
    assert_eq!(h.authority_rrs, 3);
    assert_eq!(h.additional_rrs, 4);
    assert_eq!(DnsHdr::from(&[0; 11]), Err(DnsParseError::UnexpectedEndOfPayload));
}

#[test]
fn record_types_are_classified() {
    assert_eq!(RecordType::try_from(1), Ok(RecordType::A));
    assert_eq!(RecordType::try_from(5), Ok(RecordType::CNAME));
    assert_eq!(RecordType::try_from(28), Ok(RecordType::AAAA));
    assert_eq!(RecordType::try_from(16), Ok(RecordType::UNSUPPORTED(16)));
}

#[test]
fn skip_name_handles_pointers_and_labels() {
    assert_eq!(skip_name(&[0xC0, 0x0C, 0, 1]), Ok(2));
    assert_eq!(skip_name(&[3, b'a', b'b', b'c', 0, 9]), Ok(5));
    assert_eq!(skip_name(&[3, b'a', b'b', b'c', 0xC0, 0x10]), Ok(6));
    assert_eq!(skip_name(&[0xC0]), Err(DnsParseError::UnexpectedEndOfPayload));
    assert_eq!(skip_name(&[5, b'a']), Err(DnsParseError::UnexpectedEndOfPayload));
    assert_eq!(skip_name(&[2, b'a', b'b']), Err(DnsParseError::UnexpectedEndOfPayload));
    assert_eq!(skip_name(&[0x40, 0]), Err(DnsParseError::InvalidLabelLength(64)));
    assert_eq!(skip_name(&[]), Err(DnsParseError::UnexpectedEndOfPayload));
}

#[test]
fn qname_labels_are_joined_by_dots() {
    let mut out = String::new();
    assert_eq!(parse_qname(&[3, b'a', b'p', b'i', 6, b'g', b'i', b't', b'h', b'u', b'b', 3, b'c', b'o', b'm', 0, 0, 1], &mut out), Ok(16));
    assert_eq!(out, "api.github.com");
    let mut root = String::new();
    assert_eq!(parse_qname(&[0], &mut root), Ok(1));
    assert_eq!(root, "");
}

#[test]
fn qname_errors() {
    let mut out = String::new();
    assert_eq!(parse_qname(&[], &mut out), Err(DnsParseError::UnexpectedEndOfPayload));
    assert_eq!(parse_qname(&[64, 0], &mut out), Err(DnsParseError::InvalidLabelLength(64)));
    assert_eq!(parse_qname(&[3, b'a', b'b'], &mut out), Err(DnsParseError::UnexpectedEndOfPayload));
    let mut partial = String::new();
    assert_eq!(parse_qname(&[1, b'x', 1, 0xFF, 0], &mut partial), Err(DnsParseError::NonAsciiDomainName));
    assert_eq!(partial, "x");
    let mut unterminated = String::new();
    assert_eq!(parse_qname(&[1, b'x'], &mut unterminated), Err(DnsParseError::UnexpectedEndOfPayload));
    assert_eq!(unterminated, "x");
    let mut long = Vec::new();
    for _ in 0..5 {
        long.push(63);
        long.extend(std::iter::repeat(b'a').take(63));
    }
    long.push(0);
    let mut too_long = String::new();
    assert_eq!(parse_qname(&long, &mut too_long), Err(DnsParseError::LabelExceedsMaxLen));
    assert_eq!(too_long.len(), 63 * 3 + 2);
}

#[test]
fn slot_is_cleared_before_decoding() {
    let mut p = header(1);
    p.extend(question(&["a", "b"]));
    p.extend(answer(1, &[1, 2, 3, 4]));
    let mut slot = DnsResponse::default();
    slot.domain_name = "stale.example".to_string();
    slot.resolved_ip = "9.9.9.9".to_string();
    slot.resolved_ip_raw = vec![9, 9, 9, 9];
    slot.ip_family = 10;
    assert_eq!(parse_dns_into(&event(&p), &mut slot), Ok(()));
    assert_eq!(slot.domain_name, "a.b");
    assert_eq!(slot.resolved_ip, "1.2.3.4");
    assert_eq!(slot.resolved_ip_raw, vec![1, 2, 3, 4]);
    assert_eq!(slot.ip_family, AF_INET);
}

#[test]
fn several_answers_are_all_read() {
    let mut p = header(3);
    p.extend(question(&["www", "example", "com"]));
    p.extend(answer(5, &[0xC0, 0x0C]));
    p.extend(answer(1, &[1, 1, 1, 1]));
    p.extend(answer(1, &[8, 8, 4, 4]));
    let mut slot = DnsResponse::default();
    assert_eq!(parse_dns_into(&event(&p), &mut slot), Ok(()));
    assert_eq!(slot.resolved_ip, "1.1.1.18.8.4.4");
    assert_eq!(slot.resolved_ip_raw, vec![1, 1, 1, 1, 8, 8, 4, 4]);
    assert_eq!(slot.ip_family, AF_INET);
}

#[test]
fn unknown_record_types_are_skipped() {
    let mut p = header(2);
    p.extend(question(&["x", "org"]));
    p.extend(answer(16, b"\x05hello"));
    p.extend(answer(1, &[127, 0, 0, 1]));
    let mut slot = DnsResponse::default();
    assert_eq!(parse_dns_into(&event(&p), &mut slot), Ok(()));
    assert_eq!(slot.resolved_ip, "127.0.0.1");
}

#[test]
fn decoding_errors() {
    let mut slot = DnsResponse::default();
    // shorter than a header
    assert_eq!(parse_dns_into(&event(&[0; 11]), &mut slot), Err(DnsParseError::UnexpectedEndOfPayload));
    assert_eq!(slot.src_ip, "10.0.0.1");
    assert_eq!(slot.domain_name, "");
    // a query: nothing follows the question
    let mut q = header(0);
    q.extend(question(&["example", "com"]));
    assert_eq!(parse_dns_into(&event(&q), &mut slot), Err(DnsParseError::UnexpectedEndOfPayload));
    assert_eq!(slot.domain_name, "example.com");
    // the question is cut before QTYPE and QCLASS
    let mut cut = header(1);
    cut.extend(&[1, b'a', 0, 0]);
    assert_eq!(parse_dns_into(&event(&cut), &mut slot), Err(DnsParseError::UnexpectedEndOfPayload));
    // an A record whose data is not four bytes long
    let mut bad_a = header(1);
    bad_a.extend(question(&["a"]));
    bad_a.extend(answer(1, &[1, 2, 3]));
    assert_eq!(parse_dns_into(&event(&bad_a), &mut slot), Err(DnsParseError::UnexpectedEndOfPayload));
    // an AAAA record whose data is not sixteen bytes long
    let mut bad_aaaa = header(1);
    bad_aaaa.extend(question(&["a"]));
    bad_aaaa.extend(answer(28, &[1, 2, 3, 4]));
    assert_eq!(parse_dns_into(&event(&bad_aaaa), &mut slot), Err(DnsParseError::UnexpectedEndOfPayload));
    // fewer records than announced
    let mut missing = header(2);
    missing.extend(question(&["a"]));
    missing.extend(answer(1, &[5, 6, 7, 8]));
    assert_eq!(parse_dns_into(&event(&missing), &mut slot), Err(DnsParseError::UnexpectedEndOfPayload));
    assert_eq!(slot.resolved_ip, "5.6.7.8");
    // an invalid label in the question
    let mut bad_label = header(1);
    bad_label.extend(&[70, 0, 0, 1, 0, 1]);
    assert_eq!(parse_dns_into(&event(&bad_label), &mut slot), Err(DnsParseError::InvalidLabelLength(70)));
}

#[test]
fn unsupported_family_is_refused() {
    let mut p = header(1);
    p.extend(question(&["a"]));
    p.extend(answer(1, &[1, 2, 3, 4]));
    let mut ev = event(&p);
    ev.dst_ip.family = 7;
    let mut slot = DnsResponse::default();
    assert_eq!(parse_dns_into(&ev, &mut slot), Err(DnsParseError::UnsupportedAddressFamily(7)));
    assert_eq!(slot.src_ip, "10.0.0.1");
    assert_eq!(slot.dst_ip, "");
}

#[test]
fn ipv6_endpoints_are_formatted() {
    let mut p = header(1);
    p.extend(question(&["a"]));
    p.extend(answer(1, &[1, 2, 3, 4]));
    let mut ev = event(&p);
    ev.src_ip = RawIpAddr::from_ipv6([0xfe, 0x80, 0, 0, 0, 0, 0, 0, 0, 0, 0, 0, 0, 0, 0, 0x53]);
    let mut slot = DnsResponse::default();
    assert_eq!(parse_dns_into(&ev, &mut slot), Ok(()));
    assert_eq!(slot.src_ip, "fe80::53");
}

#[test]
fn error_messages() {
    assert_eq!(DnsParseError::UnexpectedEndOfPayload.message(), "Unexpected end of DNS payload (truncated packet)");
    assert_eq!(DnsParseError::InvalidLabelLength(64).message(), "Invalid label length: 64 (> 63)");
    assert_eq!(DnsParseError::LabelExceedsMaxLen.message(), "Label exceeds maximum domain length (255)");
    assert_eq!(DnsParseError::NonAsciiDomainName.message(), "Non-ASCII character in domain name");
    assert_eq!(DnsParseError::UnsupportedAddressFamily(3).message(), "Unsupported address family: 3");
    assert_eq!(DnsParseError::FormatError.message(), "Failed to format IP address string");
}

#[test]
fn text_buffers_are_kept() {
    let mut p = header(1);
    p.extend(question(&["a"]));
    p.extend(answer(1, &[1, 2, 3, 4]));
    let mut slot = DnsResponse::default();
    slot.domain_name = String::with_capacity(200);
    slot.resolved_ip = String::with_capacity(100);
    assert_eq!(parse_dns_into(&event(&p), &mut slot), Ok(()));
    assert!(slot.domain_name.capacity() >= 200);
    assert!(slot.resolved_ip.capacity() >= 100);
    assert_eq!(slot.domain_name, "a");
}

#[test]
fn resolved_text_empty_exactly_without_address_bytes() {
    let mut p = header(1);
    p.extend(question(&["a"]));
    p.extend(answer(5, &[0xC0, 0x0C]));
    let mut slot = DnsResponse::default();
    assert_eq!(parse_dns_into(&event(&p), &mut slot), Ok(()));
    assert!(slot.resolved_ip.is_empty() && slot.resolved_ip_raw.is_empty());
    let mut q = header(1);
    q.extend(question(&["a"]));
    q.extend(answer(28, &[0; 16]));
    assert_eq!(parse_dns_into(&event(&q), &mut slot), Ok(()));
    assert_eq!(slot.resolved_ip, "::");
    assert_eq!(slot.resolved_ip_raw.len(), 16);
}

#[test]
fn name_extent_ignores_following_bytes() {
    let name = [3, b'w', b'w', b'w', 0xC0, 0x0C];
    assert_eq!(skip_name(&name), Ok(6));
    let mut longer = name.to_vec();
    longer.extend_from_slice(&[0, 1, 0xff, 7]);
    assert_eq!(skip_name(&longer), Ok(6));
}

#[test]
fn qname_and_skip_name_agree() {
    let q = [3, b'a', b'p', b'i', 3, b'c', b'o', b'm', 0, 0, 1, 0, 1];
    let mut out = String::new();
    assert_eq!(parse_qname(&q, &mut out), Ok(9));
    assert_eq!(skip_name(&q), Ok(9));
}
