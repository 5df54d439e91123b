//! Turning the watcher's decoded DNS events into the messages of its commit
//! log.
use vstd::prelude::*;
use vstd::string::*;
use vstd::utf8::*;
use crate::text::{
    dotted_quad, ipv6_text, is_dotted_quad_of, lemma_dotted_quad_is_dotted_decimal, push_ipv4,
    push_ipv6,
};
use crate::watcher_common::{DnsEvent, IpAddress};

verus! {

/// The text that `String::from_utf8_lossy` gives for these bytes.
pub uninterp spec fn utf8_lossy_text(bytes: Seq<u8>) -> Seq<char>;

/// Decodes bytes as UTF-8, replacing invalid sequences with U+FFFD
/// (`String::from_utf8_lossy`). The contract claims that the text depends on
/// the bytes alone and, as the documentation says, that valid UTF-8 is
/// decoded unchanged; how invalid sequences are replaced is left unsaid.
#[verifier::external_body]
fn utf8_lossy(bytes: &[u8]) -> (s: String)
    ensures
        s@ == utf8_lossy_text(bytes@),
        valid_utf8(bytes@) ==> s@ == decode_utf8(bytes@),
{
    String::from_utf8_lossy(bytes).into_owned()
}

/// A message of the commit log.
#[derive(Debug)]
pub struct ProtoDnsEvent {
    pub src_ip: String,
    pub dst_ip: String,
    pub src_port: u32,
    pub dst_port: u32,
    pub domain_name: String,
    pub resolved_ip: Option<String>,
    pub is_response: bool,
}

/// The text of an address: dotted decimal for IPv4, the standard library's
/// notation for IPv6, `unknown` otherwise.
pub open spec fn address_text(ip: IpAddress) -> Seq<char> {
    match ip {
        IpAddress::V4(o) => dotted_quad(o@),
        IpAddress::V6(o) => ipv6_text(o@),
        IpAddress::Unknown => "unknown"@,
    }
}

/// The text of `ip`.
pub fn format_ip(ip: &IpAddress) -> (s: String)
    ensures
        s@ == address_text(*ip),
{
    match ip {
        IpAddress::V4(octets) => {
            let mut s = String::new();
            push_ipv4(&mut s, octets[0], octets[1], octets[2], octets[3]);
            assert(octets@ =~= seq![octets[0], octets[1], octets[2], octets[3]]);
            s
        },
        IpAddress::V6(octets) => {
            let mut s = String::new();
            push_ipv6(&mut s, *octets);
            assert(s@ =~= ipv6_text(octets@));
            s
        },
        IpAddress::Unknown => String::from_str("unknown"),
    }
}

/// The number of name bytes an event carries: `domain_len`, at most 256.
pub open spec fn name_len(event: DnsEvent) -> int {
    if event.domain_len <= 256 {
        event.domain_len as int
    } else {
        256
    }
}

/// The log message for `event` whose domain name, decoded, is `domain_name`:
/// the endpoints, that name and, for a response, the resolved address.
pub fn proto_event_with_name(event: &DnsEvent, domain_name: String) -> (m: ProtoDnsEvent)
    ensures
        m.src_ip@ == address_text(event.src_ip),
        m.dst_ip@ == address_text(event.dst_ip),
        m.src_port == event.src_port as u32,
        m.dst_port == event.dst_port as u32,
        m.domain_name@ == domain_name@,
        event.is_response == 1 ==> m.resolved_ip is Some && m.resolved_ip->0@ == address_text(
            event.resolved_ip,
        ),
        event.is_response != 1 ==> m.resolved_ip is None,
        m.is_response == (event.is_response == 1),
{
    let resolved_ip = if event.is_response == 1 {
        Some(format_ip(&event.resolved_ip))
    } else {
        None
    };
    ProtoDnsEvent {
        src_ip: format_ip(&event.src_ip),
        dst_ip: format_ip(&event.dst_ip),
        src_port: event.src_port as u32,
        dst_port: event.dst_port as u32,
        domain_name,
        resolved_ip,
        is_response: event.is_response == 1,
    }
}

/// The log message for `event`: the endpoints, the domain name (its bytes
/// decoded as UTF-8, invalid sequences replaced) and, for a response, the
/// resolved address.
pub fn to_proto_event(event: &DnsEvent) -> (m: ProtoDnsEvent)
    ensures
        m.src_ip@ == address_text(event.src_ip),
        m.dst_ip@ == address_text(event.dst_ip),
        m.src_port == event.src_port as u32,
        m.dst_port == event.dst_port as u32,
        m.domain_name@ == utf8_lossy_text(event.domain_name@.take(name_len(*event))),
        event.is_response == 1 ==> m.resolved_ip is Some && m.resolved_ip->0@ == address_text(
            event.resolved_ip,
        ),
        event.is_response != 1 ==> m.resolved_ip is None,
        m.is_response == (event.is_response == 1),
{
    let domain_len: usize = if event.domain_len <= 256 { event.domain_len as usize } else { 256 };
    let all = event.domain_name.as_slice();
    let name_bytes = &all[0..domain_len];
    assert(name_bytes@ =~= event.domain_name@.take(name_len(*event)));
    let domain_name = utf8_lossy(name_bytes);
    proto_event_with_name(event, domain_name)
}

/// The text of an IPv4 address in a log message is the dotted decimal of
/// its four octets, each read as an unsigned number (0 to 255).
pub proof fn lemma_ipv4_address_text(o: [u8; 4])
    ensures
        is_dotted_quad_of(address_text(IpAddress::V4(o)), o@),
{
    lemma_dotted_quad_is_dotted_decimal(o@);
}

} // verus!
