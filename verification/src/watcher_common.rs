//! The data model of the packet watcher: addresses and captured datagrams as
//! its classifier records them, and the decoded DNS event of its log.
use vstd::prelude::*;

verus! {

/// Name of the ring buffer that carries captured DNS datagrams.
pub const RING_BUF_NAME: &'static str = "DNS_EVENTS_PIPE";
/// Address family of IPv4 addresses.
pub const AF_INET: u8 = 2;
/// Address family of IPv6 addresses.
pub const AF_INET6: u8 = 10;
/// The most payload bytes one event carries.
pub const MAX_DNS_PAYLOAD_SIZE: usize = 512;

/// An IPv4 or IPv6 address with its family.
#[derive(Clone, Copy, Debug)]
pub struct RawIpAddr {
    pub bytes: [u8; 16],
    pub family: u8,
    pub _pad: [u8; 7],
}

impl RawIpAddr {
    /// The address with these bytes and this family, padding zeroed.
    pub fn new(bytes: [u8; 16], family: u8) -> (r: Self)
        ensures
            r.bytes == bytes,
            r.family == family,
            r._pad@ == Seq::new(7, |i: int| 0u8),
    {
        let r = RawIpAddr { bytes, family, _pad: [0; 7] };
        assert(r._pad@ =~= Seq::new(7, |i: int| 0u8));
        r
    }
}

/// One captured DNS datagram: the endpoints and the first `payload_len`
/// bytes of the UDP payload.
#[derive(Clone, Copy)]
pub struct RawDnsEvent {
    pub src_ip: RawIpAddr,
    pub dst_ip: RawIpAddr,
    pub src_port: u16,
    pub dst_port: u16,
    pub payload: [u8; 512],
    pub payload_len: u16,
    pub _pad: [u8; 2],
}

/// An address of a decoded DNS event.
#[derive(Clone, Copy, Debug)]
pub enum IpAddress {
    V4([u8; 4]),
    V6([u8; 16]),
    Unknown,
}

/// A decoded DNS event: the endpoints, the domain name (its first
/// `domain_len` bytes) and, for a response, the resolved address.
#[derive(Clone, Copy)]
pub struct DnsEvent {
    pub src_ip: IpAddress,
    pub dst_ip: IpAddress,
    pub src_port: u16,
    pub dst_port: u16,
    pub domain_name: [u8; 256],
    pub domain_len: u32,
    pub resolved_ip: IpAddress,
    pub is_response: u8,
}

} // verus!
