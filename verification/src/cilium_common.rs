//! The data model shared by the DNS classifier and the user-space pipeline:
//! an IP address as the classifier records it, and one captured DNS datagram.
use vstd::prelude::*;

verus! {

/// Name of the ring buffer that carries captured DNS datagrams.
pub const RING_BUF_NAME: &'static str = "DNS_EVENTS_PIPE";
/// Address family of IPv4 addresses.
pub const AF_INET: u32 = 2;
/// Address family of IPv6 addresses.
pub const AF_INET6: u32 = 10;
/// The most payload bytes one event carries.
pub const MAX_DNS_PAYLOAD_SIZE: usize = 512;

/// An IPv4 or IPv6 address with its family; IPv4 addresses fill the first
/// four bytes and leave the others zero.
#[derive(Clone, Copy, Debug)]
pub struct RawIpAddr {
    pub bytes: [u8; 16],
    pub family: u32,
    pub _pad: u32,
}

/// The sixteen address bytes of an IPv4 address: the four octets, then zeros.
pub open spec fn ipv4_bytes(addr: Seq<u8>) -> Seq<u8> {
    addr.take(4) + Seq::new(12, |i: int| 0u8)
}

impl RawIpAddr {
    /// The address `addr` as an IPv4 address.
    pub fn from_ipv4(addr: [u8; 4]) -> (r: Self)
        ensures
            r.bytes@ == ipv4_bytes(addr@),
            r.family == AF_INET,
            r._pad == 0,
    {
        let r = Self {
            bytes: [addr[0], addr[1], addr[2], addr[3], 0, 0, 0, 0, 0, 0, 0, 0, 0, 0, 0, 0],
            family: AF_INET,
            _pad: 0,
        };
        assert(r.bytes@ =~= ipv4_bytes(addr@));
        r
    }

    /// The address `addr` as an IPv6 address.
    pub fn from_ipv6(addr: [u8; 16]) -> (r: Self)
        ensures
            r.bytes == addr,
            r.family == AF_INET6,
            r._pad == 0,
    {
        Self { bytes: addr, family: AF_INET6, _pad: 0 }
    }

    /// Copies this address into `dst`.
    pub fn write_to(&self, dst: &mut RawIpAddr)
        ensures
            *final(dst) == *self,
    {
        *dst = *self;
    }

    /// The all-zero address, of family zero.
    pub fn zeroed() -> (r: Self)
        ensures
            r.bytes@ == Seq::new(16, |i: int| 0u8),
            r.family == 0,
            r._pad == 0,
    {
        let r = Self { bytes: [0u8; 16], family: 0, _pad: 0 };
        assert(r.bytes@ =~= Seq::new(16, |i: int| 0u8));
        r
    }
}

impl Default for RawIpAddr {
    fn default() -> (r: Self)
        ensures
            r.bytes@ == Seq::new(16, |i: int| 0u8),
            r.family == 0,
            r._pad == 0,
    {
        Self::zeroed()
    }
}

/// One captured DNS datagram: the endpoints, the capture time and the first
/// `payload_len` bytes of the UDP payload.
#[derive(Clone, Copy)]
pub struct RawDnsEvent {
    pub src_ip: RawIpAddr,
    pub dst_ip: RawIpAddr,
    pub src_port: u16,
    pub dst_port: u16,
    pub _pad: u16,
    pub payload_len: u16,
    pub timestamp_ns: u64,
    pub payload: [u8; 512],
}

impl RawDnsEvent {
    /// The event with every field zero.
    pub fn zeroed() -> (r: Self)
        ensures
            r.src_ip.bytes@ == Seq::new(16, |i: int| 0u8),
            r.src_ip.family == 0,
            r.dst_ip.bytes@ == Seq::new(16, |i: int| 0u8),
            r.dst_ip.family == 0,
            r.src_port == 0,
            r.dst_port == 0,
            r.payload_len == 0,
            r.timestamp_ns == 0,
            r.payload@ == Seq::new(512, |i: int| 0u8),
    {
        let r = Self {
            src_ip: RawIpAddr::zeroed(),
            dst_ip: RawIpAddr::zeroed(),
            src_port: 0,
            dst_port: 0,
            _pad: 0,
            payload_len: 0,
            timestamp_ns: 0,
            payload: [0u8; 512],
        };
        assert(r.payload@ =~= Seq::new(512, |i: int| 0u8));
        r
    }
}

impl Default for RawDnsEvent {
    fn default() -> (r: Self)
        ensures
            r.src_ip.bytes@ == Seq::new(16, |i: int| 0u8),
            r.src_ip.family == 0,
            r.dst_ip.bytes@ == Seq::new(16, |i: int| 0u8),
            r.dst_ip.family == 0,
            r.src_port == 0,
            r.dst_port == 0,
            r.payload_len == 0,
            r.timestamp_ns == 0,
            r.payload@ == Seq::new(512, |i: int| 0u8),
    {
        Self::zeroed()
    }
}

} // verus!
