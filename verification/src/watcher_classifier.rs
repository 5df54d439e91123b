//! The decisions of the packet watcher's traffic-control classifier: which
//! frames carry DNS traffic (UDP from or to port 53, over IPv4 or IPv6 on
//! Ethernet) and which event such a frame produces. Every frame is passed on.
use vstd::prelude::*;
use crate::cilium_common::ipv4_bytes;
use crate::classifier::{
    captured_bytes, ip_proto_known, DNS_PORT, ETH_HDR_LEN, ETHERTYPE_IPV4, ETHERTYPE_IPV6,
    IPPROTO_UDP, IPV4_HDR_LEN, IPV6_HDR_LEN, TC_ACT_OK, UDP_HDR_LEN,
};
use crate::dns::{be16, read_be16};
use crate::watcher_common::{AF_INET, AF_INET6, RawDnsEvent, RawIpAddr};

verus! {

/// The number of bytes in one unit of the IPv4 IHL field (RFC 791).
pub const BYTES_PER_IHL_WORD: usize = 4;

/// What a frame is to the watcher's classifier.
pub ghost enum WatchCapture {
    /// A header that should be there is cut short or unreadable.
    Malformed,
    /// Not DNS traffic.
    Ignored,
    /// DNS traffic: the endpoints, the ports and the captured payload bytes.
    Dns {
        family: u8,
        src_addr: Seq<u8>,
        dst_addr: Seq<u8>,
        src_port: u16,
        dst_port: u16,
        data: Seq<u8>,
    },
}

/// What a UDP datagram is to the watcher's classifier.
pub ghost enum WatchDatagram {
    /// The UDP header, or the payload of DNS traffic, is missing.
    Malformed,
    /// Not sent from the DNS port.
    Ignored,
    /// DNS traffic: its ports and the captured payload bytes.
    Dns { src_port: u16, dst_port: u16, data: Seq<u8> },
}

/// The UDP datagram at `off` of `p`.
pub open spec fn watch_datagram(p: Seq<u8>, off: int) -> WatchDatagram {
    if off + 8 > p.len() {
        WatchDatagram::Malformed
    } else if be16(p[off], p[off + 1]) != 53 && be16(p[off + 2], p[off + 3]) != 53 {
        WatchDatagram::Ignored
    } else if off + 9 > p.len() {
        WatchDatagram::Malformed
    } else {
        WatchDatagram::Dns {
            src_port: be16(p[off], p[off + 1]) as u16,
            dst_port: be16(p[off + 2], p[off + 3]) as u16,
            data: captured_bytes(p, off + 8),
        }
    }
}

/// The UDP datagram at `off` of `p` between the addresses that the frame's
/// IP header gives.
pub open spec fn watch_udp_capture(
    p: Seq<u8>,
    off: int,
    family: u8,
    src: Seq<u8>,
    dst: Seq<u8>,
) -> WatchCapture {
    match watch_datagram(p, off) {
        WatchDatagram::Malformed => WatchCapture::Malformed,
        WatchDatagram::Ignored => WatchCapture::Ignored,
        WatchDatagram::Dns { src_port, dst_port, data } => WatchCapture::Dns {
            family,
            src_addr: src,
            dst_addr: dst,
            src_port,
            dst_port,
            data,
        },
    }
}

/// The header length that the IHL field of the first header byte gives.
pub open spec fn ihl_len(vihl: u8) -> int {
    (vihl % 16) as int * 4
}

/// What the Ethernet frame `p` is to the watcher's classifier.
pub open spec fn watch_frame_capture(p: Seq<u8>) -> WatchCapture {
    if p.len() < 14 {
        WatchCapture::Malformed
    } else {
        let ether_type = be16(p[12], p[13]);
        if ether_type == 0x0800 {
            if p.len() < 34 {
                WatchCapture::Malformed
            } else if !ip_proto_known(p[23]) {
                WatchCapture::Malformed
            } else if p[23] != 17 {
                WatchCapture::Ignored
            } else {
                watch_udp_capture(
                    p,
                    14 + ihl_len(p[14]),
                    AF_INET,
                    ipv4_bytes(p.subrange(26, 30)),
                    ipv4_bytes(p.subrange(30, 34)),
                )
            }
        } else if ether_type == 0x86DD {
            if p.len() < 54 {
                WatchCapture::Malformed
            } else if !ip_proto_known(p[20]) {
                WatchCapture::Malformed
            } else if p[20] != 17 {
                WatchCapture::Ignored
            } else {
                watch_udp_capture(p, 54, AF_INET6, p.subrange(22, 38), p.subrange(38, 54))
            }
        } else {
            WatchCapture::Ignored
        }
    }
}

/// True when `event` is what a datagram that is `c`, sent from `src_ip` to
/// `dst_ip`, yields: nothing unless it is DNS traffic, else an event that
/// holds the two addresses unchanged, the ports and the payload bytes
/// followed by zeros.
pub open spec fn watch_datagram_event_matches(
    event: Option<RawDnsEvent>,
    c: WatchDatagram,
    src_ip: RawIpAddr,
    dst_ip: RawIpAddr,
) -> bool {
    match c {
        WatchDatagram::Dns { src_port, dst_port, data } => {
            &&& event is Some
            &&& event->0.src_ip == src_ip
            &&& event->0.dst_ip == dst_ip
            &&& event->0.src_port == src_port
            &&& event->0.dst_port == dst_port
            &&& event->0.payload_len as int == data.len()
            &&& event->0.payload@ == data + Seq::new((512 - data.len()) as nat, |i: int| 0u8)
        },
        _ => event is None,
    }
}

/// True when `event` is what the classifier submits for a frame that is `c`.
pub open spec fn watch_event_matches(event: Option<RawDnsEvent>, c: WatchCapture) -> bool {
    match c {
        WatchCapture::Dns { family, src_addr, dst_addr, src_port, dst_port, data } => {
            &&& event is Some
            &&& event->0.src_ip.family == family
            &&& event->0.src_ip.bytes@ == src_addr
            &&& event->0.dst_ip.family == family
            &&& event->0.dst_ip.bytes@ == dst_addr
            &&& event->0.src_port == src_port
            &&& event->0.dst_port == dst_port
            &&& event->0.payload_len as int == data.len()
            &&& event->0.payload@ == data + Seq::new((512 - data.len()) as nat, |i: int| 0u8)
        },
        _ => event is None,
    }
}

/// The classifier's verdict on one frame and the event to submit, if any.
pub struct WatchDecision {
    pub action: i32,
    pub event: Option<RawDnsEvent>,
}

/// The IPv4 header length in bytes: the IHL field, counted in 32-bit words.
pub fn get_ipv4_header_len(ipv4hdr: &[u8]) -> (r: usize)
    requires
        ipv4hdr@.len() >= 1,
    ensures
        r == ihl_len(ipv4hdr@[0]),
{
    let ihl = (ipv4hdr[0] % 16) as usize;
    ihl * BYTES_PER_IHL_WORD
}

/// Builds the event for the UDP datagram at `offset` of `packet`, sent from
/// `src_ip` to `dst_ip`, when it comes from or goes to the DNS port; fails when a header
/// or the payload is missing.
pub fn parse_udp(packet: &[u8], offset: usize, src_ip: RawIpAddr, dst_ip: RawIpAddr) -> (r: Result<
    Option<RawDnsEvent>,
    (),
>)
    ensures
        ({
            let c = watch_datagram(packet@, offset as int);
            &&& (r is Err <==> c is Malformed)
            &&& r matches Ok(ev) ==> watch_datagram_event_matches(ev, c, src_ip, dst_ip)
        }),
{
    let packet_len = packet.len();
    if offset > packet_len || UDP_HDR_LEN > packet_len - offset {
        return Err(());
    }
    let src_port = read_be16(packet, offset);
    let dst_port = read_be16(packet, offset + 2);
    if src_port != DNS_PORT && dst_port != DNS_PORT {
        return Ok(None);
    }
    let payload_offset = offset + UDP_HDR_LEN;
    if payload_offset >= packet_len {
        return Err(());
    }
    let available_len = packet_len - payload_offset;
    let payload_len = if available_len < 512 { available_len } else { 512 };
    let mut payload = [0u8; 512];
    let mut k: usize = 0;
    while k < payload_len
        invariant
            k <= payload_len <= 512,
            payload_len <= available_len,
            available_len == packet@.len() - payload_offset,
            payload_offset <= packet@.len(),
            packet_len == packet@.len(),
            payload@.len() == 512,
            forall|m: int| 0 <= m < k ==> payload@[m] == packet@[payload_offset + m],
            forall|m: int| k <= m < 512 ==> payload@[m] == 0,
        decreases payload_len - k,
    {
        payload[k] = packet[payload_offset + k];
        k = k + 1;
    }
    let ghost data = captured_bytes(packet@, payload_offset as int);
    assert(data.len() == payload_len);
    assert(payload@ =~= data + Seq::new((512 - data.len()) as nat, |i: int| 0u8));
    Ok(
        Some(
            RawDnsEvent {
                src_ip,
                dst_ip,
                src_port,
                dst_port,
                payload,
                payload_len: payload_len as u16,
                _pad: [0; 2],
            },
        ),
    )
}

/// Reads the headers of the Ethernet frame `packet` and, for DNS traffic
/// over UDP, builds its event; fails where a header is cut short or
/// unreadable.
pub fn try_dns_tc(packet: &[u8]) -> (r: Result<WatchDecision, ()>)
    ensures
        r is Err <==> watch_frame_capture(packet@) is Malformed,
        r matches Ok(d) ==> d.action == TC_ACT_OK && watch_event_matches(
            d.event,
            watch_frame_capture(packet@),
        ),
{
    let packet_len = packet.len();
    if packet_len < ETH_HDR_LEN {
        return Err(());
    }
    let mut src_ip = [0u8; 16];
    let mut dst_ip = [0u8; 16];
    let ether_type = read_be16(packet, 12);
    if ether_type == ETHERTYPE_IPV4 {
        if packet_len - ETH_HDR_LEN < IPV4_HDR_LEN {
            return Err(());
        }
        let mut k: usize = 0;
        while k < 4
            invariant
                k <= 4,
                packet_len == packet@.len(),
                packet@.len() >= 34,
                src_ip@.len() == 16,
                dst_ip@.len() == 16,
                forall|m: int| 0 <= m < k ==> src_ip@[m] == packet@[26 + m],
                forall|m: int| 0 <= m < k ==> dst_ip@[m] == packet@[30 + m],
                forall|m: int| 4 <= m < 16 ==> src_ip@[m] == 0 && dst_ip@[m] == 0,
            decreases 4 - k,
        {
            src_ip[k] = packet[26 + k];
            dst_ip[k] = packet[30 + k];
            k = k + 1;
        }
        assert(src_ip@ =~= ipv4_bytes(packet@.subrange(26, 30)));
        assert(dst_ip@ =~= ipv4_bytes(packet@.subrange(30, 34)));
        let ip_hdr_len = get_ipv4_header_len(&packet[ETH_HDR_LEN..packet_len]);
        let proto = packet[23];
        if !(proto <= 144 || proto >= 253) {
            return Err(());
        }
        if proto != IPPROTO_UDP {
            return Ok(WatchDecision { action: TC_ACT_OK, event: None });
        }
        let event = parse_udp(
            packet,
            ETH_HDR_LEN + ip_hdr_len,
            RawIpAddr::new(src_ip, AF_INET),
            RawIpAddr::new(dst_ip, AF_INET),
        )?;
        Ok(WatchDecision { action: TC_ACT_OK, event })
    } else if ether_type == ETHERTYPE_IPV6 {
        if packet_len - ETH_HDR_LEN < IPV6_HDR_LEN {
            return Err(());
        }
        let mut k: usize = 0;
        while k < 16
            invariant
                k <= 16,
                packet_len == packet@.len(),
                packet@.len() >= 54,
                forall|m: int| 0 <= m < k ==> src_ip@[m] == packet@[22 + m],
                forall|m: int| 0 <= m < k ==> dst_ip@[m] == packet@[38 + m],
            decreases 16 - k,
        {
            src_ip[k] = packet[22 + k];
            dst_ip[k] = packet[38 + k];
            k = k + 1;
        }
        assert(src_ip@ =~= packet@.subrange(22, 38));
        assert(dst_ip@ =~= packet@.subrange(38, 54));
        let next_hdr = packet[20];
        if !(next_hdr <= 144 || next_hdr >= 253) {
            return Err(());
        }
        if next_hdr != IPPROTO_UDP {
            return Ok(WatchDecision { action: TC_ACT_OK, event: None });
        }
        let event = parse_udp(
            packet,
            ETH_HDR_LEN + IPV6_HDR_LEN,
            RawIpAddr::new(src_ip, AF_INET6),
            RawIpAddr::new(dst_ip, AF_INET6),
        )?;
        Ok(WatchDecision { action: TC_ACT_OK, event })
    } else {
        Ok(WatchDecision { action: TC_ACT_OK, event: None })
    }
}

/// The classifier's entry point: every frame is passed on (`TC_ACT_OK`); a
/// DNS query or response yields its event.
pub fn dns_tc(packet: &[u8]) -> (r: WatchDecision)
    ensures
        r.action == TC_ACT_OK,
        watch_event_matches(r.event, watch_frame_capture(packet@)),
{
    match try_dns_tc(packet) {
        Ok(decision) => decision,
        Err(_) => WatchDecision { action: TC_ACT_OK, event: None },
    }
}

/// Only UDP datagrams sent from or to the DNS port yield events, and an event
/// carries between 1 and 512 bytes, a contiguous run of the frame.
pub proof fn lemma_watch_events_only_for_dns_traffic(p: Seq<u8>)
    ensures
        watch_frame_capture(p) matches WatchCapture::Dns { src_port, dst_port, data, .. } ==> {
            &&& (src_port == DNS_PORT || dst_port == DNS_PORT)
            &&& 1 <= data.len() <= 512
            &&& exists|off: int|
                0 <= off && off + data.len() <= p.len() && data == #[trigger] p.subrange(
                    off,
                    off + data.len(),
                )
        },
{
    if let WatchCapture::Dns { src_port, data, .. } = watch_frame_capture(p) {
        let et = be16(p[12], p[13]);
        let off: int = if et == 0x0800 {
            14 + ihl_len(p[14]) + 8
        } else {
            62int
        };
        assert(data == p.subrange(off, off + data.len()));
    }
}

/// An event describes the frame it came from: the frame is an IPv4 or IPv6
/// frame carrying UDP (protocol 17); the event's addresses are the IP
/// header's source and destination fields (IPv4 ones followed by twelve
/// zeros); its ports are the UDP header's, one of them 53; and its payload
/// is the first bytes after the UDP header, as many as there are up to 512.
pub proof fn lemma_watch_event_describes_frame(p: Seq<u8>, e: RawDnsEvent)
    requires
        watch_event_matches(Some(e), watch_frame_capture(p)),
    ensures
        p.len() >= 14,
        ({
            let ether_type = p[12] as int * 256 + p[13] as int;
            let v4 = ether_type == 0x0800;
            let v6 = ether_type == 0x86DD;
            let o: int = if v4 {
                14 + (p[14] % 16) as int * 4
            } else {
                54
            };
            let zeros = Seq::new(12, |i: int| 0u8);
            &&& v4 || v6
            &&& v4 ==> {
                &&& p[23] == 17
                &&& e.src_ip.family == AF_INET && e.dst_ip.family == AF_INET
                &&& e.src_ip.bytes@ == p.subrange(26, 30) + zeros
                &&& e.dst_ip.bytes@ == p.subrange(30, 34) + zeros
            }
            &&& v6 ==> {
                &&& p[20] == 17
                &&& e.src_ip.family == AF_INET6 && e.dst_ip.family == AF_INET6
                &&& e.src_ip.bytes@ == p.subrange(22, 38)
                &&& e.dst_ip.bytes@ == p.subrange(38, 54)
            }
            &&& o + 8 < p.len()
            &&& e.src_port as int == p[o] as int * 256 + p[o + 1] as int
            &&& e.dst_port as int == p[o + 2] as int * 256 + p[o + 3] as int
            &&& (e.src_port == 53 || e.dst_port == 53)
            &&& e.payload_len as int == if p.len() - (o + 8) <= 512 {
                p.len() - (o + 8)
            } else {
                512
            }
            &&& e.payload@.take(e.payload_len as int) == p.subrange(o + 8, o + 8 + e.payload_len)
        }),
{
    let ether_type = p[12] as int * 256 + p[13] as int;
    let zeros = Seq::new(12, |i: int| 0u8);
    if ether_type == 0x0800 {
        assert(ipv4_bytes(p.subrange(26, 30)) =~= p.subrange(26, 30) + zeros);
        assert(ipv4_bytes(p.subrange(30, 34)) =~= p.subrange(30, 34) + zeros);
    }
    if let WatchCapture::Dns { data, .. } = watch_frame_capture(p) {
        assert(e.payload@.take(e.payload_len as int) =~= data);
    }
}

} // verus!
