//! The decisions of the DNS traffic-control classifier: which frames carry a
//! DNS response (UDP from port 53, over IPv4 or IPv6 on Ethernet) and which
//! event such a frame produces. Every frame is passed on unchanged.
use vstd::prelude::*;
use crate::cilium_common::{AF_INET, AF_INET6, ipv4_bytes, RawDnsEvent, RawIpAddr};
use crate::dns::{be16, read_be16};

verus! {

/// The action that lets a frame continue on its way.
pub const TC_ACT_OK: i32 = 0;
/// The DNS server port.
pub const DNS_PORT: u16 = 53;
/// Length of an Ethernet header.
pub const ETH_HDR_LEN: usize = 14;
/// Length of an IPv4 header without options.
pub const IPV4_HDR_LEN: usize = 20;
/// Length of an IPv6 header.
pub const IPV6_HDR_LEN: usize = 40;
/// Length of a UDP header.
pub const UDP_HDR_LEN: usize = 8;
/// Smallest IPv4 header length (RFC 791).
pub const IPV4_MIN_HDR_LEN: usize = 20;
/// Largest IPv4 header length (RFC 791).
pub const IPV4_MAX_HDR_LEN: usize = 60;
/// EtherType of IPv4.
pub const ETHERTYPE_IPV4: u16 = 0x0800;
/// EtherType of IPv6.
pub const ETHERTYPE_IPV6: u16 = 0x86DD;
/// IP protocol number of UDP.
pub const IPPROTO_UDP: u8 = 17;

/// True when `proto` is an IP protocol number that has a name (0 to 144, 253
/// to 255); other numbers make the IP header unreadable.
pub open spec fn ip_proto_known(proto: u8) -> bool {
    proto <= 144 || proto >= 253
}

/// The IPv4 header length in bytes that the first header byte gives.
pub open spec fn ipv4_header_len(vihl: u8) -> nat {
    (vihl % 16) as nat * 4
}

/// The UDP payload bytes that an event carries: at most 512 of them.
pub open spec fn captured_bytes(p: Seq<u8>, start: int) -> Seq<u8> {
    if p.len() - start <= 512 {
        p.subrange(start, p.len() as int)
    } else {
        p.subrange(start, start + 512)
    }
}

/// What a frame is to the classifier.
pub ghost enum Capture {
    /// A header that should be there is cut short or unreadable.
    Malformed,
    /// Not a DNS response, or one with an empty payload.
    Ignored,
    /// A DNS response: the endpoints and the captured payload bytes.
    Dns {
        family: u32,
        src_addr: Seq<u8>,
        dst_addr: Seq<u8>,
        src_port: u16,
        dst_port: u16,
        data: Seq<u8>,
    },
}

/// What a UDP datagram is to the classifier.
pub ghost enum UdpCapture {
    /// The UDP header is cut short.
    Malformed,
    /// Not sent from the DNS port, or with an empty payload.
    Ignored,
    /// A DNS response: its ports and the captured payload bytes.
    Dns { src_port: u16, dst_port: u16, data: Seq<u8> },
}

/// The UDP datagram at `off` of frame `p`.
pub open spec fn datagram_capture(p: Seq<u8>, off: int) -> UdpCapture {
    if off + 8 > p.len() {
        UdpCapture::Malformed
    } else if be16(p[off], p[off + 1]) != 53 {
        UdpCapture::Ignored
    } else if off + 8 >= p.len() {
        UdpCapture::Ignored
    } else {
        UdpCapture::Dns {
            src_port: 53,
            dst_port: be16(p[off + 2], p[off + 3]) as u16,
            data: captured_bytes(p, off + 8),
        }
    }
}

/// The UDP datagram at `off` of frame `p`, between the addresses `src` and
/// `dst` of family `family` that the frame's IP header gives.
pub open spec fn udp_capture(
    p: Seq<u8>,
    off: int,
    family: u32,
    src: Seq<u8>,
    dst: Seq<u8>,
) -> Capture {
    match datagram_capture(p, off) {
        UdpCapture::Malformed => Capture::Malformed,
        UdpCapture::Ignored => Capture::Ignored,
        UdpCapture::Dns { src_port, dst_port, data } => Capture::Dns {
            family,
            src_addr: src,
            dst_addr: dst,
            src_port,
            dst_port,
            data,
        },
    }
}

/// What the Ethernet frame `p` is to the classifier.
pub open spec fn frame_capture(p: Seq<u8>) -> Capture {
    if p.len() < 14 {
        Capture::Malformed
    } else {
        let ether_type = be16(p[12], p[13]);
        if ether_type == 0x0800 {
            if p.len() < 34 {
                Capture::Malformed
            } else {
                let hl = ipv4_header_len(p[14]);
                if hl < 20 || hl > 60 {
                    Capture::Malformed
                } else if !ip_proto_known(p[23]) {
                    Capture::Malformed
                } else if p[23] != 17 {
                    Capture::Ignored
                } else {
                    udp_capture(
                        p,
                        14 + hl as int,
                        AF_INET,
                        ipv4_bytes(p.subrange(26, 30)),
                        ipv4_bytes(p.subrange(30, 34)),
                    )
                }
            }
        } else if ether_type == 0x86DD {
            if p.len() < 54 {
                Capture::Malformed
            } else if !ip_proto_known(p[20]) {
                Capture::Malformed
            } else if p[20] != 17 {
                Capture::Ignored
            } else {
                udp_capture(p, 54, AF_INET6, p.subrange(22, 38), p.subrange(38, 54))
            }
        } else {
            Capture::Ignored
        }
    }
}

/// True when `e` is the event for the captured datagram with these fields,
/// taken at `ts`: the payload bytes first, zeros after them.
pub open spec fn event_is(
    e: RawDnsEvent,
    family: u32,
    src_addr: Seq<u8>,
    dst_addr: Seq<u8>,
    src_port: u16,
    dst_port: u16,
    data: Seq<u8>,
    ts: u64,
) -> bool {
    &&& e.src_ip.family == family
    &&& e.src_ip.bytes@ == src_addr
    &&& e.src_ip._pad == 0
    &&& e.dst_ip.family == family
    &&& e.dst_ip.bytes@ == dst_addr
    &&& e.dst_ip._pad == 0
    &&& e.src_port == src_port
    &&& e.dst_port == dst_port
    &&& e._pad == 0
    &&& e.payload_len as int == data.len()
    &&& e.payload@ == data + Seq::new((512 - data.len()) as nat, |i: int| 0u8)
    &&& e.timestamp_ns == ts
}

/// True when the ports, payload and time of `e` are those of a captured
/// datagram with these ports and payload bytes, taken at `ts`: the payload
/// bytes first, zeros after them.
pub open spec fn datagram_fields_are(
    e: RawDnsEvent,
    src_port: u16,
    dst_port: u16,
    data: Seq<u8>,
    ts: u64,
) -> bool {
    &&& e.src_port == src_port
    &&& e.dst_port == dst_port
    &&& e._pad == 0
    &&& e.payload_len as int == data.len()
    &&& e.payload@ == data + Seq::new((512 - data.len()) as nat, |i: int| 0u8)
    &&& e.timestamp_ns == ts
}

/// True when `event` is what a datagram that is `c`, sent from `src_ip` to
/// `dst_ip`, yields at `ts`: nothing unless it is a DNS response, else an
/// event that holds the two addresses unchanged.
pub open spec fn datagram_event_matches(
    event: Option<RawDnsEvent>,
    c: UdpCapture,
    src_ip: RawIpAddr,
    dst_ip: RawIpAddr,
    ts: u64,
) -> bool {
    match c {
        UdpCapture::Dns { src_port, dst_port, data } => {
            &&& event is Some
            &&& event->0.src_ip == src_ip
            &&& event->0.dst_ip == dst_ip
            &&& datagram_fields_are(event->0, src_port, dst_port, data, ts)
        },
        _ => event is None,
    }
}

/// True when `event` is what the classifier submits for a frame that is
/// `c`: nothing, unless the frame is a DNS response.
pub open spec fn event_matches(event: Option<RawDnsEvent>, c: Capture, ts: u64) -> bool {
    match c {
        Capture::Dns { family, src_addr, dst_addr, src_port, dst_port, data } => {
            &&& event is Some
            &&& event_is(event->0, family, src_addr, dst_addr, src_port, dst_port, data, ts)
        },
        _ => event is None,
    }
}

/// The classifier's verdict on one frame and the event to submit, if any.
pub struct TcDecision {
    pub action: i32,
    pub event: Option<RawDnsEvent>,
}

/// True when the frame holds `len` bytes from `offset` on.
fn has_bytes(packet: &[u8], offset: usize, len: usize) -> (r: bool)
    ensures
        r == (offset + len <= packet@.len()),
{
    offset <= packet.len() && len <= packet.len() - offset
}

/// Whether a protocol number has a name.
fn proto_known(proto: u8) -> (r: bool)
    ensures
        r == ip_proto_known(proto),
{
    proto <= 144 || proto >= 253
}

/// The length of the IPv4 header that starts `ipv4hdr`, refused outside the
/// bounds of RFC 791 (20 to 60 bytes).
pub fn get_ipv4_header_len(ipv4hdr: &[u8]) -> (r: Result<usize, ()>)
    requires
        ipv4hdr@.len() >= 1,
    ensures
        ipv4_header_len(ipv4hdr@[0]) < 20 || ipv4_header_len(ipv4hdr@[0]) > 60 ==> r is Err,
        20 <= ipv4_header_len(ipv4hdr@[0]) <= 60 ==> r == Ok::<usize, ()>(
            ipv4_header_len(ipv4hdr@[0]) as usize,
        ),
{
    let hdr_len = (ipv4hdr[0] % 16) as usize * 4;
    if hdr_len < IPV4_MIN_HDR_LEN || hdr_len > IPV4_MAX_HDR_LEN {
        return Err(());
    }
    Ok(hdr_len)
}

/// Builds the event for the UDP datagram at `offset` of `packet`, sent from
/// `src_ip` to `dst_ip`, when it comes from the DNS port and has a payload.
pub fn parse_udp(
    packet: &[u8],
    offset: usize,
    src_ip: RawIpAddr,
    dst_ip: RawIpAddr,
    timestamp_ns: u64,
) -> (r: Result<Option<RawDnsEvent>, ()>)
    ensures
        ({
            let c = datagram_capture(packet@, offset as int);
            &&& (r is Err <==> c is Malformed)
            &&& r matches Ok(ev) ==> datagram_event_matches(ev, c, src_ip, dst_ip, timestamp_ns)
        }),
{
    let packet_len = packet.len();
    if !has_bytes(packet, offset, UDP_HDR_LEN) {
        return Err(());
    }
    let src_port = read_be16(packet, offset);
    let dst_port = read_be16(packet, offset + 2);
    if src_port != DNS_PORT {
        return Ok(None);
    }
    let payload_offset = offset + UDP_HDR_LEN;
    let available_len = packet.len() - payload_offset;
    if available_len == 0 {
        return Ok(None);
    }
    let mut payload = [0u8; 512];
    assert(payload@ =~= Seq::new(512, |i: int| 0u8));
    let mut copied_len: usize = 0;
    while copied_len < 512 && copied_len < available_len
        invariant
            copied_len <= 512,
            copied_len <= available_len,
            available_len == packet@.len() - payload_offset,
            payload_offset <= packet@.len(),
            packet_len == packet@.len(),
            payload@.len() == 512,
            forall|k: int| 0 <= k < copied_len ==> payload@[k] == packet@[payload_offset + k],
            forall|k: int| copied_len <= k < 512 ==> payload@[k] == 0,
        decreases 512 - copied_len,
    {
        payload[copied_len] = packet[payload_offset + copied_len];
        copied_len = copied_len + 1;
    }
    let ghost data = captured_bytes(packet@, payload_offset as int);
    assert(data.len() == copied_len);
    assert(payload@ =~= data + Seq::new((512 - data.len()) as nat, |i: int| 0u8));
    Ok(
        Some(
            RawDnsEvent {
                src_ip,
                dst_ip,
                src_port,
                dst_port,
                _pad: 0,
                payload_len: copied_len as u16,
                timestamp_ns,
                payload,
            },
        ),
    )
}

/// Reads the headers of the Ethernet frame `packet` and, for a DNS response
/// over UDP, builds its event stamped with `timestamp_ns`; fails where a
/// header is cut short or unreadable.
pub fn try_dns_tc(packet: &[u8], timestamp_ns: u64) -> (r: Result<TcDecision, ()>)
    ensures
        r is Err <==> frame_capture(packet@) is Malformed,
        r matches Ok(d) ==> d.action == TC_ACT_OK && event_matches(
            d.event,
            frame_capture(packet@),
            timestamp_ns,
        ),
{
    let packet_len = packet.len();
    if !has_bytes(packet, 0, ETH_HDR_LEN) {
        return Err(());
    }
    let ether_type = read_be16(packet, 12);
    if ether_type == ETHERTYPE_IPV4 {
        if !has_bytes(packet, ETH_HDR_LEN, IPV4_HDR_LEN) {
            return Err(());
        }
        let src_ip = RawIpAddr::from_ipv4([packet[26], packet[27], packet[28], packet[29]]);
        let dst_ip = RawIpAddr::from_ipv4([packet[30], packet[31], packet[32], packet[33]]);
        assert(src_ip.bytes@ =~= ipv4_bytes(packet@.subrange(26, 30)));
        assert(dst_ip.bytes@ =~= ipv4_bytes(packet@.subrange(30, 34)));
        let ipv4hdr = &packet[ETH_HDR_LEN..packet_len];
        let ip_hdr_len = get_ipv4_header_len(ipv4hdr)?;
        let proto = packet[23];
        if !proto_known(proto) {
            return Err(());
        }
        if proto != IPPROTO_UDP {
            return Ok(TcDecision { action: TC_ACT_OK, event: None });
        }
        let event = parse_udp(packet, ETH_HDR_LEN + ip_hdr_len, src_ip, dst_ip, timestamp_ns)?;
        Ok(TcDecision { action: TC_ACT_OK, event })
    } else if ether_type == ETHERTYPE_IPV6 {
        if !has_bytes(packet, ETH_HDR_LEN, IPV6_HDR_LEN) {
            return Err(());
        }
        let mut src = [0u8; 16];
        let mut dst = [0u8; 16];
        let mut k: usize = 0;
        while k < 16
            invariant
                k <= 16,
                packet_len == packet@.len(),
                packet@.len() >= 54,
                forall|m: int| 0 <= m < k ==> src@[m] == packet@[22 + m],
                forall|m: int| 0 <= m < k ==> dst@[m] == packet@[38 + m],
            decreases 16 - k,
        {
            src[k] = packet[22 + k];
            dst[k] = packet[38 + k];
            k = k + 1;
        }
        assert(src@ =~= packet@.subrange(22, 38));
        assert(dst@ =~= packet@.subrange(38, 54));
        let src_ip = RawIpAddr::from_ipv6(src);
        let dst_ip = RawIpAddr::from_ipv6(dst);
        let next_hdr = packet[20];
        if !proto_known(next_hdr) {
            return Err(());
        }
        if next_hdr != IPPROTO_UDP {
            return Ok(TcDecision { action: TC_ACT_OK, event: None });
        }
        let event = parse_udp(packet, ETH_HDR_LEN + IPV6_HDR_LEN, src_ip, dst_ip, timestamp_ns)?;
        Ok(TcDecision { action: TC_ACT_OK, event })
    } else {
        Ok(TcDecision { action: TC_ACT_OK, event: None })
    }
}

/// The classifier's entry point: every frame is passed on (`TC_ACT_OK`); a
/// DNS response with a payload yields its event, stamped with `timestamp_ns`.
pub fn dns_tc(packet: &[u8], timestamp_ns: u64) -> (r: TcDecision)
    ensures
        r.action == TC_ACT_OK,
        event_matches(r.event, frame_capture(packet@), timestamp_ns),
{
    match try_dns_tc(packet, timestamp_ns) {
        Ok(decision) => decision,
        Err(_) => TcDecision { action: TC_ACT_OK, event: None },
    }
}

/// Only UDP datagrams sent from the DNS port yield events, and an event
/// carries between 1 and 512 bytes, a contiguous run of the frame.
pub proof fn lemma_events_only_for_dns_responses(p: Seq<u8>)
    ensures
        frame_capture(p) matches Capture::Dns { src_port, data, .. } ==> {
            &&& src_port == DNS_PORT
            &&& 1 <= data.len() <= 512
            &&& exists|off: int|
                0 <= off && off + data.len() <= p.len() && data == #[trigger] p.subrange(
                    off,
                    off + data.len(),
                )
        },
{
    if let Capture::Dns { src_port, data, .. } = frame_capture(p) {
        let et = be16(p[12], p[13]);
        let off: int = if et == 0x0800 {
            14 + ipv4_header_len(p[14]) as int + 8
        } else {
            62int
        };
        assert(data == p.subrange(off, off + data.len()));
    }
}

/// Every event the classifier submits fits the decoder: its payload length is
/// at most 512, as `parse_dns_into` requires, and its first `payload_len`
/// payload bytes are the captured bytes of the frame.
pub proof fn lemma_submitted_events_are_decodable(p: Seq<u8>, ts: u64, e: RawDnsEvent)
    requires
        event_matches(Some(e), frame_capture(p), ts),
    ensures
        e.payload_len <= 512,
        frame_capture(p) matches Capture::Dns { data, .. } ==> e.payload@.take(
            e.payload_len as int,
        ) == data,
{
    lemma_events_only_for_dns_responses(p);
    if let Capture::Dns { data, .. } = frame_capture(p) {
        assert(e.payload@.take(e.payload_len as int) =~= data);
    }
}

/// An event describes the frame it came from: the frame is an IPv4 or IPv6
/// frame carrying UDP (protocol 17); the event's addresses are the IP
/// header's source and destination fields (IPv4 ones followed by twelve
/// zeros); its ports are the UDP header's, the source one being 53; its
/// payload is the first bytes after the UDP header, as many as there are up
/// to 512; and it is stamped with the given time.
pub proof fn lemma_event_describes_frame(p: Seq<u8>, ts: u64, e: RawDnsEvent)
    requires
        event_matches(Some(e), frame_capture(p), ts),
    ensures
        p.len() >= 14,
        ({
            let ether_type = p[12] as int * 256 + p[13] as int;
            let v4 = ether_type == 0x0800;
            let v6 = ether_type == 0x86DD;
            let o: int = if v4 {
                14 + (p[14] % 16) as int * 4
            } else {
                54
            };
            let zeros = Seq::new(12, |i: int| 0u8);
            &&& v4 || v6
            &&& v4 ==> {
                &&& p[23] == 17
                &&& e.src_ip.family == AF_INET && e.dst_ip.family == AF_INET
                &&& e.src_ip.bytes@ == p.subrange(26, 30) + zeros
                &&& e.dst_ip.bytes@ == p.subrange(30, 34) + zeros
            }
            &&& v6 ==> {
                &&& p[20] == 17
                &&& e.src_ip.family == AF_INET6 && e.dst_ip.family == AF_INET6
                &&& e.src_ip.bytes@ == p.subrange(22, 38)
                &&& e.dst_ip.bytes@ == p.subrange(38, 54)
            }
            &&& o + 8 < p.len()
            &&& e.src_port == 53 && e.src_port as int == p[o] as int * 256 + p[o + 1] as int
            &&& e.dst_port as int == p[o + 2] as int * 256 + p[o + 3] as int
            &&& e.payload_len as int == if p.len() - (o + 8) <= 512 {
                p.len() - (o + 8)
            } else {
                512
            }
            &&& e.payload@.take(e.payload_len as int) == p.subrange(o + 8, o + 8 + e.payload_len)
            &&& e.timestamp_ns == ts
        }),
{
    let ether_type = p[12] as int * 256 + p[13] as int;
    let zeros = Seq::new(12, |i: int| 0u8);
    if ether_type == 0x0800 {
        assert(ipv4_bytes(p.subrange(26, 30)) =~= p.subrange(26, 30) + zeros);
        assert(ipv4_bytes(p.subrange(30, 34)) =~= p.subrange(30, 34) + zeros);
    }
    if let Capture::Dns { data, .. } = frame_capture(p) {
        assert(e.payload@.take(e.payload_len as int) =~= data);
    }
}

} // verus!
