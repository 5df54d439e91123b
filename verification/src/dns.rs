//! Decoding a captured DNS response (RFC 1035 wire format) into a reusable
//! `DnsResponse` record: the endpoints, the queried name and the A / AAAA
//! addresses of the answer section.
use vstd::prelude::*;
use vstd::string::*;
use crate::cilium_common::{AF_INET, AF_INET6, RawDnsEvent, RawIpAddr};
use crate::text::{
    clear_string, decimal, dotted_quad, ipv6_text, is_dotted_quad_of,
    lemma_dotted_quad_is_dotted_decimal, push_char, push_decimal, push_ipv4, push_ipv6,
};

verus! {

/// Why a DNS datagram could not be decoded.
#[derive(Debug, Clone, Copy, PartialEq, Eq, Structural)]
pub enum DnsParseError {
    UnexpectedEndOfPayload,
    InvalidLabelLength(usize),
    LabelExceedsMaxLen,
    NonAsciiDomainName,
    UnsupportedAddressFamily(u32),
    FormatError,
}

/// The human-readable description of an error.
pub open spec fn error_message(e: DnsParseError) -> Seq<char> {
    match e {
        DnsParseError::UnexpectedEndOfPayload => "Unexpected end of DNS payload (truncated packet)"@,
        DnsParseError::InvalidLabelLength(len) => "Invalid label length: "@ + decimal(len as nat)
            + " (> 63)"@,
        DnsParseError::LabelExceedsMaxLen => "Label exceeds maximum domain length (255)"@,
        DnsParseError::NonAsciiDomainName => "Non-ASCII character in domain name"@,
        DnsParseError::UnsupportedAddressFamily(af) => "Unsupported address family: "@ + decimal(
            af as nat,
        ),
        DnsParseError::FormatError => "Failed to format IP address string"@,
    }
}

impl DnsParseError {
    /// Describes the error in words.
    pub fn message(&self) -> (s: String)
        ensures
            s@ == error_message(*self),
    {
        match self {
            DnsParseError::UnexpectedEndOfPayload => String::from_str(
                "Unexpected end of DNS payload (truncated packet)",
            ),
            DnsParseError::InvalidLabelLength(len) => {
                let mut s = String::from_str("Invalid label length: ");
                push_decimal(&mut s, *len as u64);
                s.append(" (> 63)");
                s
            },
            DnsParseError::LabelExceedsMaxLen => String::from_str(
                "Label exceeds maximum domain length (255)",
            ),
            DnsParseError::NonAsciiDomainName => String::from_str(
                "Non-ASCII character in domain name",
            ),
            DnsParseError::UnsupportedAddressFamily(af) => {
                let mut s = String::from_str("Unsupported address family: ");
                push_decimal(&mut s, *af as u64);
                s
            },
            DnsParseError::FormatError => String::from_str("Failed to format IP address string"),
        }
    }
}

/// The big-endian value of the two bytes `hi`, `lo`.
pub open spec fn be16(hi: u8, lo: u8) -> nat {
    hi as nat * 256 + lo as nat
}

/// Reads the big-endian 16-bit value at `i`, `i + 1`.
pub(crate) fn read_be16(p: &[u8], i: usize) -> (r: u16)
    requires
        i + 1 < p@.len(),
    ensures
        r as nat == be16(p@[i as int], p@[i + 1]),
{
    (p[i] as u16) * 256 + (p[i + 1] as u16)
}

/// The fixed twelve-byte header of a DNS message.
#[derive(Debug, Clone, Copy, PartialEq, Eq, Structural)]
pub struct DnsHdr {
    pub transaction_id: u16,
    pub flags: u16,
    pub questions: u16,
    pub answer_rrs: u16,
    pub authority_rrs: u16,
    pub additional_rrs: u16,
}

impl DnsHdr {
    /// Length of the header in bytes.
    pub const LEN: usize = 12;

    /// Decodes the header at the start of `payload`; fails exactly when the
    /// payload is shorter than the header.
    pub fn from(payload: &[u8]) -> (r: Result<Self, DnsParseError>)
        ensures
            payload@.len() < 12 <==> r == Err::<Self, DnsParseError>(DnsParseError::UnexpectedEndOfPayload),
            r is Ok <==> payload@.len() >= 12,
            r matches Ok(h) ==> {
                &&& h.transaction_id as nat == be16(payload@[0], payload@[1])
                &&& h.flags as nat == be16(payload@[2], payload@[3])
                &&& h.questions as nat == be16(payload@[4], payload@[5])
                &&& h.answer_rrs as nat == be16(payload@[6], payload@[7])
                &&& h.authority_rrs as nat == be16(payload@[8], payload@[9])
                &&& h.additional_rrs as nat == be16(payload@[10], payload@[11])
            },
    {
        if payload.len() < Self::LEN {
            return Err(DnsParseError::UnexpectedEndOfPayload);
        }
        Ok(Self {
            transaction_id: read_be16(payload, 0),
            flags: read_be16(payload, 2),
            questions: read_be16(payload, 4),
            answer_rrs: read_be16(payload, 6),
            authority_rrs: read_be16(payload, 8),
            additional_rrs: read_be16(payload, 10),
        })
    }
}

/// The kind of a resource record, by its TYPE field.
#[derive(Debug, Clone, Copy, PartialEq, Eq, Structural)]
pub enum RecordType {
    A,
    CNAME,
    AAAA,
    UNSUPPORTED(u16),
}

/// The record kind that the TYPE value `val` stands for.
pub open spec fn record_type_of(val: u16) -> RecordType {
    if val == 1 {
        RecordType::A
    } else if val == 5 {
        RecordType::CNAME
    } else if val == 28 {
        RecordType::AAAA
    } else {
        RecordType::UNSUPPORTED(val)
    }
}

impl RecordType {
    /// Classifies a TYPE value; every value has a kind, so this never fails.
    pub fn try_from(val: u16) -> (r: Result<Self, DnsParseError>)
        ensures
            r == Ok::<RecordType, DnsParseError>(record_type_of(val)),
    {
        match val {
            1 => Ok(Self::A),
            5 => Ok(Self::CNAME),
            28 => Ok(Self::AAAA),
            other => Ok(Self::UNSUPPORTED(other)),
        }
    }
}

/// Where the name at offset `offset` of `p` ends (RFC 1035 section 4.1.4):
/// after the terminating zero byte, or after a two-byte compression pointer.
pub open spec fn spec_skip_name_from(p: Seq<u8>, offset: int) -> Result<usize, DnsParseError>
    decreases p.len() - offset,
{
    if offset < 0 || offset >= p.len() {
        Err(DnsParseError::UnexpectedEndOfPayload)
    } else {
        let b = p[offset];
        if b >= 0xC0 {
            if offset + 2 > p.len() {
                Err(DnsParseError::UnexpectedEndOfPayload)
            } else {
                Ok((offset + 2) as usize)
            }
        } else if b == 0 {
            Ok((offset + 1) as usize)
        } else if b <= 63 {
            if offset + 1 + b > p.len() {
                Err(DnsParseError::UnexpectedEndOfPayload)
            } else {
                spec_skip_name_from(p, offset + 1 + b)
            }
        } else {
            Err(DnsParseError::InvalidLabelLength(b as usize))
        }
    }
}

/// Returns the length of the (possibly compressed) name at the start of
/// `payload`.
pub fn skip_name(payload: &[u8]) -> (r: Result<usize, DnsParseError>)
    ensures
        r == spec_skip_name_from(payload@, 0),
        r matches Ok(n) ==> 0 < n <= payload@.len(),
{
    let mut offset: usize = 0;
    while offset < payload.len()
        invariant
            offset <= payload@.len(),
            spec_skip_name_from(payload@, offset as int) == spec_skip_name_from(payload@, 0),
        decreases payload@.len() - offset,
    {
        let b = payload[offset];
        assert((b & 0xC0u8 == 0xC0u8) == (b >= 0xC0u8)) by (bit_vector);
        if (b & 0xC0) == 0xC0 {
            if payload.len() - offset < 2 {
                return Err(DnsParseError::UnexpectedEndOfPayload);
            }
            return Ok(offset + 2);
        } else if b == 0 {
            return Ok(offset + 1);
        } else if b <= 63 {
            let label_len = b as usize;
            if label_len >= payload.len() - offset {
                return Err(DnsParseError::UnexpectedEndOfPayload);
            }
            offset = offset + 1 + label_len;
        } else {
            return Err(DnsParseError::InvalidLabelLength(b as usize));
        }
    }
    Err(DnsParseError::UnexpectedEndOfPayload)
}

/// True when every byte is an ASCII code (below 128).
pub open spec fn all_ascii(bytes: Seq<u8>) -> bool {
    forall|i: int| 0 <= i < bytes.len() ==> bytes[i] < 128
}

/// The characters of ASCII bytes.
pub open spec fn ascii_chars_of(bytes: Seq<u8>) -> Seq<char> {
    bytes.map_values(|b: u8| b as char)
}

/// `name` followed by `label`, with a dot between them unless `name` is empty.
pub open spec fn join_label(name: Seq<char>, label: Seq<char>) -> Seq<char> {
    if name.len() == 0 {
        label
    } else {
        name.push('.') + label
    }
}

/// Decoding the QNAME labels of `p` from `offset` on, appending them to
/// `name`, where `total` bytes of labels were decoded before: the offset just
/// past the terminating zero byte (or the error) and the name so far.
pub open spec fn spec_qname_from(p: Seq<u8>, offset: int, name: Seq<char>, total: int) -> (
    Result<usize, DnsParseError>,
    Seq<char>,
)
    decreases p.len() - offset,
{
    if offset < 0 || offset >= p.len() {
        (Err(DnsParseError::UnexpectedEndOfPayload), name)
    } else {
        let l = p[offset] as int;
        if l == 0 {
            (Ok((offset + 1) as usize), name)
        } else if l > 63 {
            (Err(DnsParseError::InvalidLabelLength(l as usize)), name)
        } else if offset + 1 + l > p.len() {
            (Err(DnsParseError::UnexpectedEndOfPayload), name)
        } else if total + l + 1 > 255 {
            (Err(DnsParseError::LabelExceedsMaxLen), name)
        } else if !all_ascii(p.subrange(offset + 1, offset + 1 + l)) {
            (Err(DnsParseError::NonAsciiDomainName), name)
        } else {
            spec_qname_from(
                p,
                offset + 1 + l,
                join_label(name, ascii_chars_of(p.subrange(offset + 1, offset + 1 + l))),
                total + l + 1,
            )
        }
    }
}

/// True when every character is an ASCII character.
pub open spec fn ascii_text(name: Seq<char>) -> bool {
    forall|i: int| 0 <= i < name.len() ==> (name[i] as int) < 128
}

proof fn lemma_qname_from_short_ascii(p: Seq<u8>, offset: int, name: Seq<char>, total: int)
    requires
        0 <= total <= 255,
        (total == 0 && name.len() == 0) || (total >= 2 && name.len() + 1 == total),
        ascii_text(name),
    ensures
        spec_qname_from(p, offset, name, total).1.len() <= 254,
        ascii_text(spec_qname_from(p, offset, name, total).1),
    decreases p.len() - offset,
{
    if offset < 0 || offset >= p.len() {
    } else {
        let l = p[offset] as int;
        if l == 0 || l > 63 || offset + 1 + l > p.len() || total + l + 1 > 255 {
        } else if !all_ascii(p.subrange(offset + 1, offset + 1 + l)) {
        } else {
            let label = ascii_chars_of(p.subrange(offset + 1, offset + 1 + l));
            let next = join_label(name, label);
            assert(label.len() == l);
            assert forall|i: int| 0 <= i < label.len() implies (label[i] as int) < 128 by {
                assert(p.subrange(offset + 1, offset + 1 + l)[i] < 128);
            }
            assert forall|i: int| 0 <= i < next.len() implies (next[i] as int) < 128 by {
                if name.len() == 0 {
                } else if i < name.len() {
                    assert(next[i] == name[i]);
                } else if i == name.len() {
                    assert(next[i] == '.');
                } else {
                    assert(next[i] == label[i - name.len() - 1]);
                }
            }
            lemma_qname_from_short_ascii(p, offset + 1 + l, next, total + l + 1);
        }
    }
}

/// A decoded domain name is ASCII text of at most 254 characters, whatever
/// the QNAME bytes are and whether or not decoding succeeds: each label adds
/// its length plus one to a total that may not exceed 255.
pub proof fn lemma_domain_name_short_ascii(qname: Seq<u8>)
    ensures
        spec_qname_from(qname, 0, Seq::empty(), 0).1.len() <= 254,
        ascii_text(spec_qname_from(qname, 0, Seq::empty(), 0).1),
{
    lemma_qname_from_short_ascii(qname, 0, Seq::empty(), 0);
}

/// Decodes the length-prefixed labels of a QNAME at the start of `payload`
/// (RFC 1035 section 4.1.2), appending them to `out` joined by dots, and
/// returns the number of bytes the QNAME takes, its zero byte included.
#[verifier::loop_isolation(false)]
pub fn parse_qname(payload: &[u8], out: &mut String) -> (r: Result<usize, DnsParseError>)
    ensures
        r == spec_qname_from(payload@, 0, old(out)@, 0).0,
        final(out)@ == spec_qname_from(payload@, 0, old(out)@, 0).1,
        r matches Ok(n) ==> 0 < n <= payload@.len(),
{
    if payload.len() == 0 {
        return Err(DnsParseError::UnexpectedEndOfPayload);
    }
    let mut offset: usize = 0;
    let mut total_domain_len: usize = 0;
    while offset < payload.len()
        invariant
            offset <= payload@.len(),
            total_domain_len <= 255,
            spec_qname_from(payload@, offset as int, out@, total_domain_len as int)
                == spec_qname_from(payload@, 0, old(out)@, 0),
        decreases payload@.len() - offset,
    {
        let label_len = payload[offset] as usize;
        if label_len == 0 {
            return Ok(offset + 1);
        }
        if label_len > 63 {
            return Err(DnsParseError::InvalidLabelLength(label_len));
        }
        let label_start = offset + 1;
        if label_len > payload.len() - label_start {
            return Err(DnsParseError::UnexpectedEndOfPayload);
        }
        let label_end = label_start + label_len;
        if total_domain_len + label_len + 1 > 255 {
            return Err(DnsParseError::LabelExceedsMaxLen);
        }
        let mut j: usize = label_start;
        while j < label_end
            invariant
                label_start <= j <= label_end <= payload@.len(),
                forall|k: int| label_start <= k < j ==> payload@[k] < 128,
            decreases label_end - j,
        {
            if payload[j] >= 128 {
                assert(payload@.subrange(label_start as int, label_end as int)[j - label_start]
                    >= 128);
                return Err(DnsParseError::NonAsciiDomainName);
            }
            j = j + 1;
        }
        let ghost label = payload@.subrange(label_start as int, label_end as int);
        assert(all_ascii(label));
        let ghost before = out@;
        if !out.as_str().is_empty() {
            push_char(out, '.');
        }
        let ghost base = out@;
        let mut j: usize = label_start;
        while j < label_end
            invariant
                label_start <= j <= label_end <= payload@.len(),
                label == payload@.subrange(label_start as int, label_end as int),
                out@ == base + ascii_chars_of(payload@.subrange(label_start as int, j as int)),
            decreases label_end - j,
        {
            let ghost prev = out@;
            push_char(out, payload[j] as char);
            assert(payload@.subrange(label_start as int, j + 1) =~= payload@.subrange(
                label_start as int,
                j as int,
            ).push(payload@[j as int]));
            assert(out@ =~= base + ascii_chars_of(payload@.subrange(label_start as int, j + 1)));
            j = j + 1;
        }
        assert(out@ =~= join_label(before, ascii_chars_of(label)));
        total_domain_len = total_domain_len + label_len + 1;
        offset = label_end;
    }
    Err(DnsParseError::UnexpectedEndOfPayload)
}

/// The record that one decoded DNS response fills; it is reused from one
/// datagram to the next.
#[derive(Debug)]
pub struct DnsResponse {
    pub src_ip: String,
    pub dst_ip: String,
    pub src_port: u32,
    pub dst_port: u32,
    pub domain_name: String,
    pub resolved_ip: String,
    pub resolved_ip_raw: Vec<u8>,
    pub ip_family: u32,
    pub timestamp_ns: u64,
}

/// The contents of a `DnsResponse`.
pub ghost struct DnsResponseView {
    pub src_ip: Seq<char>,
    pub dst_ip: Seq<char>,
    pub src_port: u32,
    pub dst_port: u32,
    pub domain_name: Seq<char>,
    pub resolved_ip: Seq<char>,
    pub resolved_ip_raw: Seq<u8>,
    pub ip_family: u32,
    pub timestamp_ns: u64,
}

impl View for DnsResponse {
    type V = DnsResponseView;

    open spec fn view(&self) -> DnsResponseView {
        DnsResponseView {
            src_ip: self.src_ip@,
            dst_ip: self.dst_ip@,
            src_port: self.src_port,
            dst_port: self.dst_port,
            domain_name: self.domain_name@,
            resolved_ip: self.resolved_ip@,
            resolved_ip_raw: self.resolved_ip_raw@,
            ip_family: self.ip_family,
            timestamp_ns: self.timestamp_ns,
        }
    }
}

/// The record with every text and byte field empty and every number zero.
pub open spec fn empty_response() -> DnsResponseView {
    DnsResponseView {
        src_ip: Seq::empty(),
        dst_ip: Seq::empty(),
        src_port: 0,
        dst_port: 0,
        domain_name: Seq::empty(),
        resolved_ip: Seq::empty(),
        resolved_ip_raw: Seq::empty(),
        ip_family: 0,
        timestamp_ns: 0,
    }
}

impl DnsResponse {
    /// An empty record.
    pub fn new() -> (r: Self)
        ensures
            r@ == empty_response(),
    {
        DnsResponse {
            src_ip: String::new(),
            dst_ip: String::new(),
            src_port: 0,
            dst_port: 0,
            domain_name: String::new(),
            resolved_ip: String::new(),
            resolved_ip_raw: Vec::new(),
            ip_family: 0,
            timestamp_ns: 0,
        }
    }
}

impl Default for DnsResponse {
    fn default() -> (r: Self)
        ensures
            r@ == empty_response(),
    {
        DnsResponse::new()
    }
}

/// Empties every field of `slot`, keeping the buffers of its texts and bytes.
pub fn reset_slot(slot: &mut DnsResponse)
    ensures
        final(slot)@ == empty_response(),
{
    clear_string(&mut slot.src_ip);
    clear_string(&mut slot.dst_ip);
    clear_string(&mut slot.domain_name);
    clear_string(&mut slot.resolved_ip);
    slot.resolved_ip_raw.clear();
    slot.src_port = 0;
    slot.dst_port = 0;
    slot.ip_family = 0;
    slot.timestamp_ns = 0;
}

/// The text of an address: dotted decimal for IPv4, the standard library's
/// notation for IPv6; other families are refused.
pub open spec fn spec_ip_text(ip: RawIpAddr) -> Result<Seq<char>, DnsParseError> {
    if ip.family == AF_INET {
        Ok(dotted_quad(ip.bytes@.take(4)))
    } else if ip.family == AF_INET6 {
        Ok(ipv6_text(ip.bytes@))
    } else {
        Err(DnsParseError::UnsupportedAddressFamily(ip.family))
    }
}

/// Appends the text of `raw_ip` to `out`.
pub fn parse_ip(raw_ip: &RawIpAddr, out: &mut String) -> (r: Result<(), DnsParseError>)
    ensures
        match spec_ip_text(*raw_ip) {
            Ok(t) => r is Ok && final(out)@ == old(out)@ + t,
            Err(e) => r == Err::<(), DnsParseError>(e) && final(out)@ == old(out)@,
        },
{
    if raw_ip.family == AF_INET {
        push_ipv4(out, raw_ip.bytes[0], raw_ip.bytes[1], raw_ip.bytes[2], raw_ip.bytes[3]);
        assert(raw_ip.bytes@.take(4) =~= seq![
            raw_ip.bytes[0],
            raw_ip.bytes[1],
            raw_ip.bytes[2],
            raw_ip.bytes[3],
        ]);
        Ok(())
    } else if raw_ip.family == AF_INET6 {
        push_ipv6(out, raw_ip.bytes);
        Ok(())
    } else {
        Err(DnsParseError::UnsupportedAddressFamily(raw_ip.family))
    }
}

/// Appends the bytes of `src` to `v`.
pub(crate) fn append_bytes(v: &mut Vec<u8>, src: &[u8])
    ensures
        final(v)@ == old(v)@ + src@,
{
    let mut k: usize = 0;
    while k < src.len()
        invariant
            k <= src@.len(),
            v@ == old(v)@ + src@.subrange(0, k as int),
        decreases src@.len() - k,
    {
        v.push(src[k]);
        assert(src@.subrange(0, k + 1) =~= src@.subrange(0, k as int).push(src@[k as int]));
        k = k + 1;
    }
    assert(src@.subrange(0, k as int) =~= src@);
}

/// What decoding answers gathers: the address texts, the address bytes and
/// the family of the last address.
pub type AnswerState = (Seq<char>, Seq<u8>, u32);

/// Decoding `remaining` resource records of the answer section `p` from
/// `offset` on, starting from `st`: A and AAAA records append their address;
/// other records are skipped.
pub open spec fn spec_answers(p: Seq<u8>, offset: int, remaining: nat, st: AnswerState) -> (
    Result<(), DnsParseError>,
    AnswerState,
)
    decreases remaining,
{
    if remaining == 0 {
        (Ok(()), st)
    } else if offset < 0 || offset >= p.len() {
        (Err(DnsParseError::UnexpectedEndOfPayload), st)
    } else {
        match spec_skip_name_from(p.subrange(offset, p.len() as int), 0) {
            Err(e) => (Err(e), st),
            Ok(n) => {
                let o = offset + n;
                if o + 10 > p.len() {
                    (Err(DnsParseError::UnexpectedEndOfPayload), st)
                } else {
                    let rtype = be16(p[o], p[o + 1]);
                    let rdlen = be16(p[o + 8], p[o + 9]) as int;
                    let d = o + 10;
                    if d + rdlen > p.len() {
                        (Err(DnsParseError::UnexpectedEndOfPayload), st)
                    } else {
                        let rdata = p.subrange(d, d + rdlen);
                        if rtype == 1 {
                            if rdlen != 4 {
                                (Err(DnsParseError::UnexpectedEndOfPayload), st)
                            } else {
                                spec_answers(
                                    p,
                                    d + rdlen,
                                    (remaining - 1) as nat,
                                    (st.0 + dotted_quad(rdata), st.1 + rdata, AF_INET),
                                )
                            }
                        } else if rtype == 28 {
                            if rdlen != 16 {
                                (Err(DnsParseError::UnexpectedEndOfPayload), st)
                            } else {
                                spec_answers(
                                    p,
                                    d + rdlen,
                                    (remaining - 1) as nat,
                                    (st.0 + ipv6_text(rdata), st.1 + rdata, AF_INET6),
                                )
                            }
                        } else {
                            spec_answers(p, d + rdlen, (remaining - 1) as nat, st)
                        }
                    }
                }
            }
        }
    }
}

/// Decoding the answer section `p` with `anscount` records into the address
/// fields `st` of a record.
pub open spec fn spec_parse_rdata(p: Seq<u8>, anscount: u16, st: AnswerState) -> (
    Result<(), DnsParseError>,
    AnswerState,
) {
    if p.len() == 0 {
        (Err(DnsParseError::UnexpectedEndOfPayload), st)
    } else {
        spec_answers(p, 0, anscount as nat, st)
    }
}

/// Decodes the `anscount` resource records of the answer section `payload`
/// (RFC 1035 section 4.1.3), appending the text and the bytes of each A and
/// AAAA address to `slot` and recording the family of the last one.
#[verifier::loop_isolation(false)]
pub fn parse_rdata(payload: &[u8], anscount: u16, slot: &mut DnsResponse) -> (r: Result<
    (),
    DnsParseError,
>)
    ensures
        ({
            let (res, st) = spec_parse_rdata(
                payload@,
                anscount,
                (old(slot).resolved_ip@, old(slot).resolved_ip_raw@, old(slot).ip_family),
            );
            &&& r == res
            &&& final(slot)@ == (DnsResponseView {
                resolved_ip: st.0,
                resolved_ip_raw: st.1,
                ip_family: st.2,
                ..old(slot)@
            })
        }),
        (old(slot).resolved_ip@.len() == 0 <==> old(slot).resolved_ip_raw@.len() == 0) ==> (
        final(slot).resolved_ip@.len() == 0 <==> final(slot).resolved_ip_raw@.len() == 0),
{
    if payload.len() == 0 {
        return Err(DnsParseError::UnexpectedEndOfPayload);
    }
    let ghost st0 = (old(slot).resolved_ip@, old(slot).resolved_ip_raw@, old(slot).ip_family);
    let mut offset: usize = 0;
    let mut i: u16 = 0;
    while i < anscount
        invariant
            i <= anscount,
            offset <= payload@.len(),
            spec_answers(
                payload@,
                offset as int,
                (anscount - i) as nat,
                (slot.resolved_ip@, slot.resolved_ip_raw@, slot.ip_family),
            ) == spec_answers(payload@, 0, anscount as nat, st0),
            slot@ == (DnsResponseView {
                resolved_ip: slot.resolved_ip@,
                resolved_ip_raw: slot.resolved_ip_raw@,
                ip_family: slot.ip_family,
                ..old(slot)@
            }),
            (old(slot).resolved_ip@.len() == 0 <==> old(slot).resolved_ip_raw@.len() == 0) ==> (
            slot.resolved_ip@.len() == 0 <==> slot.resolved_ip_raw@.len() == 0),
            slot.resolved_ip@.len() >= old(slot).resolved_ip@.len(),
            slot.resolved_ip_raw@.len() >= old(slot).resolved_ip_raw@.len(),
        decreases anscount - i,
    {
        let ghost st = (slot.resolved_ip@, slot.resolved_ip_raw@, slot.ip_family);
        if offset >= payload.len() {
            return Err(DnsParseError::UnexpectedEndOfPayload);
        }
        let rest = &payload[offset..payload.len()];
        let n = skip_name(rest)?;
        let o = offset + n;
        if payload.len() < 10 || o > payload.len() - 10 {
            return Err(DnsParseError::UnexpectedEndOfPayload);
        }
        let rtype = RecordType::try_from(read_be16(payload, o))?;
        let rdlength = read_be16(payload, o + 8) as usize;
        let d = o + 10;
        if rdlength > payload.len() - d {
            return Err(DnsParseError::UnexpectedEndOfPayload);
        }
        let ghost rdata = payload@.subrange(d as int, (d + rdlength) as int);
        match rtype {
            RecordType::A => {
                if rdlength != 4 {
                    return Err(DnsParseError::UnexpectedEndOfPayload);
                }
                push_ipv4(
                    &mut slot.resolved_ip,
                    payload[d],
                    payload[d + 1],
                    payload[d + 2],
                    payload[d + 3],
                );
                assert(rdata =~= seq![payload[d as int], payload[d + 1], payload[d + 2], payload[d + 3]]);
                append_bytes(&mut slot.resolved_ip_raw, &payload[d..d + 4]);
                slot.ip_family = AF_INET;
            },
            RecordType::AAAA => {
                if rdlength != 16 {
                    return Err(DnsParseError::UnexpectedEndOfPayload);
                }
                let mut octets = [0u8; 16];
                let mut k: usize = 0;
                while k < 16
                    invariant
                        k <= 16,
                        forall|m: int| 0 <= m < k ==> octets@[m] == payload@[d + m],
                    decreases 16 - k,
                {
                    octets[k] = payload[d + k];
                    k = k + 1;
                }
                assert(octets@ =~= rdata);
                push_ipv6(&mut slot.resolved_ip, octets);
                append_bytes(&mut slot.resolved_ip_raw, &payload[d..d + 16]);
                slot.ip_family = AF_INET6;
            },
            RecordType::CNAME => {},
            RecordType::UNSUPPORTED(_) => {},
        }
        offset = d + rdlength;
        i = i + 1;
    }
    Ok(())
}

/// Decoding the captured datagram `ev`: the outcome and the record that
/// decoding leaves behind, whatever the record held before.
pub open spec fn spec_parse_dns(ev: RawDnsEvent) -> (Result<(), DnsParseError>, DnsResponseView) {
    let s0 = empty_response();
    match spec_ip_text(ev.src_ip) {
        Err(e) => (Err(e), s0),
        Ok(src) => {
            let s1 = DnsResponseView { src_ip: src, ..s0 };
            match spec_ip_text(ev.dst_ip) {
                Err(e) => (Err(e), s1),
                Ok(dst) => {
                    let s2 = DnsResponseView {
                        dst_ip: dst,
                        src_port: ev.src_port as u32,
                        dst_port: ev.dst_port as u32,
                        timestamp_ns: ev.timestamp_ns,
                        ..s1
                    };
                    let total = ev.payload_len as int;
                    if total < 12 {
                        (Err(DnsParseError::UnexpectedEndOfPayload), s2)
                    } else {
                        let p = ev.payload@.take(total);
                        let (qr, name) = spec_qname_from(p.skip(12), 0, Seq::empty(), 0);
                        let s3 = DnsResponseView { domain_name: name, ..s2 };
                        match qr {
                            Err(e) => (Err(e), s3),
                            Ok(qlen) => {
                                let off = 12 + qlen + 4;
                                if off > total {
                                    (Err(DnsParseError::UnexpectedEndOfPayload), s3)
                                } else {
                                    let (ar, st) = spec_parse_rdata(
                                        p.skip(off),
                                        be16(p[6], p[7]) as u16,
                                        (s3.resolved_ip, s3.resolved_ip_raw, s3.ip_family),
                                    );
                                    (
                                        ar,
                                        DnsResponseView {
                                            resolved_ip: st.0,
                                            resolved_ip_raw: st.1,
                                            ip_family: st.2,
                                            ..s3
                                        },
                                    )
                                }
                            },
                        }
                    }
                },
            }
        },
    }
}

/// Decodes the captured DNS response `raw_event` into `slot`, emptying the
/// slot first so that its buffers are reused.
pub fn parse_dns_into(raw_event: &RawDnsEvent, slot: &mut DnsResponse) -> (r: Result<
    (),
    DnsParseError,
>)
    requires
        raw_event.payload_len <= 512,
    ensures
        r == spec_parse_dns(*raw_event).0,
        final(slot)@ == spec_parse_dns(*raw_event).1,
        final(slot).resolved_ip@.len() == 0 <==> final(slot).resolved_ip_raw@.len() == 0,
{
    reset_slot(slot);
    parse_ip(&raw_event.src_ip, &mut slot.src_ip)?;
    parse_ip(&raw_event.dst_ip, &mut slot.dst_ip)?;
    slot.src_port = raw_event.src_port as u32;
    slot.dst_port = raw_event.dst_port as u32;
    slot.timestamp_ns = raw_event.timestamp_ns;

    let total_len = raw_event.payload_len as usize;
    if total_len < DnsHdr::LEN {
        return Err(DnsParseError::UnexpectedEndOfPayload);
    }
    let whole = raw_event.payload.as_slice();
    let dns_payload = &whole[0..total_len];
    let ghost p = raw_event.payload@.take(total_len as int);
    assert(dns_payload@ =~= p);

    let qname_payload = &dns_payload[DnsHdr::LEN..total_len];
    assert(qname_payload@ =~= p.skip(12));
    let qname_len = parse_qname(qname_payload, &mut slot.domain_name)?;

    let anscount = DnsHdr::from(dns_payload)?.answer_rrs;

    let rdata_offset = DnsHdr::LEN + qname_len + 4;
    if rdata_offset > total_len {
        return Err(DnsParseError::UnexpectedEndOfPayload);
    }
    let rdata_payload = &dns_payload[rdata_offset..total_len];
    assert(rdata_payload@ =~= p.skip(rdata_offset as int));
    parse_rdata(rdata_payload, anscount, slot)?;
    Ok(())
}

/// Whatever datagram is decoded, the domain name left in the record is ASCII
/// text of at most 254 characters.
pub proof fn lemma_parsed_domain_short_ascii(ev: RawDnsEvent)
    ensures
        spec_parse_dns(ev).1.domain_name.len() <= 254,
        ascii_text(spec_parse_dns(ev).1.domain_name),
{
    let total = ev.payload_len as int;
    if total >= 12 {
        lemma_domain_name_short_ascii(ev.payload@.take(total).skip(12));
    }
}

/// The family recorded with the addresses always has the bytes of its
/// address among them.
pub open spec fn family_backed(st: AnswerState) -> bool {
    &&& st.2 == AF_INET ==> st.1.len() >= 4
    &&& st.2 == AF_INET6 ==> st.1.len() >= 16
}

proof fn lemma_answers_keep_family_backed(p: Seq<u8>, offset: int, remaining: nat, st: AnswerState)
    requires
        family_backed(st),
    ensures
        family_backed(spec_answers(p, offset, remaining, st).1),
    decreases remaining,
{
    if remaining == 0 || offset < 0 || offset >= p.len() {
    } else {
        match spec_skip_name_from(p.subrange(offset, p.len() as int), 0) {
            Err(e) => {},
            Ok(n) => {
                let o = offset + n;
                if o + 10 <= p.len() {
                    let rtype = be16(p[o], p[o + 1]);
                    let rdlen = be16(p[o + 8], p[o + 9]) as int;
                    let d = o + 10;
                    if d + rdlen <= p.len() {
                        let rdata = p.subrange(d, d + rdlen);
                        if rtype == 1 {
                            if rdlen == 4 {
                                lemma_answers_keep_family_backed(
                                    p,
                                    d + rdlen,
                                    (remaining - 1) as nat,
                                    (st.0 + dotted_quad(rdata), st.1 + rdata, AF_INET),
                                );
                            }
                        } else if rtype == 28 {
                            if rdlen == 16 {
                                lemma_answers_keep_family_backed(
                                    p,
                                    d + rdlen,
                                    (remaining - 1) as nat,
                                    (st.0 + ipv6_text(rdata), st.1 + rdata, AF_INET6),
                                );
                            }
                        } else {
                            lemma_answers_keep_family_backed(p, d + rdlen, (remaining - 1) as nat, st);
                        }
                    }
                }
            },
        }
    }
}

/// Whatever datagram is decoded, the record it leaves holds at least four
/// address bytes when its family is IPv4 and at least sixteen when it is
/// IPv6: the address that the FQDN policy reads is always there.
pub proof fn lemma_decoded_family_has_address(ev: RawDnsEvent)
    ensures
        family_backed(
            (
                spec_parse_dns(ev).1.resolved_ip,
                spec_parse_dns(ev).1.resolved_ip_raw,
                spec_parse_dns(ev).1.ip_family,
            ),
        ),
{
    let total = ev.payload_len as int;
    if total >= 12 {
        let p = ev.payload@.take(total);
        let (qr, name) = spec_qname_from(p.skip(12), 0, Seq::empty(), 0);
        if let Ok(qlen) = qr {
            let off = 12 + qlen + 4;
            if off <= total {
                let rd = p.skip(off);
                if rd.len() != 0 {
                    lemma_answers_keep_family_backed(
                        rd,
                        0,
                        be16(p[6], p[7]) as u16 as nat,
                        (Seq::empty(), Seq::empty(), 0),
                    );
                }
            }
        }
    }
}

proof fn lemma_skip_name_from_prefix(p: Seq<u8>, q: Seq<u8>, offset: int, n: int)
    requires
        spec_skip_name_from(p, offset) == Ok::<usize, DnsParseError>(n as usize),
        0 <= n <= p.len(),
        p.len() <= usize::MAX,
        n <= q.len(),
        q.take(n) == p.take(n),
    ensures
        spec_skip_name_from(q, offset) == Ok::<usize, DnsParseError>(n as usize),
    decreases p.len() - offset,
{
    assert(0 <= offset < p.len());
    lemma_skip_name_within(p, offset);
    assert(offset < n);
    assert(q.take(n)[offset] == q[offset]);
    assert(p.take(n)[offset] == p[offset]);
    assert(q[offset] == p[offset]);
    let b = p[offset];
    if b >= 0xC0 {
    } else if b == 0 {
    } else if b <= 63 {
        lemma_skip_name_from_prefix(p, q, offset + 1 + b, n);
    }
}

/// The extent of a name does not depend on the bytes after it: a name that
/// takes `n` bytes at the start of `payload` takes the same `n` bytes at the
/// start of any sequence that begins with those bytes.
pub proof fn lemma_name_extent_ignores_following_bytes(payload: Seq<u8>, rest: Seq<u8>)
    requires
        payload.len() <= usize::MAX,
        spec_skip_name_from(payload, 0) is Ok,
    ensures
        ({
            let n = spec_skip_name_from(payload, 0)->Ok_0 as int;
            &&& 1 <= n <= payload.len()
            &&& spec_skip_name_from(payload.take(n) + rest, 0) == spec_skip_name_from(payload, 0)
        }),
{
    let n = spec_skip_name_from(payload, 0)->Ok_0 as int;
    lemma_skip_name_within(payload, 0);
    let q = payload.take(n) + rest;
    assert(q.take(n) =~= payload.take(n));
    lemma_skip_name_from_prefix(payload, q, 0, n);
}

proof fn lemma_skip_name_within(p: Seq<u8>, offset: int)
    requires
        0 <= offset,
        p.len() <= usize::MAX,
    ensures
        spec_skip_name_from(p, offset) matches Ok(n) ==> offset < n <= p.len(),
    decreases p.len() - offset,
{
    if offset < p.len() {
        let b = p[offset];
        if b < 0xC0 && b != 0 && b <= 63 && offset + 1 + b <= p.len() {
            lemma_skip_name_within(p, offset + 1 + b);
        }
    }
}

proof fn lemma_qname_from_is_name(p: Seq<u8>, offset: int, name: Seq<char>, total: int)
    ensures
        spec_qname_from(p, offset, name, total).0 matches Ok(n) ==> spec_skip_name_from(p, offset)
            == Ok::<usize, DnsParseError>(n),
    decreases p.len() - offset,
{
    if offset < 0 || offset >= p.len() {
    } else {
        let l = p[offset] as int;
        if l == 0 || l > 63 || offset + 1 + l > p.len() || total + l + 1 > 255 {
        } else if !all_ascii(p.subrange(offset + 1, offset + 1 + l)) {
        } else {
            lemma_qname_from_is_name(
                p,
                offset + 1 + l,
                join_label(name, ascii_chars_of(p.subrange(offset + 1, offset + 1 + l))),
                total + l + 1,
            );
        }
    }
}

/// A QNAME that decodes is a name of the same extent: `skip_name` measures
/// the same number of bytes, terminator included.
pub proof fn lemma_qname_and_skip_name_agree(qname: Seq<u8>, name: Seq<char>)
    ensures
        spec_qname_from(qname, 0, name, 0).0 matches Ok(n) ==> spec_skip_name_from(qname, 0)
            == Ok::<usize, DnsParseError>(n),
{
    lemma_qname_from_is_name(qname, 0, name, 0);
}

/// The wire form of a QNAME made of `labels`: each label after its length
/// byte, then a zero byte.
pub open spec fn qname_wire(labels: Seq<Seq<u8>>) -> Seq<u8>
    decreases labels.len(),
{
    if labels.len() == 0 {
        seq![0u8]
    } else {
        seq![labels[0].len() as u8] + labels[0] + qname_wire(labels.drop_first())
    }
}

/// The characters of a label's bytes.
pub open spec fn label_chars(label: Seq<u8>) -> Seq<char> {
    Seq::new(label.len(), |i: int| label[i] as char)
}

/// The labels written as text, separated by dots.
pub open spec fn dotted_labels(labels: Seq<Seq<u8>>) -> Seq<char>
    decreases labels.len(),
{
    if labels.len() == 0 {
        Seq::empty()
    } else if labels.len() == 1 {
        label_chars(labels[0])
    } else {
        label_chars(labels[0]) + seq!['.'] + dotted_labels(labels.drop_first())
    }
}

/// True when every label has 1 to 63 bytes, all below 128 (letters, digits,
/// hyphens and any other ASCII).
pub open spec fn ascii_labels(labels: Seq<Seq<u8>>) -> bool {
    forall|i: int|
        0 <= i < labels.len() ==> 1 <= #[trigger] labels[i].len() <= 63 && forall|j: int|
            0 <= j < labels[i].len() ==> labels[i][j] < 128
}

/// `name` followed by the text `t`, with a dot between them when both are
/// non-empty.
pub open spec fn then_text(name: Seq<char>, t: Seq<char>) -> Seq<char> {
    if t.len() == 0 {
        name
    } else if name.len() == 0 {
        t
    } else {
        name + seq!['.'] + t
    }
}

proof fn lemma_qname_wire_len(labels: Seq<Seq<u8>>)
    ensures
        qname_wire(labels).len() >= 1,
    decreases labels.len(),
{
    if labels.len() > 0 {
        lemma_qname_wire_len(labels.drop_first());
    }
}

proof fn lemma_qname_from_wire(
    p: Seq<u8>,
    offset: int,
    labels: Seq<Seq<u8>>,
    name: Seq<char>,
    total: int,
)
    requires
        0 <= offset,
        0 <= total,
        ascii_labels(labels),
        offset + qname_wire(labels).len() <= p.len(),
        p.subrange(offset, offset + qname_wire(labels).len()) == qname_wire(labels),
        total + qname_wire(labels).len() - 1 <= 255,
    ensures
        spec_qname_from(p, offset, name, total) == (
            Ok::<usize, DnsParseError>((offset + qname_wire(labels).len()) as usize),
            then_text(name, dotted_labels(labels)),
        ),
    decreases labels.len(),
{
    let w = qname_wire(labels);
    assert(p[offset] == w[0]);
    if labels.len() == 0 {
        assert(dotted_labels(labels) == Seq::<char>::empty());
    } else {
        let l = labels[0];
        let rest = labels.drop_first();
        let wr = qname_wire(rest);
        lemma_qname_wire_len(rest);
        assert(1 <= l.len() <= 63);
        assert(w == seq![l.len() as u8] + l + wr);
        assert(w[0] == l.len() as u8);
        let len = l.len() as int;
        assert(p[offset] as int == len);
        assert(p.subrange(offset + 1, offset + 1 + len) =~= l) by {
            assert forall|j: int| 0 <= j < len implies p.subrange(offset + 1, offset + 1 + len)[j]
                == l[j] by {
                assert(p[offset + 1 + j] == w[1 + j]);
            }
        }
        assert(all_ascii(p.subrange(offset + 1, offset + 1 + len)));
        assert forall|i: int| 0 <= i < rest.len() implies 1 <= #[trigger] rest[i].len() <= 63
            && forall|j: int| 0 <= j < rest[i].len() ==> rest[i][j] < 128 by {
            assert(rest[i] == labels[i + 1]);
        }
        assert(p.subrange(offset + 1 + len, offset + 1 + len + wr.len()) =~= wr) by {
            assert forall|j: int| 0 <= j < wr.len() implies p.subrange(
                offset + 1 + len,
                offset + 1 + len + wr.len(),
            )[j] == wr[j] by {
                assert(p[offset + 1 + len + j] == w[1 + len + j]);
            }
        }
        let joined = join_label(name, ascii_chars_of(p.subrange(offset + 1, offset + 1 + len)));
        lemma_qname_from_wire(p, offset + 1 + len, rest, joined, total + len + 1);
        assert(ascii_chars_of(p.subrange(offset + 1, offset + 1 + len)) =~= label_chars(l));
        if rest.len() == 0 {
            assert(dotted_labels(rest) == Seq::<char>::empty());
            assert(dotted_labels(labels) == label_chars(l));
        } else {
            assert(dotted_labels(labels) == label_chars(l) + seq!['.'] + dotted_labels(rest));
            lemma_dotted_labels_nonempty(rest);
        }
        assert(then_text(joined, dotted_labels(rest)) =~= then_text(name, dotted_labels(labels)));
    }
}

proof fn lemma_dotted_labels_nonempty(labels: Seq<Seq<u8>>)
    requires
        labels.len() >= 1,
        labels[0].len() >= 1,
    ensures
        dotted_labels(labels).len() >= 1,
{
    if labels.len() > 1 {
    }
}

/// Any QNAME made of labels of 1 to 63 ASCII bytes (letters, digits,
/// hyphens, anything below 128), at most 255 bytes of labels in all and
/// ended by a zero byte decodes, whatever follows it, to its own length and
/// to the labels' characters joined by dots.
pub proof fn lemma_ascii_qname_decodes(labels: Seq<Seq<u8>>, rest: Seq<u8>)
    requires
        ascii_labels(labels),
        qname_wire(labels).len() <= 256,
    ensures
        spec_qname_from(qname_wire(labels) + rest, 0, Seq::empty(), 0) == (
            Ok::<usize, DnsParseError>(qname_wire(labels).len() as usize),
            dotted_labels(labels),
        ),
{
    let p = qname_wire(labels) + rest;
    assert(p.subrange(0, qname_wire(labels).len() as int) =~= qname_wire(labels));
    lemma_qname_from_wire(p, 0, labels, Seq::empty(), 0);
}

proof fn lemma_qname_from_non_ascii(p: Seq<u8>, offset: int, name: Seq<char>, total: int)
    requires
        0 <= offset,
    ensures
        spec_qname_from(p, offset, name, total).0 == Err::<usize, DnsParseError>(
            DnsParseError::NonAsciiDomainName,
        ) ==> exists|i: int| offset <= i < p.len() && #[trigger] p[i] >= 128,
    decreases p.len() - offset,
{
    if offset < p.len() {
        let l = p[offset] as int;
        if l == 0 || l > 63 || offset + 1 + l > p.len() || total + l + 1 > 255 {
        } else if !all_ascii(p.subrange(offset + 1, offset + 1 + l)) {
            let k = choose|k: int| 0 <= k < l && !(#[trigger] p.subrange(offset + 1, offset + 1 + l)[k] < 128);
            assert(p[offset + 1 + k] >= 128);
        } else {
            lemma_qname_from_non_ascii(
                p,
                offset + 1 + l,
                join_label(name, ascii_chars_of(p.subrange(offset + 1, offset + 1 + l))),
                total + l + 1,
            );
        }
    }
}

/// A QNAME is refused as non-ASCII only when one of its bytes is 128 or
/// more: no ASCII character (letter, digit, hyphen or other) is refused.
pub proof fn lemma_non_ascii_error_needs_high_byte(qname: Seq<u8>)
    ensures
        spec_qname_from(qname, 0, Seq::empty(), 0).0 == Err::<usize, DnsParseError>(
            DnsParseError::NonAsciiDomainName,
        ) ==> exists|i: int| 0 <= i < qname.len() && #[trigger] qname[i] >= 128,
{
    lemma_qname_from_non_ascii(qname, 0, Seq::empty(), 0);
}

/// The text of an IPv4 endpoint is the dotted decimal of its first four
/// address bytes, each read as an unsigned number (0 to 255).
pub proof fn lemma_ipv4_endpoint_text(ip: RawIpAddr)
    requires
        ip.family == AF_INET,
    ensures
        spec_ip_text(ip) is Ok,
        is_dotted_quad_of(spec_ip_text(ip)->Ok_0, ip.bytes@.take(4)),
{
    lemma_dotted_quad_is_dotted_decimal(ip.bytes@.take(4));
}

} // verus!
