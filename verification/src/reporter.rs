//! The text of the watcher's metrics endpoint: one line per observed
//! connection, served as a plain-text HTTP response.
use vstd::prelude::*;
use vstd::string::*;
use crate::text::{
    decimal, dotted_quad, is_dotted_quad_of, lemma_dotted_quad_is_dotted_decimal, push_char,
    push_decimal, push_ipv4,
};
use crate::watcher_common::{AF_INET, AF_INET6, IpAddress};

verus! {

/// The lower-case hexadecimal digit of `d` (`0 <= d < 16`).
pub open spec fn hex_digit(d: nat) -> char {
    if d < 10 {
        (d + 48) as char
    } else {
        (d + 87) as char
    }
}

/// The two lower-case hexadecimal digits of a byte.
pub open spec fn hex_byte(b: u8) -> Seq<char> {
    seq![hex_digit(b as nat / 16), hex_digit(b as nat % 16)]
}

/// The first `n` groups of four hexadecimal digits of an IPv6 address,
/// separated by colons.
pub open spec fn hex_groups(o: Seq<u8>, n: nat) -> Seq<char>
    decreases n,
{
    if n == 0 {
        Seq::empty()
    } else if n == 1 {
        hex_byte(o[0]) + hex_byte(o[1])
    } else {
        hex_groups(o, (n - 1) as nat) + seq![':'] + hex_byte(o[2 * (n - 1)]) + hex_byte(
            o[2 * (n - 1) + 1],
        )
    }
}

/// The text of an address on the metrics page: dotted decimal for IPv4,
/// eight colon-separated groups of four hexadecimal digits for IPv6,
/// `unknown` otherwise.
pub open spec fn metric_address_text(ip: IpAddress) -> Seq<char> {
    match ip {
        IpAddress::V4(o) => dotted_quad(o@),
        IpAddress::V6(o) => hex_groups(o@, 8),
        IpAddress::Unknown => "unknown"@,
    }
}

/// Appends the two hexadecimal digits of `b` to `out`.
fn push_hex_byte(out: &mut String, b: u8)
    ensures
        final(out)@ == old(out)@ + hex_byte(b),
{
    let ghost start = out@;
    let hi = b / 16;
    let lo = b % 16;
    if hi < 10 {
        push_char(out, (hi + 48) as char);
    } else {
        push_char(out, (hi + 87) as char);
    }
    if lo < 10 {
        push_char(out, (lo + 48) as char);
    } else {
        push_char(out, (lo + 87) as char);
    }
    assert(out@ =~= start + hex_byte(b));
}

/// The text of `ip` on the metrics page.
pub fn format_ip(ip: &IpAddress) -> (s: String)
    ensures
        s@ == metric_address_text(*ip),
{
    match ip {
        IpAddress::V4(octets) => {
            let mut s = String::new();
            push_ipv4(&mut s, octets[0], octets[1], octets[2], octets[3]);
            assert(octets@ =~= seq![octets[0], octets[1], octets[2], octets[3]]);
            s
        },
        IpAddress::V6(octets) => {
            let mut s = String::new();
            let mut k: usize = 0;
            while k < 8
                invariant
                    k <= 8,
                    s@ == hex_groups(octets@, k as nat),
                decreases 8 - k,
            {
                if k > 0 {
                    push_char(&mut s, ':');
                }
                push_hex_byte(&mut s, octets[2 * k]);
                push_hex_byte(&mut s, octets[2 * k + 1]);
                k = k + 1;
            }
            s
        },
        IpAddress::Unknown => String::from_str("unknown"),
    }
}

/// What the watcher last saw of a connection.
#[derive(Clone, Copy, Debug)]
pub struct ConnectionInfo {
    pub family: u8,
    pub src_ip: IpAddress,
    pub src_port: u16,
    pub dst_ip: IpAddress,
    pub dst_port: u16,
}

/// The metrics line for the last connection a kernel function saw on one CPU.
pub open spec fn metric_line_text(
    function_name: Seq<char>,
    cpu_id: nat,
    conn: ConnectionInfo,
    bytes: nat,
) -> Seq<char> {
    "packet_watcher_last_connection{function=\""@ + function_name + "\",cpu=\""@ + decimal(cpu_id)
        + "\",family=\""@ + (if conn.family == AF_INET {
        "IPv4"@
    } else {
        "IPv6"@
    }) + "\",src=\""@ + metric_address_text(conn.src_ip) + ":"@ + decimal(conn.src_port as nat)
        + "\",dst=\""@ + metric_address_text(conn.dst_ip) + ":"@ + decimal(conn.dst_port as nat)
        + "\"} "@ + decimal(bytes) + "\n"@
}

/// The metrics line for a connection of family IPv4 or IPv6; none for a
/// slot that holds no connection of either family.
pub fn connection_metric_line(function_name: &str, cpu_id: usize, conn: &ConnectionInfo, bytes: u64) -> (r:
    Option<String>)
    ensures
        conn.family != AF_INET && conn.family != AF_INET6 ==> r is None,
        conn.family == AF_INET || conn.family == AF_INET6 ==> r is Some && r->0@ == metric_line_text(
            function_name@,
            cpu_id as nat,
            *conn,
            bytes as nat,
        ),
{
    if conn.family != AF_INET && conn.family != AF_INET6 {
        return None;
    }
    let mut s = String::from_str("packet_watcher_last_connection{function=\"");
    s.append(function_name);
    s.append("\",cpu=\"");
    push_decimal(&mut s, cpu_id as u64);
    s.append("\",family=\"");
    if conn.family == AF_INET {
        s.append("IPv4");
    } else {
        s.append("IPv6");
    }
    s.append("\",src=\"");
    let src = format_ip(&conn.src_ip);
    s.append(src.as_str());
    s.append(":");
    push_decimal(&mut s, conn.src_port as u64);
    s.append("\",dst=\"");
    let dst = format_ip(&conn.dst_ip);
    s.append(dst.as_str());
    s.append(":");
    push_decimal(&mut s, conn.dst_port as u64);
    s.append("\"} ");
    push_decimal(&mut s, bytes);
    s.append("\n");
    Some(s)
}

/// What one watched kernel function last saw on one CPU.
#[derive(Clone, Debug)]
pub struct MetricSample {
    pub function_name: String,
    pub cpu_id: usize,
    pub conn: ConnectionInfo,
    pub bytes: u64,
}

/// The metrics line of a sample; nothing for a slot that holds no IPv4 or
/// IPv6 connection.
pub open spec fn sample_text(sample: MetricSample) -> Seq<char> {
    if sample.conn.family == AF_INET || sample.conn.family == AF_INET6 {
        metric_line_text(
            sample.function_name@,
            sample.cpu_id as nat,
            sample.conn,
            sample.bytes as nat,
        )
    } else {
        Seq::empty()
    }
}

/// The metrics page for `samples`: their lines, in order.
pub open spec fn metrics_body_text(samples: Seq<MetricSample>) -> Seq<char>
    decreases samples.len(),
{
    if samples.len() == 0 {
        Seq::empty()
    } else {
        metrics_body_text(samples.drop_last()) + sample_text(samples.last())
    }
}

/// Joins the metrics lines of `samples` into the body of the metrics page.
pub fn metrics_body(samples: &Vec<MetricSample>) -> (body: String)
    ensures
        body@ == metrics_body_text(samples@),
{
    let mut body = String::new();
    let mut i: usize = 0;
    while i < samples.len()
        invariant
            i <= samples@.len(),
            body@ == metrics_body_text(samples@.take(i as int)),
        decreases samples@.len() - i,
    {
        let sample = &samples[i];
        let line = connection_metric_line(
            sample.function_name.as_str(),
            sample.cpu_id,
            &sample.conn,
            sample.bytes,
        );
        assert(samples@.take(i + 1).drop_last() =~= samples@.take(i as int));
        match line {
            Some(l) => {
                body.append(l.as_str());
            },
            None => {
                assert(body@ =~= body@ + Seq::<char>::empty());
            },
        }
        i = i + 1;
    }
    assert(samples@.take(i as int) =~= samples@);
    body
}

/// The plain-text HTTP response that serves `body`.
pub open spec fn http_response_text(body: &str) -> Seq<char> {
    "HTTP/1.1 200 OK\r\nContent-Type: text/plain;\r\nContent-Length: "@ + decimal(body.len() as nat) + "\r\n\r\n"@ + body@
}

/// Builds the HTTP response that serves `body`; its Content-Length counts
/// the bytes of `body`.
pub fn http_response(body: &str) -> (r: String)
    ensures
        r@ == http_response_text(body),
{
    let mut s = String::from_str("HTTP/1.1 200 OK\r\nContent-Type: text/plain;\r\nContent-Length: ");
    push_decimal(&mut s, body.len() as u64);
    s.append("\r\n\r\n");
    s.append(body);
    s
}

/// The page for one sample is that sample's own line, which names its
/// function, its own CPU number and its byte count; a slot without an IPv4
/// or IPv6 connection adds nothing.
pub proof fn lemma_metrics_body_single(sample: MetricSample)
    ensures
        metrics_body_text(seq![sample]) == if sample.conn.family == AF_INET || sample.conn.family
            == AF_INET6 {
            metric_line_text(
                sample.function_name@,
                sample.cpu_id as nat,
                sample.conn,
                sample.bytes as nat,
            )
        } else {
            Seq::<char>::empty()
        },
{
    let one = seq![sample];
    assert(one.drop_last() =~= Seq::<MetricSample>::empty());
    assert(one.last() == sample);
    assert(metrics_body_text(Seq::<MetricSample>::empty()) == Seq::<char>::empty());
    assert(metrics_body_text(one) =~= Seq::<char>::empty() + sample_text(sample));
}

/// The page for two runs of samples is the page for the first followed by
/// the page for the second: a line depends on its own sample, not on where
/// the sample stands in the list.
pub proof fn lemma_metrics_body_concat(a: Seq<MetricSample>, b: Seq<MetricSample>)
    ensures
        metrics_body_text(a + b) == metrics_body_text(a) + metrics_body_text(b),
    decreases b.len(),
{
    if b.len() == 0 {
        assert(a + b =~= a);
        assert(metrics_body_text(b) == Seq::<char>::empty());
        assert(metrics_body_text(a) + metrics_body_text(b) =~= metrics_body_text(a));
    } else {
        lemma_metrics_body_concat(a, b.drop_last());
        assert((a + b).drop_last() =~= a + b.drop_last());
        assert((a + b).last() == b.last());
        assert(metrics_body_text(a + b) =~= metrics_body_text(a) + metrics_body_text(b));
    }
}

/// The text of an IPv4 address on the metrics page is the dotted decimal of
/// its four octets, each read as an unsigned number (0 to 255).
pub proof fn lemma_metric_ipv4_address_text(o: [u8; 4])
    ensures
        is_dotted_quad_of(metric_address_text(IpAddress::V4(o)), o@),
{
    lemma_dotted_quad_is_dotted_decimal(o@);
}

} // verus!
