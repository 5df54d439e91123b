//! The record framing of the commit log: each serialized message is preceded
//! by its length as a four-byte big-endian unsigned integer.
use vstd::prelude::*;

verus! {

/// The four big-endian bytes of `n`.
pub open spec fn be32_bytes(n: u32) -> Seq<u8> {
    seq![
        (n as nat / 16777216) as u8,
        (n as nat / 65536 % 256) as u8,
        (n as nat / 256 % 256) as u8,
        (n as nat % 256) as u8,
    ]
}

/// The number that four big-endian bytes encode.
pub open spec fn be32_value(b: Seq<u8>) -> nat {
    b[0] as nat * 16777216 + b[1] as nat * 65536 + b[2] as nat * 256 + b[3] as nat
}

/// One record of the log: the length of `payload` (kept to its low 32 bits)
/// as four big-endian bytes, then `payload` itself.
pub open spec fn framed(payload: Seq<u8>) -> Seq<u8> {
    be32_bytes(payload.len() as u32) + payload
}

/// Frames one serialized message as a record of the commit log.
pub fn frame_record(payload: &[u8]) -> (r: Vec<u8>)
    ensures
        r@ == framed(payload@),
{
    let len = payload.len() as u32;
    let mut out: Vec<u8> = Vec::new();
    out.push((len / 16777216) as u8);
    out.push((len / 65536 % 256) as u8);
    out.push((len / 256 % 256) as u8);
    out.push((len % 256) as u8);
    let mut k: usize = 0;
    while k < payload.len()
        invariant
            k <= payload@.len(),
            out@ == be32_bytes(len) + payload@.subrange(0, k as int),
        decreases payload@.len() - k,
    {
        out.push(payload[k]);
        assert(payload@.subrange(0, k + 1) =~= payload@.subrange(0, k as int).push(payload@[k as int]));
        k = k + 1;
    }
    assert(payload@.subrange(0, k as int) =~= payload@);
    out
}

/// Reading a record back: its first four bytes give the length of the
/// message that follows (for messages shorter than 2^32 bytes), and the
/// message follows them unchanged.
pub proof fn lemma_framed_record_reads_back(payload: Seq<u8>)
    requires
        payload.len() <= u32::MAX,
    ensures
        be32_value(framed(payload).subrange(0, 4)) == payload.len(),
        framed(payload).subrange(4, framed(payload).len() as int) == payload,
{
    let n = payload.len() as u32;
    assert(n as nat == payload.len());
    let b = framed(payload).subrange(0, 4);
    assert(b =~= be32_bytes(n));
    let v = n as nat;
    assert(v / 16777216 * 16777216 + v / 65536 % 256 * 65536 + v / 256 % 256 * 256 + v % 256 == v)
        by (nonlinear_arith)
        requires
            v < 4294967296,
    ;
    assert(framed(payload).subrange(4, framed(payload).len() as int) =~= payload);
}

/// The log that holds the records of `msgs`, one after the other.
pub open spec fn framed_all(msgs: Seq<Seq<u8>>) -> Seq<u8>
    decreases msgs.len(),
{
    if msgs.len() == 0 {
        Seq::empty()
    } else {
        framed(msgs[0]) + framed_all(msgs.drop_first())
    }
}

/// Reading a log from its start: take a four-byte big-endian length `n`,
/// then `n` bytes, until the log is used up; `None` when a record is cut
/// short.
pub open spec fn read_records(log: Seq<u8>) -> Option<Seq<Seq<u8>>>
    decreases log.len(),
{
    if log.len() == 0 {
        Some(Seq::empty())
    } else if log.len() < 4 {
        None
    } else {
        let n = be32_value(log.subrange(0, 4)) as int;
        if 4 + n > log.len() {
            None
        } else {
            match read_records(log.subrange(4 + n, log.len() as int)) {
                Some(rest) => Some(seq![log.subrange(4, 4 + n)] + rest),
                None => None,
            }
        }
    }
}

/// Reading back a log of records gives the messages that were framed, in
/// order, whenever each message is shorter than 2^32 bytes.
pub proof fn lemma_log_reads_back(msgs: Seq<Seq<u8>>)
    requires
        forall|i: int| 0 <= i < msgs.len() ==> #[trigger] msgs[i].len() <= u32::MAX,
    ensures
        read_records(framed_all(msgs)) == Some(msgs),
    decreases msgs.len(),
{
    if msgs.len() == 0 {
    } else {
        let m = msgs[0];
        let rest = msgs.drop_first();
        assert forall|i: int| 0 <= i < rest.len() implies #[trigger] rest[i].len() <= u32::MAX by {
            assert(rest[i] == msgs[i + 1]);
        }
        lemma_log_reads_back(rest);
        lemma_framed_record_reads_back(m);
        let log = framed_all(msgs);
        let f = framed(m);
        assert(log == f + framed_all(rest));
        assert(f.len() == 4 + m.len());
        assert(log.subrange(0, 4) =~= f.subrange(0, 4));
        assert(log.subrange(4, 4 + m.len() as int) =~= m) by {
            assert(f.subrange(4, f.len() as int) == m);
        }
        assert(log.subrange(4 + m.len() as int, log.len() as int) =~= framed_all(rest));
        assert(seq![m] + rest =~= msgs);
    }
}

/// Appending the record of one more message to a log of records gives the
/// log of all the messages: writing `frame_record` results one after another
/// builds `framed_all`.
pub proof fn lemma_append_record(msgs: Seq<Seq<u8>>, m: Seq<u8>)
    ensures
        framed_all(msgs.push(m)) == framed_all(msgs) + framed(m),
    decreases msgs.len(),
{
    if msgs.len() == 0 {
        assert(msgs.push(m).drop_first() =~= Seq::<Seq<u8>>::empty());
        assert(msgs.push(m)[0] == m);
        assert(framed_all(Seq::<Seq<u8>>::empty()) == Seq::<u8>::empty());
        assert(framed_all(msgs) == Seq::<u8>::empty());
        assert(framed_all(msgs.push(m)) =~= framed_all(msgs) + framed(m));
    } else {
        lemma_append_record(msgs.drop_first(), m);
        assert(msgs.push(m).drop_first() =~= msgs.drop_first().push(m));
        assert(msgs.push(m)[0] == msgs[0]);
        assert(framed_all(msgs.push(m)) =~= framed_all(msgs) + framed(m));
    }
}

} // verus!
