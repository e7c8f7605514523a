//! The UNSUBSCRIBE packet body: a packet identifier, then topic entries
//! (length-prefixed name, no QoS byte) until the declared remaining
//! length is exhausted.
use vstd::prelude::*;

use vstd::utf8::encode_utf8;

use crate::buf::{buf_get_u16, buf_remaining, bytes_view};
use crate::fields::{be16, enc_u16, write_u16};
use crate::packet::fixed_header::{enc_fixed_header, FixedHeader};
use crate::utils::topic::{
    enc_topic_unsub, lemma_topic_unsub_roundtrip, parse_topic_unsub, Topic, TopicV,
};
use crate::varint::VARINT_MAX;
use crate::Error;

verus! {

/// A decoded UNSUBSCRIBE packet.
#[derive(Debug, PartialEq, Eq)]
pub struct Unsubscribe {
    pub header: FixedHeader,
    pub packet_id: u16,
    pub topics: Vec<Topic>,
}

/// The mathematical image of an [`Unsubscribe`].
#[verifier::ext_equal]
pub struct UnsubscribeV {
    pub header: FixedHeader,
    pub packet_id: u16,
    pub topics: Seq<TopicV>,
}

impl View for Unsubscribe {
    type V = UnsubscribeV;

    open spec fn view(&self) -> UnsubscribeV {
        UnsubscribeV {
            header: self.header,
            packet_id: self.packet_id,
            topics: self.topics@.map_values(|t: Topic| t@),
        }
    }
}

/// What a run of UNSUBSCRIBE topic entries decodes to when exactly
/// `budget` more bytes of the remaining length are unclaimed.
pub open spec fn parse_topics_unsub(s: Seq<u8>, budget: int) -> Result<Seq<TopicV>, Error>
    decreases budget,
{
    if budget <= 0 {
        Ok(Seq::empty())
    } else {
        match parse_topic_unsub(s, budget) {
            Err(e) => Err(e),
            Ok(p) => if p.1 <= 0 || p.1 > budget {
                Err(Error::MalformedPacket)
            } else {
                match parse_topics_unsub(s.skip(p.1), budget - p.1) {
                    Err(e) => Err(e),
                    Ok(ts) => Ok(seq![p.0] + ts),
                }
            },
        }
    }
}

/// What an UNSUBSCRIBE body decodes to, given its fixed header. The
/// topic run must fill the declared remaining length exactly.
#[verifier::opaque]
pub open spec fn parse_unsubscribe(s: Seq<u8>, h: FixedHeader) -> Result<UnsubscribeV, Error> {
    let rl = h.remaining_len as int;
    if rl < 2 || s.len() < 2 {
        Err(Error::MalformedPacket)
    } else {
        match parse_topics_unsub(s.skip(2), rl - 2) {
            Err(e) => Err(e),
            Ok(ts) => Ok(UnsubscribeV { header: h, packet_id: be16(s, 0) as u16, topics: ts }),
        }
    }
}

/// The wire encoding of a run of UNSUBSCRIBE topic entries.
pub open spec fn enc_topics_unsub(ts: Seq<TopicV>) -> Seq<u8>
    decreases ts.len(),
{
    if ts.len() == 0 {
        Seq::empty()
    } else {
        enc_topic_unsub(ts[0]) + enc_topics_unsub(ts.skip(1))
    }
}

/// The wire encoding of an UNSUBSCRIBE body.
pub open spec fn enc_unsubscribe_body(p: UnsubscribeV) -> Seq<u8> {
    enc_u16(p.packet_id as int) + enc_topics_unsub(p.topics)
}

/// Every name fits its length prefix, and no entry carries a QoS: the
/// UNSUBSCRIBE wire format has no QoS byte, so a decoded entry always
/// holds zero there.
pub open spec fn topics_unsub_valid(ts: Seq<TopicV>) -> bool {
    forall|i: int| 0 <= i < ts.len() ==> encode_utf8(#[trigger] ts[i].name).len() <= 65535 && ts[
        i
    ].qos == 0
}

/// Law: decoding an encoded run of UNSUBSCRIBE topic entries with a
/// budget of exactly its length gives the run back, whatever follows it.
pub proof fn lemma_topics_unsub_roundtrip(ts: Seq<TopicV>, rest: Seq<u8>)
    requires
        topics_unsub_valid(ts),
    ensures
        parse_topics_unsub(enc_topics_unsub(ts) + rest, enc_topics_unsub(ts).len() as int) == Ok::<
            Seq<TopicV>,
            Error,
        >(ts),
    decreases ts.len(),
{
    if ts.len() == 0 {
        assert(ts =~= Seq::<TopicV>::empty());
        assert(enc_topics_unsub(ts).len() == 0);
    } else {
        let t0 = ts[0];
        let tail = ts.skip(1);
        let b = enc_topics_unsub(ts).len() as int;
        let c0 = enc_topic_unsub(t0).len() as int;
        lemma_topic_unsub_roundtrip(t0, enc_topics_unsub(tail) + rest, b);
        let s = enc_topics_unsub(ts) + rest;
        assert(s =~= enc_topic_unsub(t0) + (enc_topics_unsub(tail) + rest));
        assert(s.skip(c0) =~= enc_topics_unsub(tail) + rest);
        assert forall|i: int| 0 <= i < tail.len() implies encode_utf8(
            #[trigger] tail[i].name,
        ).len() <= 65535 && tail[i].qos == 0 by {
            assert(tail[i] == ts[i + 1]);
        }
        lemma_topics_unsub_roundtrip(tail, rest);
        assert(seq![t0] + tail =~= ts);
        assert(parse_topics_unsub(s, b) == Ok::<Seq<TopicV>, Error>(ts));
    }
}

/// Law: decoding an encoded UNSUBSCRIBE body against its own header
/// gives the packet back.
pub proof fn lemma_unsubscribe_roundtrip(p: UnsubscribeV)
    requires
        topics_unsub_valid(p.topics),
        p.header.remaining_len == enc_unsubscribe_body(p).len(),
    ensures
        parse_unsubscribe(enc_unsubscribe_body(p), p.header) == Ok::<UnsubscribeV, Error>(p),
{
    reveal(parse_unsubscribe);
    let s = enc_unsubscribe_body(p);
    let pid = p.packet_id as int;
    vstd::arithmetic::div_mod::lemma_fundamental_div_mod(pid, 256);
    assert(s[0] == (pid / 256) as u8 && s[1] == (pid % 256) as u8);
    assert(be16(s, 0) == pid);
    assert(s.skip(2) =~= enc_topics_unsub(p.topics) + Seq::<u8>::empty());
    lemma_topics_unsub_roundtrip(p.topics, Seq::empty());
    assert(parse_unsubscribe(s, p.header).unwrap() =~= p);
}

/// Reads an UNSUBSCRIBE body from the cursor: the packet identifier,
/// then name-only topic entries until the declared remaining length is
/// spent exactly.
#[verifier::loop_isolation(false)]
pub fn read_packet(buf: &mut bytes::Bytes, header: &FixedHeader) -> (r: Result<Unsubscribe, Error>)
    ensures
        match r {
            Ok(p) => header.remaining_len as int <= bytes_view(*old(buf)).len() && parse_unsubscribe(bytes_view(*old(buf)), *header) == Ok::<
                UnsubscribeV,
                Error,
            >(p@) && bytes_view(*final(buf)) == bytes_view(*old(buf)).skip(
                header.remaining_len as int,
            ),
            Err(e) => parse_unsubscribe(bytes_view(*old(buf)), *header) == Err::<
                UnsubscribeV,
                Error,
            >(e),
        },
{
    proof {
        reveal(parse_unsubscribe);
    }
    let ghost s0 = bytes_view(*buf);
    let rl = header.remaining_len;
    if rl < 2 {
        return Err(Error::MalformedPacket);
    }
    let rem = buf_remaining(buf);
    if rem < 2 {
        return Err(Error::MalformedPacket);
    }
    let pid = buf_get_u16(buf);
    let mut topics: Vec<Topic> = Vec::new();
    let mut used: u32 = 2;
    let ghost body0 = bytes_view(*buf);
    while used < rl
        invariant
            2 <= used <= rl,
            bytes_view(*buf) == body0.skip(used as int - 2),
            bytes_view(*buf).len() == body0.len() - (used as int - 2),
            used as int - 2 <= body0.len(),
            ({
                let acc = topics@.map_values(|t: Topic| t@);
                match parse_topics_unsub(bytes_view(*buf), rl as int - used as int) {
                    Ok(ts) => parse_topics_unsub(body0, rl as int - 2) == Ok::<
                        Seq<TopicV>,
                        Error,
                    >(acc + ts),
                    Err(e) => parse_topics_unsub(body0, rl as int - 2) == Err::<
                        Seq<TopicV>,
                        Error,
                    >(e),
                }
            }),
        decreases rl - used,
    {
        let ghost cur = bytes_view(*buf);
        let ghost acc = topics@.map_values(|t: Topic| t@);
        match Topic::new_name_only(buf, rl - used) {
            Err(e) => {
                return Err(e);
            },
            Ok((t, c)) => {
                topics.push(t);
                used = used + c;
                proof {
                    assert(topics@.map_values(|t2: Topic| t2@) =~= acc + seq![t@]);
                    assert(cur.skip(c as int) =~= body0.skip(used as int - 2));
                    match parse_topics_unsub(bytes_view(*buf), rl as int - used as int) {
                        Ok(ts) => {
                            assert(acc + (seq![t@] + ts) =~= (acc + seq![t@]) + ts);
                        },
                        Err(_) => {},
                    }
                }
            },
        }
    }
    proof {
        let acc = topics@.map_values(|t: Topic| t@);
        assert(acc + Seq::<TopicV>::empty() =~= acc);
        assert(bytes_view(*buf) =~= s0.skip(rl as int));
    }
    Ok(Unsubscribe { header: *header, packet_id: pid, topics })
}

/// Whether a UNSUBSCRIBE packet can be written at all: every topic name
/// fits its length prefix, the body fits the remaining-length integer,
/// and the header's control options fit their bit widths.
pub open spec fn unsubscribe_writable(p: UnsubscribeV) -> bool {
    (forall|i: int| 0 <= i < p.topics.len() ==> encode_utf8(#[trigger] p.topics[i].name).len()
        <= 65535) && enc_unsubscribe_body(p).len() <= VARINT_MAX && p.header.opts.wf()
}

impl Unsubscribe {
    /// Appends the wire encoding of this packet to `out`: the fixed
    /// header with the remaining length computed from the body, then the
    /// body. A topic name over 65535 UTF-8 bytes, or a body longer than
    /// the largest remaining length, cannot be represented and leaves
    /// `out` unchanged.
    #[verifier::loop_isolation(false)]
    pub fn write(&self, out: &mut Vec<u8>) -> (r: Result<(), Error>)
        ensures
            match r {
                Ok(()) => {
                    &&& unsubscribe_writable(self@)
                    &&& self.header.opts.wf()
                    &&& enc_unsubscribe_body(self@).len() <= VARINT_MAX
                    &&& forall|j: int| 0 <= j < self@.topics.len() ==> encode_utf8(
                        #[trigger] self@.topics[j].name,
                    ).len() <= 65535
                    &&& final(out)@ == old(out)@ + enc_fixed_header(
                        FixedHeader {
                            remaining_len: enc_unsubscribe_body(self@).len() as u32,
                            opts: self.header.opts,
                        },
                    ) + enc_unsubscribe_body(self@)
                },
                Err(e) => e == Error::ValueOutOfRange && final(out)@ == old(out)@
                    && !unsubscribe_writable(self@),
            },
    {
        let mut body: Vec<u8> = Vec::new();
        write_u16(&mut body, self.packet_id);
        let n = self.topics.len();
        let mut i: usize = 0;
        while i < n
            invariant
                0 <= i <= n,
                body@ == enc_u16(self.packet_id as int) + enc_topics_unsub(
                    self@.topics.take(i as int),
                ),
                forall|j: int| 0 <= j < i ==> encode_utf8(
                    #[trigger] self@.topics[j].name,
                ).len() <= 65535,
            decreases n - i,
        {
            match self.topics[i].write_unsub(&mut body) {
                Err(e) => {
                    proof {
                        assert(encode_utf8(self@.topics[i as int].name).len() > 65535);
                    }
                    return Err(e);
                },
                Ok(()) => {
                    proof {
                        lemma_enc_topics_unsub_snoc(self@.topics, i as int);
                        assert(body@ =~= enc_u16(self.packet_id as int) + enc_topics_unsub(
                            self@.topics.take(i as int + 1),
                        ));
                    }
                    i = i + 1;
                },
            }
        }
        proof {
            assert(self@.topics.take(n as int) =~= self@.topics);
        }
        if body.len() > VARINT_MAX as usize {
            return Err(Error::ValueOutOfRange);
        }
        let header = FixedHeader { remaining_len: body.len() as u32, opts: self.header.opts };
        let ghost out0 = out@;
        match header.write(out) {
            Err(e) => Err(e),
            Ok(()) => {
                let mut b = body;
                out.append(&mut b);
                proof {
                    assert(out@ =~= out0 + enc_fixed_header(header) + enc_unsubscribe_body(
                        self@,
                    ));
                }
                Ok(())
            },
        }
    }
}

/// Extending a topic run by one entry appends that entry's encoding.
pub proof fn lemma_enc_topics_unsub_snoc(ts: Seq<TopicV>, i: int)
    requires
        0 <= i < ts.len(),
    ensures
        enc_topics_unsub(ts.take(i + 1)) == enc_topics_unsub(ts.take(i)) + enc_topic_unsub(ts[i]),
    decreases i,
{
    if i == 0 {
        assert(ts.take(1)[0] == ts[0]);
        assert(ts.take(1).skip(1) =~= Seq::<TopicV>::empty());
        assert(ts.take(0) =~= Seq::<TopicV>::empty());
        assert(enc_topics_unsub(ts.take(1)) =~= enc_topics_unsub(ts.take(0)) + enc_topic_unsub(
            ts[0],
        ));
    } else {
        lemma_enc_topics_unsub_snoc(ts.skip(1), i - 1);
        assert(ts.take(i + 1)[0] == ts[0]);
        assert(ts.take(i + 1).skip(1) =~= ts.skip(1).take(i));
        assert(ts.take(i).skip(1) =~= ts.skip(1).take(i - 1));
        assert(ts.take(i)[0] == ts[0]);
        assert(ts.skip(1)[i - 1] == ts[i]);
        assert(enc_topic_unsub(ts[0]) + (enc_topics_unsub(ts.skip(1).take(i - 1))
            + enc_topic_unsub(ts[i])) =~= (enc_topic_unsub(ts[0]) + enc_topics_unsub(
            ts.skip(1).take(i - 1),
        )) + enc_topic_unsub(ts[i]));
    }
}

} // verus!
