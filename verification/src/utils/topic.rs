//! The repeated topic element of SUBSCRIBE and UNSUBSCRIBE bodies.
use vstd::prelude::*;

use vstd::utf8::encode_utf8;

use crate::buf::{buf_get_u8, buf_remaining, bytes_view};
use crate::fields::{enc_string, parse_string, read_string, write_string};
use crate::{Error, FieldName};

verus! {

/// One topic entry: a filter string and the requested delivery level.
/// A SUBSCRIBE body carries a QoS byte after each name; an UNSUBSCRIBE
/// body carries the name alone.
#[derive(Debug, PartialEq, Eq)]
pub struct Topic {
    pub name: String,
    pub qos: u8,
}

/// The mathematical image of a [`Topic`].
#[verifier::ext_equal]
pub struct TopicV {
    pub name: Seq<char>,
    pub qos: u8,
}

impl View for Topic {
    type V = TopicV;

    open spec fn view(&self) -> TopicV {
        TopicV { name: self.name@, qos: self.qos }
    }
}

/// What a SUBSCRIBE topic entry at the front of `s` decodes to, together
/// with the number of bytes it occupies: a length-prefixed name, then
/// one QoS byte.
pub open spec fn parse_topic_sub(s: Seq<u8>, budget: int) -> Result<(TopicV, int), Error> {
    match parse_string(s, budget, FieldName::TopicName) {
        Err(e) => Err(e),
        Ok(p) => if p.1 + 1 > budget || p.1 + 1 > s.len() {
            Err(Error::MalformedPacket)
        } else {
            Ok((TopicV { name: p.0, qos: s[p.1] }, p.1 + 1))
        },
    }
}

/// What an UNSUBSCRIBE topic entry at the front of `s` decodes to: a
/// length-prefixed name alone; the QoS field of the entry is zero.
pub open spec fn parse_topic_unsub(s: Seq<u8>, budget: int) -> Result<(TopicV, int), Error> {
    match parse_string(s, budget, FieldName::TopicName) {
        Err(e) => Err(e),
        Ok(p) => Ok((TopicV { name: p.0, qos: 0 }, p.1)),
    }
}

/// The SUBSCRIBE wire encoding of a topic entry.
pub open spec fn enc_topic_sub(t: TopicV) -> Seq<u8> {
    enc_string(t.name) + seq![t.qos]
}

/// The UNSUBSCRIBE wire encoding of a topic entry.
pub open spec fn enc_topic_unsub(t: TopicV) -> Seq<u8> {
    enc_string(t.name)
}

/// Law: decoding an encoded SUBSCRIBE topic entry gives the entry back
/// and consumes exactly its encoding, whatever bytes follow it.
pub proof fn lemma_topic_sub_roundtrip(t: TopicV, rest: Seq<u8>, budget: int)
    requires
        encode_utf8(t.name).len() <= 65535,
        budget >= enc_topic_sub(t).len(),
    ensures
        enc_topic_sub(t).len() == 3 + encode_utf8(t.name).len(),
        parse_topic_sub(enc_topic_sub(t) + rest, budget) == Ok::<(TopicV, int), Error>((
            t,
            enc_topic_sub(t).len() as int,
        )),
{
    let l = encode_utf8(t.name).len() as int;
    let tail = seq![t.qos] + rest;
    crate::fields::lemma_string_roundtrip(t.name, tail, budget, FieldName::TopicName);
    let s = enc_topic_sub(t) + rest;
    assert(s =~= enc_string(t.name) + tail);
    assert(s[2 + l] == t.qos);
}

/// Law: decoding an encoded UNSUBSCRIBE topic entry gives the entry back
/// and consumes exactly its encoding, whatever bytes follow it.
pub proof fn lemma_topic_unsub_roundtrip(t: TopicV, rest: Seq<u8>, budget: int)
    requires
        t.qos == 0,
        encode_utf8(t.name).len() <= 65535,
        budget >= enc_topic_unsub(t).len(),
    ensures
        enc_topic_unsub(t).len() == 2 + encode_utf8(t.name).len(),
        parse_topic_unsub(enc_topic_unsub(t) + rest, budget) == Ok::<(TopicV, int), Error>((
            t,
            enc_topic_unsub(t).len() as int,
        )),
{
    crate::fields::lemma_string_roundtrip(t.name, rest, budget, FieldName::TopicName);
}

impl Topic {
    /// Reads one SUBSCRIBE topic entry from the cursor: a length-prefixed
    /// name, then one QoS byte, spending at most `budget` bytes of the
    /// packet's declared remaining length.
    pub fn new(buf: &mut bytes::Bytes, budget: u32) -> (r: Result<(Topic, u32), Error>)
        ensures
            match r {
                Ok(p) => parse_topic_sub(bytes_view(*old(buf)), budget as int) == Ok::<
                    (TopicV, int),
                    Error,
                >((p.0@, p.1 as int)) && bytes_view(*final(buf)) == bytes_view(*old(buf)).skip(
                    p.1 as int,
                ) && 3 <= p.1 <= budget && p.1 <= bytes_view(*old(buf)).len(),
                Err(e) => parse_topic_sub(bytes_view(*old(buf)), budget as int) == Err::<
                    (TopicV, int),
                    Error,
                >(e),
            },
    {
        let ghost s0 = bytes_view(*buf);
        match read_string(buf, budget, FieldName::TopicName) {
            Err(e) => Err(e),
            Ok((name, c)) => {
                if c >= budget {
                    return Err(Error::MalformedPacket);
                }
                let rem = buf_remaining(buf);
                if rem < 1 {
                    return Err(Error::MalformedPacket);
                }
                let q = buf_get_u8(buf);
                proof {
                    assert(s0.skip(c as int)[0] == s0[c as int]);
                    assert(s0.skip(c as int).skip(1) =~= s0.skip(c as int + 1));
                }
                Ok((Topic { name, qos: q }, c + 1))
            },
        }
    }

    /// Reads one UNSUBSCRIBE topic entry from the cursor: a
    /// length-prefixed name alone; the entry's QoS field is zero.
    pub fn new_name_only(buf: &mut bytes::Bytes, budget: u32) -> (r: Result<(Topic, u32), Error>)
        ensures
            match r {
                Ok(p) => parse_topic_unsub(bytes_view(*old(buf)), budget as int) == Ok::<
                    (TopicV, int),
                    Error,
                >((p.0@, p.1 as int)) && bytes_view(*final(buf)) == bytes_view(*old(buf)).skip(
                    p.1 as int,
                ) && 2 <= p.1 <= budget && p.1 <= bytes_view(*old(buf)).len(),
                Err(e) => parse_topic_unsub(bytes_view(*old(buf)), budget as int) == Err::<
                    (TopicV, int),
                    Error,
                >(e),
            },
    {
        match read_string(buf, budget, FieldName::TopicName) {
            Err(e) => Err(e),
            Ok((name, c)) => Ok((Topic { name, qos: 0 }, c)),
        }
    }

    /// Builds a topic entry from its parts.
    pub fn new_from_params(name: String, qos: u8) -> (t: Topic)
        ensures
            t@.name == name@,
            t@.qos == qos,
    {
        Topic { name, qos }
    }

    /// Appends the SUBSCRIBE wire encoding of this entry to `out`. A name
    /// whose UTF-8 form exceeds 65535 bytes cannot be represented and
    /// leaves `out` unchanged.
    pub fn write_sub(&self, out: &mut Vec<u8>) -> (r: Result<(), Error>)
        ensures
            match r {
                Ok(()) => encode_utf8(self@.name).len() <= 65535 && final(out)@ == old(out)@
                    + enc_topic_sub(self@),
                Err(e) => e == Error::ValueOutOfRange && encode_utf8(self@.name).len() > 65535
                    && final(out)@ == old(out)@,
            },
    {
        match write_string(out, &self.name) {
            Err(e) => Err(e),
            Ok(()) => {
                out.push(self.qos);
                proof {
                    assert(out@ =~= old(out)@ + enc_topic_sub(self@));
                }
                Ok(())
            },
        }
    }

    /// Appends the UNSUBSCRIBE wire encoding of this entry to `out`: the
    /// length-prefixed name alone.
    pub fn write_unsub(&self, out: &mut Vec<u8>) -> (r: Result<(), Error>)
        ensures
            match r {
                Ok(()) => encode_utf8(self@.name).len() <= 65535 && final(out)@ == old(out)@
                    + enc_topic_unsub(self@),
                Err(e) => e == Error::ValueOutOfRange && encode_utf8(self@.name).len() > 65535
                    && final(out)@ == old(out)@,
            },
    {
        write_string(out, &self.name)
    }
}

} // verus!
