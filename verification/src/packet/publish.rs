//! The PUBLISH packet body: a length-prefixed topic, a packet
//! identifier when the QoS level is above at-most-once, and a payload
//! whose size is whatever the declared remaining length leaves over.
use vstd::prelude::*;

use vstd::utf8::encode_utf8;

use crate::buf::{buf_get_u16, buf_read_bytes, buf_remaining, bytes_view};
use crate::fields::{be16, enc_string, enc_u16, parse_string, read_string, write_string, write_u16};
use crate::packet::fixed_header::{enc_fixed_header, FixedHeader};
use crate::varint::VARINT_MAX;
use crate::{Error, FieldName, QosLevel};

verus! {

/// A decoded PUBLISH packet. The identifier is zero when the header's
/// QoS level is at-most-once, since the wire then carries none.
#[derive(Debug, PartialEq, Eq)]
pub struct Publish {
    pub header: FixedHeader,
    pub packet_id: u16,
    pub topic: String,
    pub payload: Vec<u8>,
}

/// The mathematical image of a [`Publish`].
#[verifier::ext_equal]
pub struct PublishV {
    pub header: FixedHeader,
    pub packet_id: u16,
    pub topic: Seq<char>,
    pub payload: Seq<u8>,
}

impl View for Publish {
    type V = PublishV;

    open spec fn view(&self) -> PublishV {
        PublishV {
            header: self.header,
            packet_id: self.packet_id,
            topic: self.topic@,
            payload: self.payload@,
        }
    }
}

/// What a PUBLISH body decodes to, given its fixed header. The payload
/// takes every byte the remaining length leaves after the topic and the
/// optional identifier; a remaining length too small for those fields
/// is a protocol violation.
#[verifier::opaque]
pub open spec fn parse_publish(s: Seq<u8>, h: FixedHeader) -> Result<PublishV, Error> {
    let rl = h.remaining_len as int;
    match parse_string(s, rl, FieldName::PublishTopic) {
        Err(e) => Err(e),
        Ok(pt) => if h.opts.qos > 0 {
            if pt.1 + 2 > rl || pt.1 + 2 > s.len() {
                Err(Error::MalformedPacket)
            } else if s.len() < rl {
                Err(Error::MalformedPacket)
            } else {
                Ok(
                    PublishV {
                        header: h,
                        packet_id: be16(s, pt.1) as u16,
                        topic: pt.0,
                        payload: s.subrange(pt.1 + 2, rl),
                    },
                )
            }
        } else {
            if s.len() < rl {
                Err(Error::MalformedPacket)
            } else {
                Ok(
                    PublishV {
                        header: h,
                        packet_id: 0,
                        topic: pt.0,
                        payload: s.subrange(pt.1, rl),
                    },
                )
            }
        },
    }
}

/// The wire encoding of a PUBLISH body.
pub open spec fn enc_publish_body(p: PublishV) -> Seq<u8> {
    enc_string(p.topic) + (if p.header.opts.qos > 0 {
        enc_u16(p.packet_id as int)
    } else {
        Seq::empty()
    }) + p.payload
}

/// Law: decoding an encoded PUBLISH body against its own header gives
/// the packet back. A packet without an identifier on the wire must
/// hold zero in the identifier field for the words to match.
pub proof fn lemma_publish_roundtrip(p: PublishV)
    requires
        encode_utf8(p.topic).len() <= 65535,
        p.header.remaining_len == enc_publish_body(p).len(),
        p.header.opts.qos == 0 ==> p.packet_id == 0,
    ensures
        parse_publish(enc_publish_body(p), p.header) == Ok::<PublishV, Error>(p),
{
    reveal(parse_publish);
    let s = enc_publish_body(p);
    let rl = p.header.remaining_len as int;
    let mid: Seq<u8> = if p.header.opts.qos > 0 {
        enc_u16(p.packet_id as int)
    } else {
        Seq::empty()
    };
    let tail = mid + p.payload;
    assert(s =~= enc_string(p.topic) + tail);
    crate::fields::lemma_string_roundtrip(p.topic, tail, rl, FieldName::PublishTopic);
    let c1 = 2 + encode_utf8(p.topic).len() as int;
    if p.header.opts.qos > 0 {
        vstd::arithmetic::div_mod::lemma_fundamental_div_mod(p.packet_id as int, 256);
        assert(s[c1] == (p.packet_id as int / 256) as u8);
        assert(s[c1 + 1] == (p.packet_id as int % 256) as u8);
        assert(be16(s, c1) == p.packet_id as int);
        assert(s.subrange(c1 + 2, rl) =~= p.payload);
        assert(parse_publish(s, p.header).unwrap() =~= p);
    } else {
        assert(s.subrange(c1, rl) =~= p.payload);
        assert(parse_publish(s, p.header).unwrap() =~= p);
    }
}

/// Reads a PUBLISH body from the cursor: the topic, the identifier when
/// the header's QoS level asks for one, then the leftover payload.
pub fn read_packet(buf: &mut bytes::Bytes, header: &FixedHeader) -> (r: Result<Publish, Error>)
    ensures
        match r {
            Ok(p) => parse_publish(bytes_view(*old(buf)), *header) == Ok::<PublishV, Error>(p@)
                && bytes_view(*final(buf)) == bytes_view(*old(buf)).skip(
                header.remaining_len as int,
            ) && header.remaining_len as int <= bytes_view(*old(buf)).len(),
            Err(e) => parse_publish(bytes_view(*old(buf)), *header) == Err::<PublishV, Error>(e),
        },
{
    proof {
        reveal(parse_publish);
    }
    let ghost s0 = bytes_view(*buf);
    let rl = header.remaining_len;
    match read_string(buf, rl, FieldName::PublishTopic) {
        Err(e) => Err(e),
        Ok((topic, c1)) => {
            let mut pid: u16 = 0;
            let mut off: u32 = c1;
            if header.opts.qos() > QosLevel::AtMostOnce.as_u8() {
                if rl < 2 || c1 > rl - 2 {
                    return Err(Error::MalformedPacket);
                }
                let rem = buf_remaining(buf);
                if rem < 2 {
                    return Err(Error::MalformedPacket);
                }
                pid = buf_get_u16(buf);
                off = c1 + 2;
                proof {
                    assert(s0.skip(c1 as int)[0] == s0[c1 as int]);
                    assert(s0.skip(c1 as int)[1] == s0[c1 as int + 1]);
                    assert(s0.skip(c1 as int).skip(2) =~= s0.skip(c1 as int + 2));
                }
            }
            let plen = rl - off;
            let rem2 = buf_remaining(buf);
            if plen as usize > rem2 {
                return Err(Error::MalformedPacket);
            }
            let payload = buf_read_bytes(buf, plen as usize);
            proof {
                assert(s0.skip(off as int).take(plen as int) =~= s0.subrange(
                    off as int,
                    rl as int,
                ));
                assert(s0.skip(off as int).skip(plen as int) =~= s0.skip(rl as int));
            }
            Ok(Publish { header: *header, packet_id: pid, topic, payload })
        },
    }
}

/// Whether a PUBLISH packet fits its wire widths: the topic fits its
/// length prefix and the whole body fits the remaining-length integer.
pub open spec fn publish_encodable(p: PublishV) -> bool {
    encode_utf8(p.topic).len() <= 65535 && enc_publish_body(p).len() <= VARINT_MAX
}

impl Publish {
    /// Appends the wire encoding of this packet to `out`: the fixed
    /// header with the remaining length computed from the body, then
    /// the body. A packet that does not fit its wire widths leaves
    /// `out` unchanged.
    pub fn write(&self, out: &mut Vec<u8>) -> (r: Result<(), Error>)
        ensures
            match r {
                Ok(()) => {
                    &&& self.header.opts.wf()
                    &&& publish_encodable(self@)
                    &&& final(out)@ == old(out)@ + enc_fixed_header(
                        FixedHeader {
                            remaining_len: enc_publish_body(self@).len() as u32,
                            opts: self.header.opts,
                        },
                    ) + enc_publish_body(self@)
                },
                Err(e) => e == Error::ValueOutOfRange && final(out)@ == old(out)@ && !(
                publish_encodable(self@) && self.header.opts.wf()),
            },
    {
        let mut body: Vec<u8> = Vec::new();
        match write_string(&mut body, &self.topic) {
            Err(e) => {
                return Err(e);
            },
            Ok(()) => {},
        }
        if self.header.opts.qos > 0 {
            write_u16(&mut body, self.packet_id);
        }
        let mut pl = vstd::slice::slice_to_vec(self.payload.as_slice());
        body.append(&mut pl);
        proof {
            assert(body@ =~= enc_publish_body(self@));
        }
        if body.len() > VARINT_MAX as usize {
            return Err(Error::ValueOutOfRange);
        }
        let header = FixedHeader { remaining_len: body.len() as u32, opts: self.header.opts };
        let ghost out0 = out@;
        match header.write(out) {
            Err(e) => Err(e),
            Ok(()) => {
                let mut b = body;
                out.append(&mut b);
                proof {
                    assert(out@ =~= out0 + enc_fixed_header(header) + enc_publish_body(self@));
                }
                Ok(())
            },
        }
    }
}

} // verus!
