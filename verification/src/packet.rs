//! The packet layer: the closed set of packet types, the tagged union
//! over all decoded packets, and the dispatcher that reads or writes one
//! whole packet.
use vstd::prelude::*;

use crate::buf::{buf_get_u8, buf_remaining, bytes_view};
use crate::fields::{be16, enc_u16, write_u16};
use crate::varint::VARINT_MAX;
use crate::Error;
use ack::{enc_ack_body, parse_ack, parse_empty, Ack};
use connect::{connect_valid, connect_writable, enc_connect_body, parse_connect, ConnectV};
use fixed_header::{enc_fixed_header, parse_fixed_header, FixedHeader};
use publish::{enc_publish_body, parse_publish, publish_encodable, PublishV};
use subscribe::{
    enc_subscribe_body, parse_subscribe, subscribe_writable, topics_fit, SubscribeV,
};
use unsubscribe::{
    enc_unsubscribe_body, parse_unsubscribe, topics_unsub_valid, unsubscribe_writable,
    UnsubscribeV,
};

pub mod ack;
pub mod connect;
pub mod fixed_header;
pub mod publish;
pub mod subscribe;
pub mod unsubscribe;

verus! {

/// The closed set of control-packet types. The wire carries one of the
/// values 1 through 14 in the high nibble of the fixed header; every
/// other 4-bit value is invalid.
#[allow(non_camel_case_types)]
#[derive(Clone, Copy, Debug, PartialEq, Eq, Structural)]
pub enum Type {
    CONNECT,
    CONNACK,
    PUBLISH,
    PUBACK,
    PUBREC,
    PUBREL,
    PUBCOMP,
    SUBSCRIBE,
    SUBACK,
    UNSUBSCRIBE,
    UNSUBACK,
    PINGREQ,
    PINGRESP,
    DISCONNECT,
}

impl Type {
    /// The packet type a 4-bit wire value names, if any.
    pub open spec fn spec_from_u8(v: u8) -> Option<Type> {
        if v == 1 {
            Some(Type::CONNECT)
        } else if v == 2 {
            Some(Type::CONNACK)
        } else if v == 3 {
            Some(Type::PUBLISH)
        } else if v == 4 {
            Some(Type::PUBACK)
        } else if v == 5 {
            Some(Type::PUBREC)
        } else if v == 6 {
            Some(Type::PUBREL)
        } else if v == 7 {
            Some(Type::PUBCOMP)
        } else if v == 8 {
            Some(Type::SUBSCRIBE)
        } else if v == 9 {
            Some(Type::SUBACK)
        } else if v == 10 {
            Some(Type::UNSUBSCRIBE)
        } else if v == 11 {
            Some(Type::UNSUBACK)
        } else if v == 12 {
            Some(Type::PINGREQ)
        } else if v == 13 {
            Some(Type::PINGRESP)
        } else if v == 14 {
            Some(Type::DISCONNECT)
        } else {
            None
        }
    }

    /// The 4-bit wire value of this packet type.
    pub open spec fn spec_to_u8(self) -> u8 {
        match self {
            Type::CONNECT => 1,
            Type::CONNACK => 2,
            Type::PUBLISH => 3,
            Type::PUBACK => 4,
            Type::PUBREC => 5,
            Type::PUBREL => 6,
            Type::PUBCOMP => 7,
            Type::SUBSCRIBE => 8,
            Type::SUBACK => 9,
            Type::UNSUBSCRIBE => 10,
            Type::UNSUBACK => 11,
            Type::PINGREQ => 12,
            Type::PINGRESP => 13,
            Type::DISCONNECT => 14,
        }
    }

    /// Maps a raw 4-bit wire value to the packet type it names; values
    /// 0 and 15 (and anything above) name none.
    pub fn from_u8(v: u8) -> (r: Option<Type>)
        ensures
            r == Type::spec_from_u8(v),
    {
        if v == 1 {
            Some(Type::CONNECT)
        } else if v == 2 {
            Some(Type::CONNACK)
        } else if v == 3 {
            Some(Type::PUBLISH)
        } else if v == 4 {
            Some(Type::PUBACK)
        } else if v == 5 {
            Some(Type::PUBREC)
        } else if v == 6 {
            Some(Type::PUBREL)
        } else if v == 7 {
            Some(Type::PUBCOMP)
        } else if v == 8 {
            Some(Type::SUBSCRIBE)
        } else if v == 9 {
            Some(Type::SUBACK)
        } else if v == 10 {
            Some(Type::UNSUBSCRIBE)
        } else if v == 11 {
            Some(Type::UNSUBACK)
        } else if v == 12 {
            Some(Type::PINGREQ)
        } else if v == 13 {
            Some(Type::PINGRESP)
        } else if v == 14 {
            Some(Type::DISCONNECT)
        } else {
            None
        }
    }

    /// The 4-bit wire value of this packet type.
    pub fn to_u8(self) -> (r: u8)
        ensures
            r == self.spec_to_u8(),
    {
        match self {
            Type::CONNECT => 1,
            Type::CONNACK => 2,
            Type::PUBLISH => 3,
            Type::PUBACK => 4,
            Type::PUBREC => 5,
            Type::PUBREL => 6,
            Type::PUBCOMP => 7,
            Type::SUBSCRIBE => 8,
            Type::SUBACK => 9,
            Type::UNSUBSCRIBE => 10,
            Type::UNSUBACK => 11,
            Type::PINGREQ => 12,
            Type::PINGRESP => 13,
            Type::DISCONNECT => 14,
        }
    }
}


/// The CONNACK flag byte, unpacked: seven reserved bits (zero on the
/// wire) and the session-present bit.
#[derive(Clone, Copy, Debug, PartialEq, Eq, Structural)]
pub struct ConnAckFlags {
    pub reserved: u8,
    pub session_present: bool,
}

/// The CONNACK flag byte unpacked into its named sub-fields.
pub open spec fn parse_connack_flags(b: u8) -> ConnAckFlags {
    ConnAckFlags { reserved: b >> 1, session_present: b & 1 == 1 }
}

/// The named sub-fields packed back into one flag byte; the reserved
/// bits are forced to zero.
pub open spec fn enc_connack_flags(f: ConnAckFlags) -> u8 {
    if f.session_present {
        1
    } else {
        0
    }
}

/// A decoded CONNACK packet. The connect-return-code byte that follows
/// the flags on the wire is consumed but not captured by the data
/// model; encoding writes zero (connection accepted) there.
#[derive(Clone, Copy, Debug, PartialEq, Eq, Structural)]
pub struct ConnAck {
    pub header: FixedHeader,
    pub flags: ConnAckFlags,
}

/// What a CONNACK body decodes to, given its fixed header: the flag
/// byte and the return-code byte, so the declared remaining length
/// must be exactly two.
#[verifier::opaque]
pub open spec fn parse_connack(s: Seq<u8>, h: FixedHeader) -> Result<ConnAck, Error> {
    if h.remaining_len != 2 || s.len() < 2 {
        Err(Error::MalformedPacket)
    } else {
        Ok(ConnAck { header: h, flags: parse_connack_flags(s[0]) })
    }
}

/// The wire encoding of a CONNACK body: the flag byte, then a zero
/// return code.
pub open spec fn enc_connack_body(p: ConnAck) -> Seq<u8> {
    seq![enc_connack_flags(p.flags), 0u8]
}

/// Law: decoding an encoded CONNACK body against its own header gives
/// the packet back, provided the reserved bits were zero already.
pub proof fn lemma_connack_roundtrip(p: ConnAck)
    requires
        p.header.remaining_len == 2,
        p.flags.reserved == 0,
    ensures
        parse_connack(enc_connack_body(p), p.header) == Ok::<ConnAck, Error>(p),
{
    reveal(parse_connack);
    let b = enc_connack_flags(p.flags);
    assert(b == 0 || b == 1 ==> b >> 1 == 0 && (b & 1 == 1) == (b == 1)) by (bit_vector);
}

impl ConnAck {
    /// Reads a CONNACK body from the cursor: the flag byte and the
    /// return-code byte.
    pub fn read(buf: &mut bytes::Bytes, header: &FixedHeader) -> (r: Result<ConnAck, Error>)
        ensures
            match r {
                Ok(p) => parse_connack(bytes_view(*old(buf)), *header) == Ok::<ConnAck, Error>(p)
                    && bytes_view(*final(buf)) == bytes_view(*old(buf)).skip(2)
                    && bytes_view(*old(buf)).len() >= 2 && header.remaining_len == 2,
                Err(e) => parse_connack(bytes_view(*old(buf)), *header) == Err::<ConnAck, Error>(
                    e,
                ),
            },
    {
        proof {
            reveal(parse_connack);
        }
        let ghost s0 = bytes_view(*buf);
        if header.remaining_len != 2 {
            return Err(Error::MalformedPacket);
        }
        let rem = buf_remaining(buf);
        if rem < 2 {
            return Err(Error::MalformedPacket);
        }
        let fb = buf_get_u8(buf);
        let flags = ConnAckFlags { reserved: fb >> 1, session_present: fb & 1 == 1 };
        let _return_code = buf_get_u8(buf);
        proof {
            assert(s0.skip(1).skip(1) =~= s0.skip(2));
        }
        Ok(ConnAck { header: *header, flags })
    }

    /// Appends the wire encoding of this packet to `out`: the fixed
    /// header with a remaining length of two, the flag byte with its
    /// reserved bits cleared, and a zero return code.
    pub fn write(&self, out: &mut Vec<u8>) -> (r: Result<(), Error>)
        ensures
            match r {
                Ok(()) => self.header.opts.wf() && final(out)@ == old(out)@ + enc_fixed_header(
                    FixedHeader { remaining_len: 2, opts: self.header.opts },
                ) + enc_connack_body(*self),
                Err(e) => e == Error::ValueOutOfRange && !self.header.opts.wf() && final(out)@
                    == old(out)@,
            },
    {
        let header = FixedHeader { remaining_len: 2, opts: self.header.opts };
        let ghost out0 = out@;
        match header.write(out) {
            Err(e) => Err(e),
            Ok(()) => {
                out.push(if self.flags.session_present {
                    1
                } else {
                    0
                });
                out.push(0);
                proof {
                    assert(out@ =~= out0 + enc_fixed_header(header) + enc_connack_body(*self));
                }
                Ok(())
            },
        }
    }
}

/// A decoded SUBACK packet: a packet identifier and one return code
/// per topic of the SUBSCRIBE it answers.
#[derive(Debug, PartialEq, Eq)]
pub struct SubAck {
    pub header: FixedHeader,
    pub packet_id: u16,
    pub return_codes: Vec<u16>,
}

/// The mathematical image of a [`SubAck`].
#[verifier::ext_equal]
pub struct SubAckV {
    pub header: FixedHeader,
    pub packet_id: u16,
    pub return_codes: Seq<u16>,
}

impl View for SubAck {
    type V = SubAckV;

    open spec fn view(&self) -> SubAckV {
        SubAckV {
            header: self.header,
            packet_id: self.packet_id,
            return_codes: self.return_codes@,
        }
    }
}

/// What a run of two-byte return codes decodes to when exactly
/// `budget` more bytes of the remaining length are unclaimed.
pub open spec fn parse_return_codes(s: Seq<u8>, budget: int) -> Result<Seq<u16>, Error>
    decreases budget,
{
    if budget <= 0 {
        Ok(Seq::empty())
    } else if budget < 2 || s.len() < 2 {
        Err(Error::MalformedPacket)
    } else {
        match parse_return_codes(s.skip(2), budget - 2) {
            Err(e) => Err(e),
            Ok(cs) => Ok(seq![be16(s, 0) as u16] + cs),
        }
    }
}

/// What a SUBACK body decodes to, given its fixed header. The return
/// codes fill the declared remaining length exactly, so it must be an
/// even count of at least two bytes.
#[verifier::opaque]
pub open spec fn parse_suback(s: Seq<u8>, h: FixedHeader) -> Result<SubAckV, Error> {
    let rl = h.remaining_len as int;
    if rl < 2 || s.len() < 2 {
        Err(Error::MalformedPacket)
    } else {
        match parse_return_codes(s.skip(2), rl - 2) {
            Err(e) => Err(e),
            Ok(cs) => Ok(SubAckV { header: h, packet_id: be16(s, 0) as u16, return_codes: cs }),
        }
    }
}

/// The wire encoding of a run of two-byte return codes.
pub open spec fn enc_return_codes(cs: Seq<u16>) -> Seq<u8>
    decreases cs.len(),
{
    if cs.len() == 0 {
        Seq::empty()
    } else {
        enc_u16(cs[0] as int) + enc_return_codes(cs.skip(1))
    }
}

/// The wire encoding of a SUBACK body.
pub open spec fn enc_suback_body(p: SubAckV) -> Seq<u8> {
    enc_u16(p.packet_id as int) + enc_return_codes(p.return_codes)
}

/// Law: decoding an encoded run of return codes with a budget of
/// exactly its length gives the run back, whatever bytes follow it.
pub proof fn lemma_return_codes_roundtrip(cs: Seq<u16>, rest: Seq<u8>)
    ensures
        enc_return_codes(cs).len() == 2 * cs.len(),
        parse_return_codes(enc_return_codes(cs) + rest, enc_return_codes(cs).len() as int) == Ok::<
            Seq<u16>,
            Error,
        >(cs),
    decreases cs.len(),
{
    if cs.len() == 0 {
        assert(cs =~= Seq::<u16>::empty());
    } else {
        let c0 = cs[0];
        let tail = cs.skip(1);
        lemma_return_codes_roundtrip(tail, rest);
        let s = enc_return_codes(cs) + rest;
        let b = enc_return_codes(cs).len() as int;
        vstd::arithmetic::div_mod::lemma_fundamental_div_mod(c0 as int, 256);
        assert(s[0] == (c0 as int / 256) as u8 && s[1] == (c0 as int % 256) as u8);
        assert(be16(s, 0) == c0 as int);
        assert(s.skip(2) =~= enc_return_codes(tail) + rest);
        assert(seq![c0] + tail =~= cs);
        assert(parse_return_codes(s, b) == Ok::<Seq<u16>, Error>(cs));
    }
}

/// Law: decoding an encoded SUBACK body against its own header gives
/// the packet back.
pub proof fn lemma_suback_roundtrip(p: SubAckV)
    requires
        p.header.remaining_len == enc_suback_body(p).len(),
    ensures
        parse_suback(enc_suback_body(p), p.header) == Ok::<SubAckV, Error>(p),
{
    reveal(parse_suback);
    let s = enc_suback_body(p);
    let pid = p.packet_id as int;
    vstd::arithmetic::div_mod::lemma_fundamental_div_mod(pid, 256);
    assert(s[0] == (pid / 256) as u8 && s[1] == (pid % 256) as u8);
    assert(be16(s, 0) == pid);
    assert(s.skip(2) =~= enc_return_codes(p.return_codes) + Seq::<u8>::empty());
    lemma_return_codes_roundtrip(p.return_codes, Seq::empty());
    assert(parse_suback(s, p.header).unwrap() =~= p);
}

impl SubAck {
    /// Reads a SUBACK body from the cursor: the packet identifier, then
    /// return codes until the declared remaining length is spent
    /// exactly.
    #[verifier::loop_isolation(false)]
    pub fn read(buf: &mut bytes::Bytes, header: &FixedHeader) -> (r: Result<SubAck, Error>)
        ensures
            match r {
                Ok(p) => parse_suback(bytes_view(*old(buf)), *header) == Ok::<SubAckV, Error>(p@)
                    && bytes_view(*final(buf)) == bytes_view(*old(buf)).skip(
                    header.remaining_len as int,
                ) && header.remaining_len as int <= bytes_view(*old(buf)).len(),
                Err(e) => parse_suback(bytes_view(*old(buf)), *header) == Err::<SubAckV, Error>(
                    e,
                ),
            },
    {
        proof {
            reveal(parse_suback);
        }
        let ghost s0 = bytes_view(*buf);
        let rl = header.remaining_len;
        if rl < 2 {
            return Err(Error::MalformedPacket);
        }
        let rem = buf_remaining(buf);
        if rem < 2 {
            return Err(Error::MalformedPacket);
        }
        let pid = crate::buf::buf_get_u16(buf);
        let mut return_codes: Vec<u16> = Vec::new();
        let mut used: u32 = 2;
        let ghost body0 = bytes_view(*buf);
        while used < rl
            invariant
                2 <= used <= rl,
                bytes_view(*buf) == body0.skip(used as int - 2),
                bytes_view(*buf).len() == body0.len() - (used as int - 2),
                used as int - 2 <= body0.len(),
                ({
                    let acc = return_codes@;
                    match parse_return_codes(bytes_view(*buf), rl as int - used as int) {
                        Ok(cs) => parse_return_codes(body0, rl as int - 2) == Ok::<
                            Seq<u16>,
                            Error,
                        >(acc + cs),
                        Err(e) => parse_return_codes(body0, rl as int - 2) == Err::<
                            Seq<u16>,
                            Error,
                        >(e),
                    }
                }),
            decreases rl - used,
        {
            let ghost cur = bytes_view(*buf);
            let ghost acc = return_codes@;
            if rl - used < 2 {
                return Err(Error::MalformedPacket);
            }
            let rem2 = buf_remaining(buf);
            if rem2 < 2 {
                return Err(Error::MalformedPacket);
            }
            let code = crate::buf::buf_get_u16(buf);
            return_codes.push(code);
            used = used + 2;
            proof {
                assert(return_codes@ =~= acc + seq![code]);
                assert(cur.skip(2) =~= body0.skip(used as int - 2));
                match parse_return_codes(bytes_view(*buf), rl as int - used as int) {
                    Ok(cs) => {
                        assert(acc + (seq![code] + cs) =~= (acc + seq![code]) + cs);
                    },
                    Err(_) => {},
                }
            }
        }
        proof {
            let acc = return_codes@;
            assert(acc + Seq::<u16>::empty() =~= acc);
            assert(bytes_view(*buf) =~= s0.skip(rl as int));
        }
        Ok(SubAck { header: *header, packet_id: pid, return_codes })
    }

    /// Appends the wire encoding of this packet to `out`: the fixed
    /// header with the remaining length computed from the body, then
    /// the identifier and the return codes. A body longer than the
    /// largest remaining length leaves `out` unchanged.
    #[verifier::loop_isolation(false)]
    pub fn write(&self, out: &mut Vec<u8>) -> (r: Result<(), Error>)
        ensures
            match r {
                Ok(()) => {
                    &&& self.header.opts.wf()
                    &&& enc_suback_body(self@).len() <= VARINT_MAX
                    &&& final(out)@ == old(out)@ + enc_fixed_header(
                        FixedHeader {
                            remaining_len: enc_suback_body(self@).len() as u32,
                            opts: self.header.opts,
                        },
                    ) + enc_suback_body(self@)
                },
                Err(e) => e == Error::ValueOutOfRange && final(out)@ == old(out)@ && !(
                enc_suback_body(self@).len() <= VARINT_MAX && self.header.opts.wf()),
            },
    {
        let mut body: Vec<u8> = Vec::new();
        write_u16(&mut body, self.packet_id);
        let n = self.return_codes.len();
        let mut i: usize = 0;
        while i < n
            invariant
                0 <= i <= n,
                body@ == enc_u16(self.packet_id as int) + enc_return_codes(
                    self@.return_codes.take(i as int),
                ),
            decreases n - i,
        {
            write_u16(&mut body, self.return_codes[i]);
            proof {
                lemma_enc_return_codes_snoc(self@.return_codes, i as int);
                assert(body@ =~= enc_u16(self.packet_id as int) + enc_return_codes(
                    self@.return_codes.take(i as int + 1),
                ));
            }
            i = i + 1;
        }
        proof {
            assert(self@.return_codes.take(n as int) =~= self@.return_codes);
        }
        if body.len() > VARINT_MAX as usize {
            return Err(Error::ValueOutOfRange);
        }
        let header = FixedHeader { remaining_len: body.len() as u32, opts: self.header.opts };
        let ghost out0 = out@;
        match header.write(out) {
            Err(e) => Err(e),
            Ok(()) => {
                let mut b = body;
                out.append(&mut b);
                proof {
                    assert(out@ =~= out0 + enc_fixed_header(header) + enc_suback_body(self@));
                }
                Ok(())
            },
        }
    }
}

/// Extending a return-code run by one code appends that code's
/// encoding.
pub proof fn lemma_enc_return_codes_snoc(cs: Seq<u16>, i: int)
    requires
        0 <= i < cs.len(),
    ensures
        enc_return_codes(cs.take(i + 1)) == enc_return_codes(cs.take(i)) + enc_u16(cs[i] as int),
    decreases i,
{
    if i == 0 {
        assert(cs.take(1)[0] == cs[0]);
        assert(cs.take(1).skip(1) =~= Seq::<u16>::empty());
        assert(cs.take(0) =~= Seq::<u16>::empty());
        assert(enc_return_codes(cs.take(1)) =~= enc_return_codes(cs.take(0)) + enc_u16(
            cs[0] as int,
        ));
    } else {
        lemma_enc_return_codes_snoc(cs.skip(1), i - 1);
        assert(cs.take(i + 1)[0] == cs[0]);
        assert(cs.take(i + 1).skip(1) =~= cs.skip(1).take(i));
        assert(cs.take(i).skip(1) =~= cs.skip(1).take(i - 1));
        assert(cs.take(i)[0] == cs[0]);
        assert(cs.skip(1)[i - 1] == cs[i]);
        assert(enc_u16(cs[0] as int) + (enc_return_codes(cs.skip(1).take(i - 1)) + enc_u16(
            cs[i] as int,
        )) =~= (enc_u16(cs[0] as int) + enc_return_codes(cs.skip(1).take(i - 1))) + enc_u16(
            cs[i] as int,
        ));
    }
}


/// Any decoded control packet: one variant per packet type, the single
/// value the dispatcher returns and the single value the encoder
/// accepts. PINGREQ, PINGRESP and DISCONNECT carry nothing beyond
/// their fixed header.
#[derive(Debug, PartialEq, Eq)]
pub enum Packet {
    Connect(connect::Connect),
    ConnAck(ConnAck),
    Publish(publish::Publish),
    PubAck(ack::PubAck),
    PubRec(ack::PubRec),
    PubRel(ack::PubRel),
    PubComp(ack::PubComp),
    Subscribe(subscribe::Subscribe),
    SubAck(SubAck),
    Unsubscribe(unsubscribe::Unsubscribe),
    UnsubAck(ack::UnsubAck),
    PingReq(FixedHeader),
    PingResp(FixedHeader),
    Disconnect(FixedHeader),
}

/// The mathematical image of a [`Packet`].
#[verifier::ext_equal]
pub enum PacketV {
    Connect(ConnectV),
    ConnAck(ConnAck),
    Publish(PublishV),
    PubAck(Ack),
    PubRec(Ack),
    PubRel(Ack),
    PubComp(Ack),
    Subscribe(SubscribeV),
    SubAck(SubAckV),
    Unsubscribe(UnsubscribeV),
    UnsubAck(Ack),
    PingReq(FixedHeader),
    PingResp(FixedHeader),
    Disconnect(FixedHeader),
}

impl View for Packet {
    type V = PacketV;

    open spec fn view(&self) -> PacketV {
        match self {
            Packet::Connect(c) => PacketV::Connect(c@),
            Packet::ConnAck(c) => PacketV::ConnAck(*c),
            Packet::Publish(c) => PacketV::Publish(c@),
            Packet::PubAck(c) => PacketV::PubAck(*c),
            Packet::PubRec(c) => PacketV::PubRec(*c),
            Packet::PubRel(c) => PacketV::PubRel(*c),
            Packet::PubComp(c) => PacketV::PubComp(*c),
            Packet::Subscribe(c) => PacketV::Subscribe(c@),
            Packet::SubAck(c) => PacketV::SubAck(c@),
            Packet::Unsubscribe(c) => PacketV::Unsubscribe(c@),
            Packet::UnsubAck(c) => PacketV::UnsubAck(*c),
            Packet::PingReq(h) => PacketV::PingReq(*h),
            Packet::PingResp(h) => PacketV::PingResp(*h),
            Packet::Disconnect(h) => PacketV::Disconnect(*h),
        }
    }
}

/// The packet type a packet value belongs to.
pub open spec fn type_of(p: PacketV) -> Type {
    match p {
        PacketV::Connect(_) => Type::CONNECT,
        PacketV::ConnAck(_) => Type::CONNACK,
        PacketV::Publish(_) => Type::PUBLISH,
        PacketV::PubAck(_) => Type::PUBACK,
        PacketV::PubRec(_) => Type::PUBREC,
        PacketV::PubRel(_) => Type::PUBREL,
        PacketV::PubComp(_) => Type::PUBCOMP,
        PacketV::Subscribe(_) => Type::SUBSCRIBE,
        PacketV::SubAck(_) => Type::SUBACK,
        PacketV::Unsubscribe(_) => Type::UNSUBSCRIBE,
        PacketV::UnsubAck(_) => Type::UNSUBACK,
        PacketV::PingReq(_) => Type::PINGREQ,
        PacketV::PingResp(_) => Type::PINGRESP,
        PacketV::Disconnect(_) => Type::DISCONNECT,
    }
}

/// The fixed header a packet value carries.
pub open spec fn header_of(p: PacketV) -> FixedHeader {
    match p {
        PacketV::Connect(c) => c.header,
        PacketV::ConnAck(c) => c.header,
        PacketV::Publish(c) => c.header,
        PacketV::PubAck(c) => c.header,
        PacketV::PubRec(c) => c.header,
        PacketV::PubRel(c) => c.header,
        PacketV::PubComp(c) => c.header,
        PacketV::Subscribe(c) => c.header,
        PacketV::SubAck(c) => c.header,
        PacketV::Unsubscribe(c) => c.header,
        PacketV::UnsubAck(c) => c.header,
        PacketV::PingReq(h) => h,
        PacketV::PingResp(h) => h,
        PacketV::Disconnect(h) => h,
    }
}

/// The wire encoding of a packet's body: everything after the fixed
/// header.
pub open spec fn enc_body(p: PacketV) -> Seq<u8> {
    match p {
        PacketV::Connect(c) => enc_connect_body(c),
        PacketV::ConnAck(c) => enc_connack_body(c),
        PacketV::Publish(c) => enc_publish_body(c),
        PacketV::PubAck(c) => enc_ack_body(c),
        PacketV::PubRec(c) => enc_ack_body(c),
        PacketV::PubRel(c) => enc_ack_body(c),
        PacketV::PubComp(c) => enc_ack_body(c),
        PacketV::Subscribe(c) => enc_subscribe_body(c),
        PacketV::SubAck(c) => enc_suback_body(c),
        PacketV::Unsubscribe(c) => enc_unsubscribe_body(c),
        PacketV::UnsubAck(c) => enc_ack_body(c),
        PacketV::PingReq(_) => Seq::empty(),
        PacketV::PingResp(_) => Seq::empty(),
        PacketV::Disconnect(_) => Seq::empty(),
    }
}

/// The wire encoding of a whole packet: the fixed header, its
/// remaining length computed from the body, then the body.
pub open spec fn enc_packet(p: PacketV) -> Seq<u8> {
    enc_fixed_header(
        FixedHeader { remaining_len: enc_body(p).len() as u32, opts: header_of(p).opts },
    ) + enc_body(p)
}

/// What one whole packet at the front of `s` decodes to, together with
/// the number of bytes it occupies: the fixed header, the type
/// dispatch, and the type's own body layout.
pub open spec fn parse_packet(s: Seq<u8>) -> Result<(PacketV, int), Error> {
    match parse_fixed_header(s) {
        Err(e) => Err(e),
        Ok(ph) => {
            let h = ph.0;
            let body = s.skip(ph.1);
            let consumed = ph.1 + h.remaining_len as int;
            match Type::spec_from_u8(h.opts.packet_type) {
                None => Err(Error::UnknownPacketType),
                Some(t) => match t {
                    Type::CONNECT => match parse_connect(body, h) {
                        Err(e) => Err(e),
                        Ok(c) => Ok((PacketV::Connect(c), consumed)),
                    },
                    Type::CONNACK => match parse_connack(body, h) {
                        Err(e) => Err(e),
                        Ok(c) => Ok((PacketV::ConnAck(c), consumed)),
                    },
                    Type::PUBLISH => match parse_publish(body, h) {
                        Err(e) => Err(e),
                        Ok(c) => Ok((PacketV::Publish(c), consumed)),
                    },
                    Type::PUBACK => match parse_ack(body, h) {
                        Err(e) => Err(e),
                        Ok(c) => Ok((PacketV::PubAck(c), consumed)),
                    },
                    Type::PUBREC => match parse_ack(body, h) {
                        Err(e) => Err(e),
                        Ok(c) => Ok((PacketV::PubRec(c), consumed)),
                    },
                    Type::PUBREL => match parse_ack(body, h) {
                        Err(e) => Err(e),
                        Ok(c) => Ok((PacketV::PubRel(c), consumed)),
                    },
                    Type::PUBCOMP => match parse_ack(body, h) {
                        Err(e) => Err(e),
                        Ok(c) => Ok((PacketV::PubComp(c), consumed)),
                    },
                    Type::SUBSCRIBE => match parse_subscribe(body, h) {
                        Err(e) => Err(e),
                        Ok(c) => Ok((PacketV::Subscribe(c), consumed)),
                    },
                    Type::SUBACK => match parse_suback(body, h) {
                        Err(e) => Err(e),
                        Ok(c) => Ok((PacketV::SubAck(c), consumed)),
                    },
                    Type::UNSUBSCRIBE => match parse_unsubscribe(body, h) {
                        Err(e) => Err(e),
                        Ok(c) => Ok((PacketV::Unsubscribe(c), consumed)),
                    },
                    Type::UNSUBACK => match parse_ack(body, h) {
                        Err(e) => Err(e),
                        Ok(c) => Ok((PacketV::UnsubAck(c), consumed)),
                    },
                    Type::PINGREQ => match parse_empty(h) {
                        Err(e) => Err(e),
                        Ok(hh) => Ok((PacketV::PingReq(hh), consumed)),
                    },
                    Type::PINGRESP => match parse_empty(h) {
                        Err(e) => Err(e),
                        Ok(hh) => Ok((PacketV::PingResp(hh), consumed)),
                    },
                    Type::DISCONNECT => match parse_empty(h) {
                        Err(e) => Err(e),
                        Ok(hh) => Ok((PacketV::Disconnect(hh), consumed)),
                    },
                },
            }
        },
    }
}

/// A structurally valid packet: its header's fields fit their bit
/// widths, the stored packet type names its own variant, the stored
/// remaining length is exactly the body's size, the body fits the
/// remaining-length integer, and the variant's own constraints hold.
pub open spec fn valid_packet(p: PacketV) -> bool {
    &&& header_of(p).opts.wf()
    &&& header_of(p).opts.packet_type == type_of(p).spec_to_u8()
    &&& header_of(p).remaining_len == enc_body(p).len()
    &&& enc_body(p).len() <= VARINT_MAX
    &&& match p {
        PacketV::Connect(c) => connect_valid(c),
        PacketV::ConnAck(c) => c.flags.reserved == 0,
        PacketV::Publish(c) => vstd::utf8::encode_utf8(c.topic).len() <= 65535 && (
        c.header.opts.qos == 0 ==> c.packet_id == 0),
        PacketV::Subscribe(c) => topics_fit(c.topics),
        PacketV::Unsubscribe(c) => topics_unsub_valid(c.topics),
        _ => true,
    }
}

/// Law: the wire value of every packet type maps back to that type.
pub proof fn lemma_type_roundtrip(t: Type)
    ensures
        Type::spec_from_u8(t.spec_to_u8()) == Some(t),
{
}

/// Law: for every structurally valid packet, decoding its encoding
/// gives the packet back and consumes exactly the encoding.
#[verifier::rlimit(100)]
#[verifier::spinoff_prover]
pub proof fn lemma_packet_roundtrip(p: PacketV)
    requires
        valid_packet(p),
    ensures
        parse_packet(enc_packet(p)) == Ok::<(PacketV, int), Error>((
            p,
            enc_packet(p).len() as int,
        )),
{
    reveal(ack::parse_empty);
    let body = enc_body(p);
    let h = header_of(p);
    let s = enc_packet(p);
    fixed_header::FixedHeader::lemma_roundtrip(h, body);
    assert(s =~= enc_fixed_header(h) + body);
    let hl = enc_fixed_header(h).len() as int;
    assert(s.skip(hl) =~= body);
    lemma_type_roundtrip(type_of(p));
    match p {
        PacketV::Connect(c) => {
            connect::lemma_connect_roundtrip(c);
        },
        PacketV::ConnAck(c) => {
            lemma_connack_roundtrip(c);
        },
        PacketV::Publish(c) => {
            publish::lemma_publish_roundtrip(c);
        },
        PacketV::PubAck(c) => {
            ack::lemma_ack_roundtrip(c);
        },
        PacketV::PubRec(c) => {
            ack::lemma_ack_roundtrip(c);
        },
        PacketV::PubRel(c) => {
            ack::lemma_ack_roundtrip(c);
        },
        PacketV::PubComp(c) => {
            ack::lemma_ack_roundtrip(c);
        },
        PacketV::Subscribe(c) => {
            subscribe::lemma_subscribe_roundtrip(c);
        },
        PacketV::SubAck(c) => {
            lemma_suback_roundtrip(c);
        },
        PacketV::Unsubscribe(c) => {
            unsubscribe::lemma_unsubscribe_roundtrip(c);
        },
        PacketV::UnsubAck(c) => {
            ack::lemma_ack_roundtrip(c);
        },
        PacketV::PingReq(_) => {},
        PacketV::PingResp(_) => {},
        PacketV::Disconnect(_) => {},
    }
}

/// Reads one whole packet from a cursor positioned at a packet
/// boundary: the fixed header, the type dispatch, then the matching
/// body. A 4-bit type value outside 1..=14 fails with
/// `UnknownPacketType`; every inconsistency between the declared
/// remaining length and the body fails with `MalformedPacket`; nothing
/// panics.
#[verifier::rlimit(100)]
#[verifier::spinoff_prover]
pub fn new(buf: &mut bytes::Bytes) -> (r: Result<Packet, Error>)
    ensures
        match r {
            Ok(p) => {
                &&& parse_packet(bytes_view(*old(buf))) matches Ok(q)
                &&& q.0 == p@
                &&& bytes_view(*final(buf)) == bytes_view(*old(buf)).skip(q.1)
            },
            Err(e) => parse_packet(bytes_view(*old(buf))) == Err::<(PacketV, int), Error>(e),
        },
{
    let ghost s0 = bytes_view(*buf);
    let header = match FixedHeader::read(buf) {
        Err(e) => {
            return Err(e);
        },
        Ok(h) => h,
    };
    let ghost hl = parse_fixed_header(s0).unwrap().1;
    let ghost body = s0.skip(hl);
    let rl = header.remaining_len;
    let t = match Type::from_u8(header.opts.packet_type()) {
        None => {
            return Err(Error::UnknownPacketType);
        },
        Some(t) => t,
    };
    proof {
        assert(bytes_view(*buf) == body);
    }
    match t {
        Type::CONNECT => match connect::read_packet(buf, &header) {
            Err(e) => Err(e),
            Ok(c) => {
                proof {
                    assert(body.skip(rl as int) =~= s0.skip(hl + rl as int));
                }
                Ok(Packet::Connect(c))
            },
        },
        Type::CONNACK => match ConnAck::read(buf, &header) {
            Err(e) => Err(e),
            Ok(c) => {
                proof {
                    assert(body.skip(2) =~= s0.skip(hl + rl as int));
                }
                Ok(Packet::ConnAck(c))
            },
        },
        Type::PUBLISH => match publish::read_packet(buf, &header) {
            Err(e) => Err(e),
            Ok(c) => {
                proof {
                    assert(body.skip(rl as int) =~= s0.skip(hl + rl as int));
                }
                Ok(Packet::Publish(c))
            },
        },
        Type::PUBACK => match ack::read_packet(buf, &header) {
            Err(e) => Err(e),
            Ok(c) => {
                proof {
                    assert(body.skip(2) =~= s0.skip(hl + rl as int));
                }
                Ok(Packet::PubAck(c))
            },
        },
        Type::PUBREC => match ack::read_packet(buf, &header) {
            Err(e) => Err(e),
            Ok(c) => {
                proof {
                    assert(body.skip(2) =~= s0.skip(hl + rl as int));
                }
                Ok(Packet::PubRec(c))
            },
        },
        Type::PUBREL => match ack::read_packet(buf, &header) {
            Err(e) => Err(e),
            Ok(c) => {
                proof {
                    assert(body.skip(2) =~= s0.skip(hl + rl as int));
                }
                Ok(Packet::PubRel(c))
            },
        },
        Type::PUBCOMP => match ack::read_packet(buf, &header) {
            Err(e) => Err(e),
            Ok(c) => {
                proof {
                    assert(body.skip(2) =~= s0.skip(hl + rl as int));
                }
                Ok(Packet::PubComp(c))
            },
        },
        Type::SUBSCRIBE => match subscribe::read_packet(buf, &header) {
            Err(e) => Err(e),
            Ok(c) => {
                proof {
                    assert(body.skip(rl as int) =~= s0.skip(hl + rl as int));
                }
                Ok(Packet::Subscribe(c))
            },
        },
        Type::SUBACK => match SubAck::read(buf, &header) {
            Err(e) => Err(e),
            Ok(c) => {
                proof {
                    assert(body.skip(rl as int) =~= s0.skip(hl + rl as int));
                }
                Ok(Packet::SubAck(c))
            },
        },
        Type::UNSUBSCRIBE => match unsubscribe::read_packet(buf, &header) {
            Err(e) => Err(e),
            Ok(c) => {
                proof {
                    assert(body.skip(rl as int) =~= s0.skip(hl + rl as int));
                }
                Ok(Packet::Unsubscribe(c))
            },
        },
        Type::UNSUBACK => match ack::read_packet(buf, &header) {
            Err(e) => Err(e),
            Ok(c) => {
                proof {
                    assert(body.skip(2) =~= s0.skip(hl + rl as int));
                }
                Ok(Packet::UnsubAck(c))
            },
        },
        Type::PINGREQ => match ack::read_empty_packet(&header) {
            Err(e) => Err(e),
            Ok(h) => {
                proof {
                    assert(body =~= s0.skip(hl + rl as int));
                }
                Ok(Packet::PingReq(h))
            },
        },
        Type::PINGRESP => match ack::read_empty_packet(&header) {
            Err(e) => Err(e),
            Ok(h) => {
                proof {
                    assert(body =~= s0.skip(hl + rl as int));
                }
                Ok(Packet::PingResp(h))
            },
        },
        Type::DISCONNECT => match ack::read_empty_packet(&header) {
            Err(e) => Err(e),
            Ok(h) => {
                proof {
                    assert(body =~= s0.skip(hl + rl as int));
                }
                Ok(Packet::Disconnect(h))
            },
        },
    }
}

/// Whether a packet can be written at all: the header's control
/// options fit their widths and the variant's own wire limits hold.
pub open spec fn packet_writable(p: PacketV) -> bool {
    match p {
        PacketV::Connect(c) => connect_writable(c),
        PacketV::ConnAck(c) => c.header.opts.wf(),
        PacketV::Publish(c) => publish_encodable(c) && c.header.opts.wf(),
        PacketV::Subscribe(c) => subscribe_writable(c),
        PacketV::SubAck(c) => enc_suback_body(c).len() <= VARINT_MAX && c.header.opts.wf(),
        PacketV::Unsubscribe(c) => unsubscribe::unsubscribe_writable(c),
        _ => header_of(p).opts.wf(),
    }
}

/// Appends the wire encoding of one whole packet to `out`: the body is
/// sized first, then the fixed header goes out with the computed
/// remaining length, then the body. A packet that does not fit its
/// wire widths fails with `ValueOutOfRange` and leaves `out`
/// unchanged.
#[verifier::rlimit(100)]
#[verifier::spinoff_prover]
pub fn write(p: &Packet, out: &mut Vec<u8>) -> (r: Result<(), Error>)
    ensures
        match r {
            Ok(()) => packet_writable(p@) && final(out)@ == old(out)@ + enc_packet(p@),
            Err(e) => e == Error::ValueOutOfRange && final(out)@ == old(out)@ && !packet_writable(
                p@,
            ),
        },
{
    match p {
        Packet::Connect(c) => c.write(out),
        Packet::ConnAck(c) => c.write(out),
        Packet::Publish(c) => c.write(out),
        Packet::PubAck(c) => c.write(out),
        Packet::PubRec(c) => c.write(out),
        Packet::PubRel(c) => c.write(out),
        Packet::PubComp(c) => c.write(out),
        Packet::Subscribe(c) => c.write(out),
        Packet::SubAck(c) => c.write(out),
        Packet::Unsubscribe(c) => c.write(out),
        Packet::UnsubAck(c) => c.write(out),
        Packet::PingReq(h) => ack::write_empty_packet(h, out),
        Packet::PingResp(h) => ack::write_empty_packet(h, out),
        Packet::Disconnect(h) => ack::write_empty_packet(h, out),
    }
}


} // verus!
