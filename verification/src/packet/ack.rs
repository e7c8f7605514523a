//! The shared acknowledgment body (a packet identifier and nothing
//! else), used by PUBACK, PUBREC, PUBREL, PUBCOMP and UNSUBACK, and the
//! zero-payload shape of PINGREQ, PINGRESP and DISCONNECT.
use vstd::prelude::*;

use crate::buf::{buf_get_u16, buf_remaining, bytes_view};
use crate::fields::{be16, enc_u16, write_u16};
use crate::packet::fixed_header::{enc_fixed_header, FixedHeader};
use crate::Error;

verus! {

/// A decoded acknowledgment packet: a fixed header and a packet
/// identifier.
#[derive(Clone, Copy, Debug, PartialEq, Eq, Structural)]
pub struct Ack {
    pub header: FixedHeader,
    pub packet_id: u16,
}

pub type PubAck = Ack;

pub type PubRec = Ack;

pub type PubRel = Ack;

pub type PubComp = Ack;

pub type UnsubAck = Ack;

/// What an acknowledgment body decodes to, given its fixed header: the
/// declared remaining length must be exactly the two identifier bytes.
#[verifier::opaque]
pub open spec fn parse_ack(s: Seq<u8>, h: FixedHeader) -> Result<Ack, Error> {
    if h.remaining_len != 2 || s.len() < 2 {
        Err(Error::MalformedPacket)
    } else {
        Ok(Ack { header: h, packet_id: be16(s, 0) as u16 })
    }
}

/// The wire encoding of an acknowledgment body.
pub open spec fn enc_ack_body(p: Ack) -> Seq<u8> {
    enc_u16(p.packet_id as int)
}

/// Law: decoding an encoded acknowledgment body against its own header
/// gives the packet back.
pub proof fn lemma_ack_roundtrip(p: Ack)
    requires
        p.header.remaining_len == 2,
    ensures
        parse_ack(enc_ack_body(p), p.header) == Ok::<Ack, Error>(p),
{
    reveal(parse_ack);
    vstd::arithmetic::div_mod::lemma_fundamental_div_mod(p.packet_id as int, 256);
}

/// What a zero-payload packet decodes to, given its fixed header: the
/// declared remaining length must be zero, and nothing is read.
#[verifier::opaque]
pub open spec fn parse_empty(h: FixedHeader) -> Result<FixedHeader, Error> {
    if h.remaining_len != 0 {
        Err(Error::MalformedPacket)
    } else {
        Ok(h)
    }
}

/// Reads an acknowledgment body from the cursor: the packet identifier
/// alone.
pub fn read_packet(buf: &mut bytes::Bytes, header: &FixedHeader) -> (r: Result<Ack, Error>)
    ensures
        match r {
            Ok(p) => parse_ack(bytes_view(*old(buf)), *header) == Ok::<Ack, Error>(p)
                && bytes_view(*final(buf)) == bytes_view(*old(buf)).skip(2)
                && bytes_view(*old(buf)).len() >= 2 && header.remaining_len == 2,
            Err(e) => parse_ack(bytes_view(*old(buf)), *header) == Err::<Ack, Error>(e),
        },
{
    proof {
        reveal(parse_ack);
    }
    if header.remaining_len != 2 {
        return Err(Error::MalformedPacket);
    }
    let rem = buf_remaining(buf);
    if rem < 2 {
        return Err(Error::MalformedPacket);
    }
    let pid = buf_get_u16(buf);
    Ok(Ack { header: *header, packet_id: pid })
}

/// Checks a zero-payload packet (PINGREQ, PINGRESP, DISCONNECT) against
/// its header: such a packet must declare a remaining length of zero.
pub fn read_empty_packet(header: &FixedHeader) -> (r: Result<FixedHeader, Error>)
    ensures
        r == parse_empty(*header),
        r is Ok ==> header.remaining_len == 0,
{
    proof {
        reveal(parse_empty);
    }
    if header.remaining_len != 0 {
        return Err(Error::MalformedPacket);
    }
    Ok(*header)
}

impl Ack {
    /// Appends the wire encoding of this packet to `out`: the fixed
    /// header with a remaining length of two, then the identifier.
    pub fn write(&self, out: &mut Vec<u8>) -> (r: Result<(), Error>)
        ensures
            match r {
                Ok(()) => self.header.opts.wf() && final(out)@ == old(out)@ + enc_fixed_header(
                    FixedHeader { remaining_len: 2, opts: self.header.opts },
                ) + enc_ack_body(*self),
                Err(e) => e == Error::ValueOutOfRange && !self.header.opts.wf() && final(out)@
                    == old(out)@,
            },
    {
        let header = FixedHeader { remaining_len: 2, opts: self.header.opts };
        let ghost out0 = out@;
        match header.write(out) {
            Err(e) => Err(e),
            Ok(()) => {
                write_u16(out, self.packet_id);
                proof {
                    assert(out@ =~= out0 + enc_fixed_header(header) + enc_ack_body(*self));
                }
                Ok(())
            },
        }
    }
}

/// Appends the wire encoding of a zero-payload packet to `out`: a fixed
/// header with a remaining length of zero and nothing after it.
pub fn write_empty_packet(header: &FixedHeader, out: &mut Vec<u8>) -> (r: Result<(), Error>)
    ensures
        match r {
            Ok(()) => header.opts.wf() && final(out)@ == old(out)@ + enc_fixed_header(
                FixedHeader { remaining_len: 0, opts: header.opts },
            ),
            Err(e) => e == Error::ValueOutOfRange && !header.opts.wf() && final(out)@ == old(
                out,
            )@,
        },
{
    let h = FixedHeader { remaining_len: 0, opts: header.opts };
    h.write(out)
}

} // verus!
