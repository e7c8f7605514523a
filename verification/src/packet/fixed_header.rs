//! The fixed header present on every packet: one control byte packing
//! the packet type and the dup/QoS/retain flags, then the remaining-length
//! integer.
use vstd::prelude::*;

use crate::buf::{buf_get_u8, buf_remaining, bytes_view};
use crate::varint::{enc_varint, parse_varint, VARINT_MAX};
use crate::Error;

verus! {

/// The control byte of the fixed header, unpacked: `[packet_type:4]`
/// `[dup:1][qos:2][retain:1]`, most significant bits first.
#[derive(Clone, Copy, Debug, PartialEq, Eq, Structural)]
pub struct FixedHeaderControlOptions {
    pub packet_type: u8,
    pub dup: bool,
    pub qos: u8,
    pub retain: bool,
}

impl FixedHeaderControlOptions {
    /// The unpacked fields fit their bit widths.
    pub open spec fn wf(self) -> bool {
        self.packet_type < 16 && self.qos < 4
    }

    /// The 4-bit packet-type field.
    pub fn packet_type(&self) -> (r: u8)
        ensures
            r == self.packet_type,
    {
        self.packet_type
    }

    /// The retransmission flag; meaningful only for PUBLISH.
    pub fn dup(&self) -> (r: bool)
        ensures
            r == self.dup,
    {
        self.dup
    }

    /// The 2-bit quality-of-service field; meaningful only for PUBLISH.
    pub fn qos(&self) -> (r: u8)
        ensures
            r == self.qos,
    {
        self.qos
    }

    /// The retain flag; meaningful only for PUBLISH.
    pub fn retain(&self) -> (r: bool)
        ensures
            r == self.retain,
    {
        self.retain
    }
}

/// The control byte unpacked into its named sub-fields.
pub open spec fn parse_byte0(b: u8) -> FixedHeaderControlOptions {
    FixedHeaderControlOptions {
        packet_type: b >> 4,
        dup: (b >> 3) & 1 == 1,
        qos: (b >> 1) & 3,
        retain: b & 1 == 1,
    }
}

/// The named sub-fields packed back into one control byte.
pub open spec fn enc_byte0(o: FixedHeaderControlOptions) -> u8 {
    (o.packet_type << 4) | (if o.dup {
        8
    } else {
        0
    }) | (o.qos << 1) | (if o.retain {
        1
    } else {
        0
    })
}

/// Unpacking any control byte yields fields within their bit widths.
pub proof fn lemma_parse_byte0_wf(b: u8)
    ensures
        parse_byte0(b).wf(),
{
    assert(b >> 4 < 16 && (b >> 1) & 3 < 4) by (bit_vector);
}

/// Law: packing well-formed control options and unpacking the byte gives
/// the options back.
pub proof fn lemma_byte0_roundtrip(o: FixedHeaderControlOptions)
    requires
        o.wf(),
    ensures
        parse_byte0(enc_byte0(o)) == o,
{
    let pt = o.packet_type;
    let d: u8 = if o.dup {
        8
    } else {
        0
    };
    let q = o.qos;
    let rt: u8 = if o.retain {
        1
    } else {
        0
    };
    let b: u8 = (pt << 4) | d | (q << 1) | rt;
    assert(b >> 4 == pt && (b >> 1) & 3 == q && (b >> 3) & 1 == (if d == 8 {
        1u8
    } else {
        0u8
    }) && b & 1 == rt) by (bit_vector)
        requires
            pt < 16,
            q < 4,
            d == 8 || d == 0,
            rt == 1 || rt == 0,
            b == (pt << 4) | d | (q << 1) | rt,
    ;
}

/// The fixed header: remaining length and unpacked control byte.
#[derive(Clone, Copy, Debug, PartialEq, Eq, Structural)]
pub struct FixedHeader {
    pub remaining_len: u32,
    pub opts: FixedHeaderControlOptions,
}

/// What a fixed header at the front of `s` decodes to, together with the
/// number of bytes it occupies. Nothing beyond structure is validated
/// here: the caller checks the packet type and the remaining length.
#[verifier::opaque]
pub open spec fn parse_fixed_header(s: Seq<u8>) -> Result<(FixedHeader, int), Error> {
    if s.len() < 1 {
        Err(Error::MalformedPacket)
    } else {
        match parse_varint(s.skip(1)) {
            Ok(p) => Ok(
                (FixedHeader { remaining_len: p.0, opts: parse_byte0(s[0]) }, 1 + p.1),
            ),
            Err(e) => Err(e),
        }
    }
}

/// The wire encoding of a fixed header: the packed control byte, then the
/// remaining-length integer.
pub open spec fn enc_fixed_header(h: FixedHeader) -> Seq<u8> {
    seq![enc_byte0(h.opts)] + enc_varint(h.remaining_len as int)
}

impl FixedHeader {
    /// The header's fields fit their wire widths.
    pub open spec fn wf(self) -> bool {
        self.opts.wf() && self.remaining_len <= VARINT_MAX
    }

    /// Law: decoding an encoded fixed header gives the header back and
    /// consumes exactly its encoding, whatever bytes follow it.
    pub proof fn lemma_roundtrip(h: FixedHeader, rest: Seq<u8>)
        requires
            h.wf(),
        ensures
            2 <= enc_fixed_header(h).len() <= 5,
            parse_fixed_header(enc_fixed_header(h) + rest) == Ok::<(FixedHeader, int), Error>((
                h,
                enc_fixed_header(h).len() as int,
            )),
    {
        reveal(parse_fixed_header);
        let e = enc_fixed_header(h);
        let s = e + rest;
        lemma_byte0_roundtrip(h.opts);
        crate::varint::lemma_varint_roundtrip(h.remaining_len as int, rest);
        assert(s[0] == enc_byte0(h.opts));
        assert(s.skip(1) =~= enc_varint(h.remaining_len as int) + rest);
    }

    /// Reads the control byte, then the remaining-length integer.
    pub fn read(buf: &mut bytes::Bytes) -> (r: Result<FixedHeader, Error>)
        ensures
            match r {
                Ok(h) => {
                    &&& parse_fixed_header(bytes_view(*old(buf))) matches Ok(p)
                    &&& p.0 == h
                    &&& bytes_view(*final(buf)) == bytes_view(*old(buf)).skip(p.1)
                    &&& 2 <= p.1 <= bytes_view(*old(buf)).len()
                    &&& h.wf()
                },
                Err(e) => parse_fixed_header(bytes_view(*old(buf))) == Err::<
                    (FixedHeader, int),
                    Error,
                >(e),
            },
    {
        proof {
            reveal(parse_fixed_header);
        }
        let ghost s0 = bytes_view(*buf);
        let rem = buf_remaining(buf);
        if rem < 1 {
            return Err(Error::MalformedPacket);
        }
        let b0 = buf_get_u8(buf);
        let opts = FixedHeaderControlOptions {
            packet_type: b0 >> 4,
            dup: (b0 >> 3) & 1 == 1,
            qos: (b0 >> 1) & 3,
            retain: b0 & 1 == 1,
        };
        proof {
            lemma_parse_byte0_wf(b0);
            assert(opts == parse_byte0(b0));
        }
        match Self::decode_remaining_length(buf) {
            Ok(n) => {
                proof {
                    assert(bytes_view(*buf) =~= s0.skip(
                        1 + parse_varint(s0.skip(1)).unwrap().1,
                    ));
                }
                Ok(FixedHeader { remaining_len: n, opts })
            },
            Err(e) => Err(e),
        }
    }

    /// Reads a variable-length remaining-length integer: up to four
    /// bytes, seven value bits each, least significant group first.
    pub fn decode_remaining_length(buf: &mut bytes::Bytes) -> (r: Result<u32, Error>)
        ensures
            match r {
                Ok(n) => {
                    &&& parse_varint(bytes_view(*old(buf))) matches Ok(p)
                    &&& p.0 == n
                    &&& bytes_view(*final(buf)) == bytes_view(*old(buf)).skip(p.1)
                    &&& 1 <= p.1 <= bytes_view(*old(buf)).len()
                    &&& n <= VARINT_MAX
                },
                Err(e) => parse_varint(bytes_view(*old(buf))) == Err::<(u32, int), Error>(e),
            },
    {
        let ghost s0 = bytes_view(*buf);
        let rem = buf_remaining(buf);
        if rem < 1 {
            return Err(Error::MalformedPacket);
        }
        let b0 = buf_get_u8(buf);
        if b0 < 128 {
            return Ok(b0 as u32);
        }
        let rem1 = buf_remaining(buf);
        if rem1 < 1 {
            return Err(Error::MalformedPacket);
        }
        let b1 = buf_get_u8(buf);
        proof {
            assert(bytes_view(*buf) =~= s0.skip(2));
        }
        if b1 < 128 {
            return Ok((b0 - 128) as u32 + 128 * (b1 as u32));
        }
        let rem2 = buf_remaining(buf);
        if rem2 < 1 {
            return Err(Error::MalformedPacket);
        }
        let b2 = buf_get_u8(buf);
        proof {
            assert(bytes_view(*buf) =~= s0.skip(3));
        }
        if b2 < 128 {
            return Ok((b0 - 128) as u32 + 128 * ((b1 - 128) as u32) + 16384 * (b2 as u32));
        }
        let rem3 = buf_remaining(buf);
        if rem3 < 1 {
            return Err(Error::MalformedPacket);
        }
        let b3 = buf_get_u8(buf);
        proof {
            assert(bytes_view(*buf) =~= s0.skip(4));
        }
        if b3 < 128 {
            return Ok(
                (b0 - 128) as u32 + 128 * ((b1 - 128) as u32) + 16384 * ((b2 - 128) as u32)
                    + 2097152 * (b3 as u32),
            );
        }
        Err(Error::MalformedVarInt)
    }

    /// Appends the minimal wire encoding of `n` to `out`; values above
    /// `VARINT_MAX` cannot be represented and leave `out` unchanged.
    pub fn encode_remaining_length(n: u32, out: &mut Vec<u8>) -> (r: Result<(), Error>)
        ensures
            match r {
                Ok(()) => n <= VARINT_MAX && final(out)@ == old(out)@ + enc_varint(n as int),
                Err(e) => e == Error::ValueOutOfRange && n > VARINT_MAX && final(out)@ == old(
                    out,
                )@,
            },
    {
        if n > VARINT_MAX {
            return Err(Error::ValueOutOfRange);
        }
        if n < 128 {
            out.push(n as u8);
        } else if n < 16384 {
            out.push((n % 128 + 128) as u8);
            out.push((n / 128) as u8);
        } else if n < 2097152 {
            out.push((n % 128 + 128) as u8);
            out.push((n / 128 % 128 + 128) as u8);
            out.push((n / 16384) as u8);
        } else {
            out.push((n % 128 + 128) as u8);
            out.push((n / 128 % 128 + 128) as u8);
            out.push((n / 16384 % 128 + 128) as u8);
            out.push((n / 2097152) as u8);
        }
        proof {
            assert(out@ =~= old(out)@ + enc_varint(n as int));
        }
        Ok(())
    }

    /// Appends the wire encoding of this header to `out`: the packed
    /// control byte, then the remaining-length integer. Fields that do
    /// not fit their wire widths leave `out` unchanged.
    pub fn write(&self, out: &mut Vec<u8>) -> (r: Result<(), Error>)
        ensures
            match r {
                Ok(()) => self.wf() && final(out)@ == old(out)@ + enc_fixed_header(*self),
                Err(e) => e == Error::ValueOutOfRange && !self.wf() && final(out)@ == old(out)@,
            },
    {
        if self.opts.packet_type >= 16 || self.opts.qos >= 4 || self.remaining_len > VARINT_MAX {
            return Err(Error::ValueOutOfRange);
        }
        let b0: u8 = (self.opts.packet_type << 4) | (if self.opts.dup {
            8
        } else {
            0
        }) | (self.opts.qos << 1) | (if self.opts.retain {
            1
        } else {
            0
        });
        out.push(b0);
        let res = Self::encode_remaining_length(self.remaining_len, out);
        proof {
            assert(res is Ok);
            assert(out@ =~= old(out)@ + enc_fixed_header(*self));
        }
        Ok(())
    }
}

} // verus!
