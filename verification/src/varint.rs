//! The variable-length integer ("remaining length") codec.
//!
//! Each byte contributes its low 7 bits, least significant group first;
//! bit 7 is a continuation flag. At most four bytes are allowed, so the
//! value ranges over `0..=268435455`.
use vstd::prelude::*;

use crate::Error;

verus! {

/// The largest value a remaining-length integer can carry.
pub const VARINT_MAX: u32 = 268435455;

/// What a remaining-length integer at the front of `s` decodes to,
/// together with the number of bytes it occupies.
pub open spec fn parse_varint(s: Seq<u8>) -> Result<(u32, int), Error> {
    if s.len() < 1 {
        Err(Error::MalformedPacket)
    } else if s[0] < 128 {
        Ok((s[0] as u32, 1))
    } else if s.len() < 2 {
        Err(Error::MalformedPacket)
    } else if s[1] < 128 {
        Ok((((s[0] - 128) + 128 * s[1]) as u32, 2))
    } else if s.len() < 3 {
        Err(Error::MalformedPacket)
    } else if s[2] < 128 {
        Ok((((s[0] - 128) + 128 * (s[1] - 128) + 16384 * s[2]) as u32, 3))
    } else if s.len() < 4 {
        Err(Error::MalformedPacket)
    } else if s[3] < 128 {
        Ok((((s[0] - 128) + 128 * (s[1] - 128) + 16384 * (s[2] - 128) + 2097152 * s[3]) as u32, 4))
    } else {
        Err(Error::MalformedVarInt)
    }
}

/// The minimal wire encoding of `n`, for `n` in `0..=VARINT_MAX`.
pub open spec fn enc_varint(n: int) -> Seq<u8> {
    if n < 128 {
        seq![n as u8]
    } else if n < 16384 {
        seq![(n % 128 + 128) as u8, (n / 128) as u8]
    } else if n < 2097152 {
        seq![(n % 128 + 128) as u8, ((n / 128) % 128 + 128) as u8, (n / 16384) as u8]
    } else {
        seq![
            (n % 128 + 128) as u8,
            ((n / 128) % 128 + 128) as u8,
            ((n / 16384) % 128 + 128) as u8,
            (n / 2097152) as u8,
        ]
    }
}

/// Law: decoding an encoded remaining-length integer gives the integer
/// back and consumes exactly its encoding, whatever bytes follow it.
pub proof fn lemma_varint_roundtrip(n: int, rest: Seq<u8>)
    requires
        0 <= n <= VARINT_MAX,
    ensures
        1 <= enc_varint(n).len() <= 4,
        parse_varint(enc_varint(n) + rest) == Ok::<(u32, int), Error>((
            n as u32,
            enc_varint(n).len() as int,
        )),
{
    vstd::arithmetic::div_mod::lemma_fundamental_div_mod(n, 128);
    vstd::arithmetic::div_mod::lemma_fundamental_div_mod(n / 128, 128);
    vstd::arithmetic::div_mod::lemma_fundamental_div_mod(n / 16384, 128);
    if n >= 128 {
        vstd::arithmetic::div_mod::lemma_div_denominator(n, 128, 128);
        vstd::arithmetic::div_mod::lemma_div_denominator(n, 16384, 128);
        vstd::arithmetic::div_mod::lemma_div_denominator(n / 128, 128, 128);
    }
    let s = enc_varint(n) + rest;
    assert(s[0] == enc_varint(n)[0]);
    if n >= 128 {
        assert(s[1] == enc_varint(n)[1]);
    }
    if n >= 16384 {
        assert(s[2] == enc_varint(n)[2]);
    }
    if n >= 2097152 {
        assert(s[3] == enc_varint(n)[3]);
    }
}

/// Law: four continuation bytes in a row are rejected as a malformed
/// remaining-length integer, since a fifth byte would be needed.
pub proof fn lemma_varint_overlong_rejected(s: Seq<u8>)
    requires
        s.len() >= 4,
        forall|i: int| 0 <= i < 4 ==> s[i] >= 128,
    ensures
        parse_varint(s) == Err::<(u32, int), Error>(Error::MalformedVarInt),
{
}

} // verus!
