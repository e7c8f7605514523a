//! Field primitives: big-endian 16-bit integers and length-prefixed
//! UTF-8 strings, shared by every per-packet-type codec.
use vstd::prelude::*;

use vstd::string::StrSliceExecFns;
use vstd::utf8::{decode_utf8, encode_utf8, valid_utf8};

use crate::buf::{buf_get_u16, buf_read_bytes, buf_remaining, bytes_view};
use crate::{Error, FieldName};

verus! {

/// The big-endian 16-bit integer stored at offset `i` of `s`.
pub open spec fn be16(s: Seq<u8>, i: int) -> int
    recommends
        0 <= i,
        i + 2 <= s.len(),
{
    s[i] as int * 256 + s[i + 1] as int
}

/// The two-byte big-endian encoding of `n`, for `n` in `0..=65535`.
pub open spec fn enc_u16(n: int) -> Seq<u8> {
    seq![(n / 256) as u8, (n % 256) as u8]
}

/// What a length-prefixed string field at the front of `s` decodes to,
/// together with the number of bytes it occupies. `budget` is how many
/// bytes of the packet's declared remaining length are still unclaimed;
/// a field that would reach past it, or past the end of the input, is a
/// protocol violation.
pub open spec fn parse_string(s: Seq<u8>, budget: int, f: FieldName) -> Result<
    (Seq<char>, int),
    Error,
> {
    if budget < 2 || s.len() < 2 {
        Err(Error::MalformedPacket)
    } else {
        let l = be16(s, 0);
        if 2 + l > budget || 2 + l > s.len() {
            Err(Error::MalformedPacket)
        } else {
            let v = s.subrange(2, 2 + l);
            if valid_utf8(v) {
                Ok((decode_utf8(v), 2 + l))
            } else {
                Err(Error::InvalidUtf8(f))
            }
        }
    }
}

/// The wire encoding of a string field: two length bytes, then the
/// string's UTF-8 bytes. Meaningful when those bytes number at most 65535.
pub open spec fn enc_string(t: Seq<char>) -> Seq<u8> {
    enc_u16(encode_utf8(t).len() as int) + encode_utf8(t)
}

/// Law: decoding an encoded string field gives the string back and
/// consumes exactly its encoding, whatever bytes follow it.
pub proof fn lemma_string_roundtrip(t: Seq<char>, rest: Seq<u8>, budget: int, f: FieldName)
    requires
        encode_utf8(t).len() <= 65535,
        budget >= 2 + encode_utf8(t).len(),
    ensures
        enc_string(t).len() == 2 + encode_utf8(t).len(),
        parse_string(enc_string(t) + rest, budget, f) == Ok::<(Seq<char>, int), Error>((
            t,
            2 + encode_utf8(t).len() as int,
        )),
{
    let l = encode_utf8(t).len() as int;
    let s = enc_string(t) + rest;
    assert(s[0] == (l / 256) as u8);
    assert(s[1] == (l % 256) as u8);
    vstd::arithmetic::div_mod::lemma_fundamental_div_mod(l, 256);
    assert(be16(s, 0) == l);
    assert(s.subrange(2, 2 + l) =~= encode_utf8(t));
    vstd::utf8::encode_utf8_valid_utf8(t);
    vstd::utf8::encode_utf8_decode_utf8(t);
}

/// Relies on `String::from_utf8`: it succeeds exactly on valid UTF-8 and
/// returns the string those bytes spell.
#[verifier::external_body]
pub fn string_from_bytes(v: Vec<u8>) -> (r: Option<String>)
    ensures
        r is Some <==> valid_utf8(v@),
        r is Some ==> r.unwrap()@ == decode_utf8(v@),
{
    String::from_utf8(v).ok()
}

/// Reads one length-prefixed UTF-8 string field from the cursor, spending
/// at most `budget` bytes of the packet's declared remaining length.
pub fn read_string(buf: &mut bytes::Bytes, budget: u32, f: FieldName) -> (r: Result<
    (String, u32),
    Error,
>)
    ensures
        match r {
            Ok(p) => parse_string(bytes_view(*old(buf)), budget as int, f) == Ok::<
                (Seq<char>, int),
                Error,
            >((p.0@, p.1 as int)) && bytes_view(*final(buf)) == bytes_view(*old(buf)).skip(
                p.1 as int,
            ) && 2 <= p.1 <= budget && p.1 <= bytes_view(*old(buf)).len(),
            Err(e) => parse_string(bytes_view(*old(buf)), budget as int, f) == Err::<
                (Seq<char>, int),
                Error,
            >(e),
        },
{
    let ghost s0 = bytes_view(*buf);
    if budget < 2 {
        return Err(Error::MalformedPacket);
    }
    let rem = buf_remaining(buf);
    if rem < 2 {
        return Err(Error::MalformedPacket);
    }
    let l = buf_get_u16(buf);
    if l as u32 > budget - 2 {
        return Err(Error::MalformedPacket);
    }
    let rem2 = buf_remaining(buf);
    if l as usize > rem2 {
        return Err(Error::MalformedPacket);
    }
    let data = buf_read_bytes(buf, l as usize);
    proof {
        assert(s0.skip(2).take(l as int) =~= s0.subrange(2, 2 + l as int));
        assert(s0.skip(2).skip(l as int) =~= s0.skip(2 + l as int));
    }
    match string_from_bytes(data) {
        Some(st) => Ok((st, 2 + l as u32)),
        None => Err(Error::InvalidUtf8(f)),
    }
}

/// Appends one length-prefixed string field to `out`. Fails with
/// `ValueOutOfRange` when the string's UTF-8 form exceeds 65535 bytes,
/// leaving `out` unchanged.
pub fn write_string(out: &mut Vec<u8>, s: &String) -> (r: Result<(), Error>)
    ensures
        match r {
            Ok(()) => encode_utf8(s@).len() <= 65535 && final(out)@ == old(out)@ + enc_string(s@),
            Err(e) => e == Error::ValueOutOfRange && encode_utf8(s@).len() > 65535 && final(out)@
                == old(out)@,
        },
{
    let b = s.as_str().as_bytes_vec();
    if b.len() > 65535 {
        return Err(Error::ValueOutOfRange);
    }
    let n = b.len() as u32;
    out.push((n / 256) as u8);
    out.push((n % 256) as u8);
    let mut bb = b;
    out.append(&mut bb);
    proof {
        assert(out@ =~= old(out)@ + enc_string(s@));
    }
    Ok(())
}

/// Appends the two-byte big-endian encoding of `n` to `out`.
pub fn write_u16(out: &mut Vec<u8>, n: u16)
    ensures
        final(out)@ == old(out)@ + enc_u16(n as int),
{
    out.push((n / 256) as u8);
    out.push((n % 256) as u8);
    proof {
        assert(out@ =~= old(out)@ + enc_u16(n as int));
    }
}

} // verus!
