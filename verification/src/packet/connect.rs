//! The CONNECT packet body: the protocol name and version, the packed
//! connect flags, the keepalive interval, and a run of length-prefixed
//! strings whose presence the flags dictate.
use vstd::prelude::*;

use vstd::utf8::encode_utf8;

use crate::buf::{buf_get_u16, buf_get_u8, buf_read_bytes, buf_remaining, bytes_view};
use crate::fields::{be16, enc_string, enc_u16, parse_string, read_string, write_string, write_u16};
use crate::packet::fixed_header::{enc_fixed_header, FixedHeader};
use crate::varint::VARINT_MAX;
use crate::{Error, FieldName};

verus! {

/// The packed CONNECT flag byte, unpacked: `[username:1][password:1]`
/// `[will_retain:1][will_qos:2][will:1][clean_session:1][reserved:1]`,
/// most significant bits first.
#[derive(Clone, Copy, Debug, PartialEq, Eq, Structural)]
pub struct ConnectFlags {
    pub username: bool,
    pub password: bool,
    pub will_retain: bool,
    pub will_qos: u8,
    pub will: bool,
    pub clean_session: bool,
    pub reserved: bool,
}

impl ConnectFlags {
    /// The will QoS fits its two bits.
    pub open spec fn wf(self) -> bool {
        self.will_qos < 4
    }
}

/// The CONNECT flag byte unpacked into its named sub-fields.
pub open spec fn parse_connect_flags(b: u8) -> ConnectFlags {
    ConnectFlags {
        username: (b >> 7) & 1 == 1,
        password: (b >> 6) & 1 == 1,
        will_retain: (b >> 5) & 1 == 1,
        will_qos: (b >> 3) & 3,
        will: (b >> 2) & 1 == 1,
        clean_session: (b >> 1) & 1 == 1,
        reserved: b & 1 == 1,
    }
}

/// The named sub-fields packed back into one flag byte. The reserved
/// bit is forced to zero, and the will QoS and will-retain bits are
/// forced to zero when no will is present.
pub open spec fn enc_connect_flags(f: ConnectFlags) -> u8 {
    (if f.username {
        128u8
    } else {
        0u8
    }) | (if f.password {
        64u8
    } else {
        0u8
    }) | (if f.will && f.will_retain {
        32u8
    } else {
        0u8
    }) | ((if f.will {
        f.will_qos
    } else {
        0u8
    }) << 3) | (if f.will {
        4u8
    } else {
        0u8
    }) | (if f.clean_session {
        2u8
    } else {
        0u8
    })
}

/// Law: packing well-formed connect flags and unpacking the byte gives
/// the flags back, provided the fields the encoder forces to zero were
/// zero already.
pub proof fn lemma_connect_flags_roundtrip(f: ConnectFlags)
    requires
        f.wf(),
        !f.will ==> f.will_qos == 0 && !f.will_retain,
        !f.reserved,
    ensures
        parse_connect_flags(enc_connect_flags(f)) == f,
{
    let u: u8 = if f.username {
        128
    } else {
        0
    };
    let pw: u8 = if f.password {
        64
    } else {
        0
    };
    let wr: u8 = if f.will && f.will_retain {
        32
    } else {
        0
    };
    let wq: u8 = if f.will {
        f.will_qos
    } else {
        0
    };
    let w: u8 = if f.will {
        4
    } else {
        0
    };
    let cs: u8 = if f.clean_session {
        2
    } else {
        0
    };
    let b: u8 = u | pw | wr | (wq << 3) | w | cs;
    assert((b >> 7) & 1 == (if u == 128 {
        1u8
    } else {
        0u8
    }) && (b >> 6) & 1 == (if pw == 64 {
        1u8
    } else {
        0u8
    }) && (b >> 5) & 1 == (if wr == 32 {
        1u8
    } else {
        0u8
    }) && (b >> 3) & 3 == wq && (b >> 2) & 1 == (if w == 4 {
        1u8
    } else {
        0u8
    }) && (b >> 1) & 1 == (if cs == 2 {
        1u8
    } else {
        0u8
    }) && b & 1 == 0) by (bit_vector)
        requires
            u == 128 || u == 0,
            pw == 64 || pw == 0,
            wr == 32 || wr == 0,
            wq < 4,
            w == 4 || w == 0,
            cs == 2 || cs == 0,
            b == u | pw | wr | (wq << 3) | w | cs,
    ;
}

/// A decoded CONNECT packet. String fields whose flag bit is clear are
/// empty: the wire carries nothing for them.
#[derive(Debug, PartialEq, Eq)]
pub struct Connect {
    pub header: FixedHeader,
    pub flags: ConnectFlags,
    pub keepalive: u16,
    pub client_id: String,
    pub password: String,
    pub username: String,
    pub will_message: String,
    pub will_topic: String,
}

/// The mathematical image of a [`Connect`].
#[verifier::ext_equal]
pub struct ConnectV {
    pub header: FixedHeader,
    pub flags: ConnectFlags,
    pub keepalive: u16,
    pub client_id: Seq<char>,
    pub password: Seq<char>,
    pub username: Seq<char>,
    pub will_message: Seq<char>,
    pub will_topic: Seq<char>,
}

impl View for Connect {
    type V = ConnectV;

    open spec fn view(&self) -> ConnectV {
        ConnectV {
            header: self.header,
            flags: self.flags,
            keepalive: self.keepalive,
            client_id: self.client_id@,
            password: self.password@,
            username: self.username@,
            will_message: self.will_message@,
            will_topic: self.will_topic@,
        }
    }
}

/// The fixed prefix of every CONNECT variable header: the six-byte
/// protocol-name field (a two-byte length and the letters MQTT) and the
/// protocol-version byte.
pub open spec fn protocol_prefix() -> Seq<u8> {
    seq![0u8, 4u8, 0x4du8, 0x51u8, 0x54u8, 0x54u8, 4u8]
}

/// What an optional string field decodes to: a string field when the
/// governing flag bit is set, nothing (the empty string) when it is
/// clear.
#[verifier::opaque]
pub open spec fn parse_opt_string(s: Seq<u8>, budget: int, present: bool, f: FieldName) -> Result<
    (Seq<char>, int),
    Error,
> {
    if present {
        parse_string(s, budget, f)
    } else {
        Ok((Seq::empty(), 0))
    }
}

/// The flag-dependent string run of a CONNECT body, as decoded.
#[verifier::ext_equal]
pub struct ConnStrings {
    pub client_id: Seq<char>,
    pub will_topic: Seq<char>,
    pub will_message: Seq<char>,
    pub username: Seq<char>,
    pub password: Seq<char>,
}

/// What the string run of a CONNECT body decodes to, together with the
/// number of bytes it occupies: the client identifier, then the will
/// topic and message, the user name and the password, each present
/// exactly when its flag bit is set.
pub open spec fn parse_connect_strings(s: Seq<u8>, budget: int, flags: ConnectFlags) -> Result<
    (ConnStrings, int),
    Error,
> {
    match parse_string(s, budget, FieldName::ClientId) {
        Err(e) => Err(e),
        Ok(pc) => {
            let o1 = pc.1;
            match parse_opt_string(s.skip(o1), budget - o1, flags.will, FieldName::WillTopic) {
                Err(e) => Err(e),
                Ok(pwt) => {
                    let o2 = o1 + pwt.1;
                    match parse_opt_string(
                        s.skip(o2),
                        budget - o2,
                        flags.will,
                        FieldName::WillMessage,
                    ) {
                        Err(e) => Err(e),
                        Ok(pwm) => {
                            let o3 = o2 + pwm.1;
                            match parse_opt_string(
                                s.skip(o3),
                                budget - o3,
                                flags.username,
                                FieldName::Username,
                            ) {
                                Err(e) => Err(e),
                                Ok(pu) => {
                                    let o4 = o3 + pu.1;
                                    match parse_opt_string(
                                        s.skip(o4),
                                        budget - o4,
                                        flags.password,
                                        FieldName::Password,
                                    ) {
                                        Err(e) => Err(e),
                                        Ok(pp) => Ok(
                                            (
                                                ConnStrings {
                                                    client_id: pc.0,
                                                    will_topic: pwt.0,
                                                    will_message: pwm.0,
                                                    username: pu.0,
                                                    password: pp.0,
                                                },
                                                o4 + pp.1,
                                            ),
                                        ),
                                    }
                                },
                            }
                        },
                    }
                },
            }
        },
    }
}

/// What a CONNECT body decodes to, given its fixed header. The protocol
/// name and version must match [`protocol_prefix`]; the string run must
/// fill the declared remaining length exactly.
#[verifier::opaque]
pub open spec fn parse_connect(s: Seq<u8>, h: FixedHeader) -> Result<ConnectV, Error> {
    let rl = h.remaining_len as int;
    if rl < 10 || s.len() < 10 {
        Err(Error::MalformedPacket)
    } else if s.subrange(0, 7) != protocol_prefix() {
        Err(Error::MalformedPacket)
    } else {
        let flags = parse_connect_flags(s[7]);
        match parse_connect_strings(s.skip(10), rl - 10, flags) {
            Err(e) => Err(e),
            Ok(pcs) => if pcs.1 == rl - 10 {
                Ok(
                    ConnectV {
                        header: h,
                        flags,
                        keepalive: be16(s, 8) as u16,
                        client_id: pcs.0.client_id,
                        password: pcs.0.password,
                        username: pcs.0.username,
                        will_message: pcs.0.will_message,
                        will_topic: pcs.0.will_topic,
                    },
                )
            } else {
                Err(Error::MalformedPacket)
            },
        }
    }
}

/// The wire encoding of an optional string field: a string field when
/// the flag bit is set, nothing when it is clear.
pub open spec fn enc_opt_string(t: Seq<char>, present: bool) -> Seq<u8> {
    if present {
        enc_string(t)
    } else {
        Seq::empty()
    }
}

/// The wire encoding of the string run of a CONNECT body.
pub open spec fn enc_connect_strings(c: ConnectV) -> Seq<u8> {
    enc_string(c.client_id) + enc_opt_string(c.will_topic, c.flags.will) + enc_opt_string(
        c.will_message,
        c.flags.will,
    ) + enc_opt_string(c.username, c.flags.username) + enc_opt_string(c.password, c.flags.password)
}

/// The wire encoding of a CONNECT body.
pub open spec fn enc_connect_body(c: ConnectV) -> Seq<u8> {
    protocol_prefix() + seq![enc_connect_flags(c.flags)] + enc_u16(c.keepalive as int)
        + enc_connect_strings(c)
}

/// A CONNECT packet the wire can carry faithfully: flags within their
/// widths, nothing in the fields the encoder forces to zero, absent
/// strings empty, and every present string within its length prefix.
pub open spec fn connect_valid(c: ConnectV) -> bool {
    &&& c.flags.wf()
    &&& !c.flags.reserved
    &&& !c.flags.will ==> c.flags.will_qos == 0 && !c.flags.will_retain && c.will_topic
        == Seq::<char>::empty() && c.will_message == Seq::<char>::empty()
    &&& !c.flags.username ==> c.username == Seq::<char>::empty()
    &&& !c.flags.password ==> c.password == Seq::<char>::empty()
    &&& encode_utf8(c.client_id).len() <= 65535
    &&& encode_utf8(c.will_topic).len() <= 65535
    &&& encode_utf8(c.will_message).len() <= 65535
    &&& encode_utf8(c.username).len() <= 65535
    &&& encode_utf8(c.password).len() <= 65535
}

/// Law: one optional-string step of the round trip. Decoding an encoded
/// optional field gives the field back and consumes its encoding.
proof fn lemma_opt_string_roundtrip(t: Seq<char>, rest: Seq<u8>, budget: int, present: bool, f: FieldName)
    requires
        encode_utf8(t).len() <= 65535,
        budget >= enc_opt_string(t, present).len(),
        !present ==> t == Seq::<char>::empty(),
    ensures
        parse_opt_string(enc_opt_string(t, present) + rest, budget, present, f) == Ok::<
            (Seq<char>, int),
            Error,
        >((t, enc_opt_string(t, present).len() as int)),
{
    reveal(parse_opt_string);
    if present {
        crate::fields::lemma_string_roundtrip(t, rest, budget, f);
    } else {
        assert(enc_opt_string(t, present) + rest =~= rest);
    }
}

/// Law: decoding an encoded CONNECT body against its own header gives
/// the packet back.
/// Law: decoding an encoded CONNECT string run with a budget of exactly
/// its length gives the strings back, whatever bytes follow it.
#[verifier::rlimit(100)]
#[verifier::spinoff_prover]
pub proof fn lemma_connect_strings_roundtrip(c: ConnectV, rest: Seq<u8>)
    requires
        connect_valid(c),
    ensures
        parse_connect_strings(
            enc_connect_strings(c) + rest,
            enc_connect_strings(c).len() as int,
            c.flags,
        ) == Ok::<(ConnStrings, int), Error>((
            ConnStrings {
                client_id: c.client_id,
                will_topic: c.will_topic,
                will_message: c.will_message,
                username: c.username,
                password: c.password,
            },
            enc_connect_strings(c).len() as int,
        )),
{
    let s = enc_connect_strings(c) + rest;
    let b = enc_connect_strings(c).len() as int;
    let e_cid = enc_string(c.client_id);
    let e_wt = enc_opt_string(c.will_topic, c.flags.will);
    let e_wm = enc_opt_string(c.will_message, c.flags.will);
    let e_u = enc_opt_string(c.username, c.flags.username);
    let e_p = enc_opt_string(c.password, c.flags.password);
    let o1 = e_cid.len() as int;
    let o2 = o1 + e_wt.len() as int;
    let o3 = o2 + e_wm.len() as int;
    let o4 = o3 + e_u.len() as int;
    assert(s =~= e_cid + (e_wt + (e_wm + (e_u + (e_p + rest)))));
    crate::fields::lemma_string_roundtrip(
        c.client_id,
        e_wt + (e_wm + (e_u + (e_p + rest))),
        b,
        FieldName::ClientId,
    );
    assert(s.skip(o1) =~= e_wt + (e_wm + (e_u + (e_p + rest))));
    lemma_opt_string_roundtrip(
        c.will_topic,
        e_wm + (e_u + (e_p + rest)),
        b - o1,
        c.flags.will,
        FieldName::WillTopic,
    );
    assert(s.skip(o2) =~= e_wm + (e_u + (e_p + rest)));
    lemma_opt_string_roundtrip(
        c.will_message,
        e_u + (e_p + rest),
        b - o2,
        c.flags.will,
        FieldName::WillMessage,
    );
    assert(s.skip(o3) =~= e_u + (e_p + rest));
    lemma_opt_string_roundtrip(
        c.username,
        e_p + rest,
        b - o3,
        c.flags.username,
        FieldName::Username,
    );
    assert(s.skip(o4) =~= e_p + rest);
    lemma_opt_string_roundtrip(c.password, rest, b - o4, c.flags.password, FieldName::Password);
}

/// Law: decoding an encoded CONNECT body against its own header gives
/// the packet back.
#[verifier::rlimit(100)]
#[verifier::spinoff_prover]
pub proof fn lemma_connect_roundtrip(c: ConnectV)
    requires
        connect_valid(c),
        c.header.remaining_len == enc_connect_body(c).len(),
    ensures
        parse_connect(enc_connect_body(c), c.header) == Ok::<ConnectV, Error>(c),
{
    reveal(parse_connect);
    let s = enc_connect_body(c);
    let rl = c.header.remaining_len as int;
    assert(s.subrange(0, 7) =~= protocol_prefix());
    assert(s[7] == enc_connect_flags(c.flags));
    lemma_connect_flags_roundtrip(c.flags);
    vstd::arithmetic::div_mod::lemma_fundamental_div_mod(c.keepalive as int, 256);
    assert(s[8] == (c.keepalive as int / 256) as u8);
    assert(s[9] == (c.keepalive as int % 256) as u8);
    assert(be16(s, 8) == c.keepalive as int);
    assert(s.skip(10) =~= enc_connect_strings(c) + Seq::<u8>::empty());
    lemma_connect_strings_roundtrip(c, Seq::empty());
    assert(rl - 10 == enc_connect_strings(c).len());
    assert(parse_connect(s, c.header).unwrap() =~= c);
}

/// Reads one optional string field: a length-prefixed string when
/// `present` holds, nothing (and the empty string) when it does not.
fn read_opt_string(buf: &mut bytes::Bytes, budget: u32, present: bool, f: FieldName) -> (r: Result<
    (String, u32),
    Error,
>)
    ensures
        match r {
            Ok(p) => parse_opt_string(bytes_view(*old(buf)), budget as int, present, f) == Ok::<
                (Seq<char>, int),
                Error,
            >((p.0@, p.1 as int)) && bytes_view(*final(buf)) == bytes_view(*old(buf)).skip(
                p.1 as int,
            ) && p.1 <= budget && p.1 <= bytes_view(*old(buf)).len(),
            Err(e) => parse_opt_string(bytes_view(*old(buf)), budget as int, present, f) == Err::<
                (Seq<char>, int),
                Error,
            >(e),
        },
{
    proof {
        reveal(parse_opt_string);
    }
    if present {
        read_string(buf, budget, f)
    } else {
        proof {
            assert(bytes_view(*buf).skip(0) =~= bytes_view(*buf));
        }
        Ok((String::new(), 0))
    }
}

/// Reads the flag-dependent string run of a CONNECT body, spending at
/// most `budget` bytes of the declared remaining length.
#[verifier::rlimit(100)]
#[verifier::spinoff_prover]
fn read_connect_strings(buf: &mut bytes::Bytes, budget: u32, flags: ConnectFlags) -> (r: Result<
    ((String, String, String, String, String), u32),
    Error,
>)
    ensures
        match r {
            Ok(p) => parse_connect_strings(bytes_view(*old(buf)), budget as int, flags) == Ok::<
                (ConnStrings, int),
                Error,
            >((
                ConnStrings {
                    client_id: p.0.0@,
                    will_topic: p.0.1@,
                    will_message: p.0.2@,
                    username: p.0.3@,
                    password: p.0.4@,
                },
                p.1 as int,
            )) && bytes_view(*final(buf)) == bytes_view(*old(buf)).skip(p.1 as int) && p.1
                <= budget && p.1 <= bytes_view(*old(buf)).len(),
            Err(e) => parse_connect_strings(bytes_view(*old(buf)), budget as int, flags) == Err::<
                (ConnStrings, int),
                Error,
            >(e),
        },
{
    let ghost s0 = bytes_view(*buf);
    let client_id: String;
    let o1: u32;
    match read_string(buf, budget, FieldName::ClientId) {
        Err(e) => {
            return Err(e);
        },
        Ok((v, c)) => {
            client_id = v;
            o1 = c;
        },
    }
    let will_topic: String;
    let o2: u32;
    match read_opt_string(buf, budget - o1, flags.will, FieldName::WillTopic) {
        Err(e) => {
            return Err(e);
        },
        Ok((v, c)) => {
            will_topic = v;
            o2 = o1 + c;
            proof {
                assert(s0.skip(o1 as int).skip(c as int) =~= s0.skip(o2 as int));
            }
        },
    }
    let will_message: String;
    let o3: u32;
    match read_opt_string(buf, budget - o2, flags.will, FieldName::WillMessage) {
        Err(e) => {
            return Err(e);
        },
        Ok((v, c)) => {
            will_message = v;
            o3 = o2 + c;
            proof {
                assert(s0.skip(o2 as int).skip(c as int) =~= s0.skip(o3 as int));
            }
        },
    }
    let username: String;
    let o4: u32;
    match read_opt_string(buf, budget - o3, flags.username, FieldName::Username) {
        Err(e) => {
            return Err(e);
        },
        Ok((v, c)) => {
            username = v;
            o4 = o3 + c;
            proof {
                assert(s0.skip(o3 as int).skip(c as int) =~= s0.skip(o4 as int));
            }
        },
    }
    let password: String;
    let o5: u32;
    match read_opt_string(buf, budget - o4, flags.password, FieldName::Password) {
        Err(e) => {
            return Err(e);
        },
        Ok((v, c)) => {
            password = v;
            o5 = o4 + c;
            proof {
                assert(s0.skip(o4 as int).skip(c as int) =~= s0.skip(o5 as int));
            }
        },
    }
    Ok(((client_id, will_topic, will_message, username, password), o5))
}

/// Reads a CONNECT body from the cursor: the protocol prefix, the flag
/// byte, the keepalive interval, then the client identifier and the
/// flag-dependent strings, which must fill the declared remaining
/// length exactly.
#[verifier::rlimit(100)]
#[verifier::spinoff_prover]
pub fn read_packet(buf: &mut bytes::Bytes, header: &FixedHeader) -> (r: Result<Connect, Error>)
    ensures
        match r {
            Ok(p) => parse_connect(bytes_view(*old(buf)), *header) == Ok::<ConnectV, Error>(p@)
                && bytes_view(*final(buf)) == bytes_view(*old(buf)).skip(
                header.remaining_len as int,
            ) && header.remaining_len as int <= bytes_view(*old(buf)).len(),
            Err(e) => parse_connect(bytes_view(*old(buf)), *header) == Err::<ConnectV, Error>(e),
        },
{
    proof {
        reveal(parse_connect);
    }
    let ghost s0 = bytes_view(*buf);
    let rl = header.remaining_len;
    if rl < 10 {
        return Err(Error::MalformedPacket);
    }
    let rem = buf_remaining(buf);
    if rem < 10 {
        return Err(Error::MalformedPacket);
    }
    let pref = buf_read_bytes(buf, 7);
    let ok = pref[0] == 0 && pref[1] == 4 && pref[2] == 0x4d && pref[3] == 0x51 && pref[4] == 0x54
        && pref[5] == 0x54 && pref[6] == 4;
    if !ok {
        proof {
            assert(s0.subrange(0, 7) =~= s0.take(7));
            assert(s0.subrange(0, 7) != protocol_prefix());
        }
        return Err(Error::MalformedPacket);
    }
    proof {
        assert(s0.subrange(0, 7) =~= s0.take(7));
        assert(s0.subrange(0, 7) =~= protocol_prefix());
    }
    let fb = buf_get_u8(buf);
    let flags = ConnectFlags {
        username: (fb >> 7) & 1 == 1,
        password: (fb >> 6) & 1 == 1,
        will_retain: (fb >> 5) & 1 == 1,
        will_qos: (fb >> 3) & 3,
        will: (fb >> 2) & 1 == 1,
        clean_session: (fb >> 1) & 1 == 1,
        reserved: fb & 1 == 1,
    };
    proof {
        assert(s0.skip(7)[0] == s0[7]);
        assert(flags == parse_connect_flags(s0[7]));
        assert(s0.skip(7).skip(1) =~= s0.skip(8));
        assert(s0.skip(8)[0] == s0[8] && s0.skip(8)[1] == s0[9]);
    }
    let keepalive = buf_get_u16(buf);
    proof {
        assert(s0.skip(8).skip(2) =~= s0.skip(10));
    }
    match read_connect_strings(buf, rl - 10, flags) {
        Err(e) => Err(e),
        Ok(((client_id, will_topic, will_message, username, password), used)) => {
            if used != rl - 10 {
                return Err(Error::MalformedPacket);
            }
            proof {
                assert(s0.skip(10).skip(used as int) =~= s0.skip(rl as int));
            }
            Ok(
                Connect {
                    header: *header,
                    flags,
                    keepalive,
                    client_id,
                    password,
                    username,
                    will_message,
                    will_topic,
                },
            )
        },
    }
}

/// Whether a CONNECT packet can be written at all: it fits its wire
/// widths, the header's control options fit theirs, and a present will
/// carries a QoS within two bits.
pub open spec fn connect_writable(c: ConnectV) -> bool {
    connect_encodable(c) && c.header.opts.wf() && (c.flags.will ==> c.flags.wf())
}

/// Whether a CONNECT packet fits its wire widths: every string that
/// will be written fits its length prefix and the whole body fits the
/// remaining-length integer.
pub open spec fn connect_encodable(c: ConnectV) -> bool {
    &&& encode_utf8(c.client_id).len() <= 65535
    &&& c.flags.will ==> encode_utf8(c.will_topic).len() <= 65535 && encode_utf8(
        c.will_message,
    ).len() <= 65535
    &&& c.flags.username ==> encode_utf8(c.username).len() <= 65535
    &&& c.flags.password ==> encode_utf8(c.password).len() <= 65535
    &&& enc_connect_body(c).len() <= VARINT_MAX
}

impl Connect {
    /// Appends the wire encoding of this packet to `out`: the fixed
    /// header with the remaining length computed from the body, then
    /// the body. A packet that does not fit its wire widths leaves
    /// `out` unchanged.
    #[verifier::rlimit(100)]
    #[verifier::spinoff_prover]
    pub fn write(&self, out: &mut Vec<u8>) -> (r: Result<(), Error>)
        ensures
            match r {
                Ok(()) => {
                    &&& connect_writable(self@)
                    &&& final(out)@ == old(out)@ + enc_fixed_header(
                        FixedHeader {
                            remaining_len: enc_connect_body(self@).len() as u32,
                            opts: self.header.opts,
                        },
                    ) + enc_connect_body(self@)
                },
                Err(e) => e == Error::ValueOutOfRange && final(out)@ == old(out)@
                    && !connect_writable(self@),
            },
    {
        let mut body: Vec<u8> = Vec::new();
        body.push(0);
        body.push(4);
        body.push(0x4d);
        body.push(0x51);
        body.push(0x54);
        body.push(0x54);
        body.push(4);
        let wq: u8 = if self.flags.will {
            self.flags.will_qos & 3
        } else {
            0
        };
        let fb: u8 = (if self.flags.username {
            128u8
        } else {
            0u8
        }) | (if self.flags.password {
            64u8
        } else {
            0u8
        }) | (if self.flags.will && self.flags.will_retain {
            32u8
        } else {
            0u8
        }) | (wq << 3) | (if self.flags.will {
            4u8
        } else {
            0u8
        }) | (if self.flags.clean_session {
            2u8
        } else {
            0u8
        });
        proof {
            let q = self.flags.will_qos;
            assert(q < 4 ==> q & 3 == q) by (bit_vector);
        }
        if self.flags.will && self.flags.will_qos >= 4 {
            return Err(Error::ValueOutOfRange);
        }
        body.push(fb);
        write_u16(&mut body, self.keepalive);
        proof {
            assert(body@ =~= protocol_prefix() + seq![enc_connect_flags(self.flags)] + enc_u16(
                self.keepalive as int,
            ));
        }
        match write_string(&mut body, &self.client_id) {
            Err(e) => {
                return Err(e);
            },
            Ok(()) => {},
        }
        if self.flags.will {
            match write_string(&mut body, &self.will_topic) {
                Err(e) => {
                    return Err(e);
                },
                Ok(()) => {},
            }
            match write_string(&mut body, &self.will_message) {
                Err(e) => {
                    return Err(e);
                },
                Ok(()) => {},
            }
        }
        if self.flags.username {
            match write_string(&mut body, &self.username) {
                Err(e) => {
                    return Err(e);
                },
                Ok(()) => {},
            }
        }
        if self.flags.password {
            match write_string(&mut body, &self.password) {
                Err(e) => {
                    return Err(e);
                },
                Ok(()) => {},
            }
        }
        proof {
            assert(body@ =~= enc_connect_body(self@));
        }
        if body.len() > VARINT_MAX as usize {
            return Err(Error::ValueOutOfRange);
        }
        let header = FixedHeader { remaining_len: body.len() as u32, opts: self.header.opts };
        let ghost out0 = out@;
        match header.write(out) {
            Err(e) => Err(e),
            Ok(()) => {
                let mut b = body;
                out.append(&mut b);
                proof {
                    assert(out@ =~= out0 + enc_fixed_header(header) + enc_connect_body(self@));
                }
                Ok(())
            },
        }
    }
}

} // verus!
