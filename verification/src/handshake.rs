//! The handshake schema: the one serverbound packet that opens every
//! connection and names the state the client wants next.

use vstd::prelude::*;
use vstd::utf8::encode_utf8;
use crate::de;
use crate::de::{Deserializer, lossy_utf8, varint_span, varint_span_ok, varint_span_rest};
use crate::protocol::ProtocolState;
use crate::ser;
use crate::ser::{Serializer, be2, be2_val, string_enc};
use crate::varint::{varint_enc, varint_ok, varint_decoded, varint_size, unsigned32};
use crate::codec::RawPacket;

verus! {

/// Serverbound handshake packets: one variant, packet id 0.
#[derive(Debug, Clone, PartialEq)]
pub enum Serverbound {
    /// The server list ping: protocol version (varint), requested host,
    /// requested port, and the state asked for next.
    ServerListPing { version: i32, host: String, port: u16, next_state: ProtocolState },
}

/// The mathematical content of a [`Serverbound::ServerListPing`].
pub struct PingView {
    pub version: i32,
    pub host: Seq<char>,
    pub port: u16,
    pub next_state: ProtocolState,
}

impl View for Serverbound {
    type V = PingView;

    open spec fn view(&self) -> PingView {
        match self {
            Serverbound::ServerListPing { version, host, port, next_state } => PingView {
                version: *version,
                host: host@,
                port: *port,
                next_state: *next_state,
            },
        }
    }
}

/// The wire bytes of a server list ping: packet id 0, then the fields in order.
pub open spec fn ping_enc(v: PingView) -> Seq<u8> {
    seq![0u8] + varint_enc(unsigned32(v.version)) + string_enc(v.host) + be2(v.port as nat)
        + varint_enc(unsigned32(v.next_state.wire_index()))
}

/// What parsing a handshake packet body yields.
pub enum PingParse {
    /// Packet id 0 with all four fields present.
    Parsed(PingView),
    /// A whole packet id that is not 0.
    UnknownId,
    /// A whole next-state index that names no known state.
    UnknownState,
    /// The body ended while a field expected more bytes.
    Short,
}

/// Parse one handshake packet body; trailing bytes after the fields are ignored.
pub open spec fn parse_ping(s: Seq<u8>) -> PingParse {
    if !varint_ok(s) {
        PingParse::Short
    } else if varint_decoded(s) != 0 {
        PingParse::UnknownId
    } else {
        let s1 = s.skip(varint_size(s));
        if !varint_ok(s1) {
            PingParse::Short
        } else {
            let version = varint_decoded(s1) as i32;
            let s2 = s1.skip(varint_size(s1));
            if !varint_span_ok(s2) {
                PingParse::Short
            } else {
                let host = lossy_utf8(varint_span(s2));
                let s3 = varint_span_rest(s2);
                if s3.len() < 2 {
                    PingParse::Short
                } else {
                    let port = be2_val(s3.take(2)) as u16;
                    let s4 = s3.skip(2);
                    if !varint_ok(s4) {
                        PingParse::Short
                    } else if varint_decoded(s4) == 0 {
                        PingParse::Parsed(
                            PingView { version, host, port, next_state: ProtocolState::Handshake },
                        )
                    } else if varint_decoded(s4) == 1 {
                        PingParse::Parsed(
                            PingView { version, host, port, next_state: ProtocolState::Status },
                        )
                    } else {
                        PingParse::UnknownState
                    }
                }
            }
        }
    }
}

impl Serverbound {
    /// The wire bytes of this packet.
    pub open spec fn wire(self) -> Seq<u8> {
        ping_enc(self@)
    }

    /// Whether the host's UTF-8 byte length fits the varint prefix.
    pub open spec fn fits(self) -> bool {
        encode_utf8(self@.host).len() <= 0x7fff_ffff
    }

    /// Serialize this packet, appending its wire bytes.
    pub fn encode(&self, out: &mut Serializer) -> (r: Result<(), ser::Error>)
        ensures
            r is Ok <==> self.fits(),
            r is Ok ==> final(out).bytes() == old(out).bytes() + self.wire(),
            r is Err ==> final(out).bytes() == old(out).bytes() && r matches Err(
                ser::Error::Other,
            ),
    {
        match self {
            Serverbound::ServerListPing { version, host, port, next_state } => {
                if host.as_str().as_bytes().len() > 0x7fff_ffff {
                    return Err(ser::Error::Other);
                }
                out.write_varint(0);
                out.write_varint(*version);
                match out.write_str(host.as_str()) {
                    Ok(()) => (),
                    Err(_) => {
                        return vstd::pervasive::unreached();
                    },
                }
                out.write_u16(*port);
                out.write_varint(next_state.to_wire_index());
                proof {
                    assert(varint_enc(unsigned32(0)) =~= seq![0u8]);
                    assert(out.bytes() =~= old(out).bytes() + self.wire());
                }
                Ok(())
            },
        }
    }

    /// This packet as a raw body, ready for framing.
    pub fn into_raw(&self) -> (r: Result<RawPacket, ser::Error>)
        ensures
            r is Ok <==> self.fits(),
            r matches Ok(p) ==> p@ == self.wire(),
            r is Err ==> r matches Err(ser::Error::Other),
    {
        let ser = Serializer::new(Vec::new());
        let mut ser = ser;
        match self.encode(&mut ser) {
            Ok(()) => Ok(RawPacket(ser.into_bytes())),
            Err(e) => Err(e),
        }
    }

    /// Deserialize one handshake packet from a packet body.
    pub fn decode(data: &[u8]) -> (r: Result<Serverbound, de::Error>)
        ensures
            match r {
                Ok(p) => parse_ping(data@) == PingParse::Parsed(p@),
                Err(e) => match parse_ping(data@) {
                    PingParse::Parsed(_) => false,
                    PingParse::UnknownId => e matches de::Error::Custom(m) && m@
                        == "unknown handshake packet id"@,
                    PingParse::UnknownState => e matches de::Error::Custom(m) && m@
                        == "unknown protocol state"@,
                    PingParse::Short => e == de::Error::PacketLength,
                },
            },
    {
        let mut d = Deserializer::from_slice(data);
        let id = match d.read_varint() {
            Ok(v) => v,
            Err(e) => {
                return Err(e);
            },
        };
        if id != 0 {
            return Err(de::Error::Custom(("unknown handshake packet id").to_owned()));
        }
        let version = match d.read_varint() {
            Ok(v) => v,
            Err(e) => {
                return Err(e);
            },
        };
        let host = match d.read_string() {
            Ok(s) => s,
            Err(e) => {
                return Err(e);
            },
        };
        let port = match d.read_u16() {
            Ok(v) => v,
            Err(e) => {
                return Err(e);
            },
        };
        let st = match d.read_varint() {
            Ok(v) => v,
            Err(e) => {
                return Err(e);
            },
        };
        let next_state = if st == 0 {
            ProtocolState::Handshake
        } else if st == 1 {
            ProtocolState::Status
        } else {
            return Err(de::Error::Custom(("unknown protocol state").to_owned()));
        };
        Ok(Serverbound::ServerListPing { version, host, port, next_state })
    }
}

/// Law: a serialized server list ping parses back to exactly its fields.
#[verifier::rlimit(100)]
pub proof fn lemma_ping_round_trip(v: PingView)
    requires
        encode_utf8(v.host).len() <= 0x7fff_ffff,
    ensures
        parse_ping(ping_enc(v)) matches PingParse::Parsed(w) && w == v,
{
    let s = ping_enc(v);
    let e0 = varint_enc(0);
    let uv = unsigned32(v.version);
    let hb = encode_utf8(v.host);
    let hl = varint_enc(hb.len());
    let idx = unsigned32(v.next_state.wire_index());
    let r1 = varint_enc(uv) + string_enc(v.host) + be2(v.port as nat) + varint_enc(idx);
    let r2 = string_enc(v.host) + be2(v.port as nat) + varint_enc(idx);
    let r3 = be2(v.port as nat) + varint_enc(idx);
    let r4 = varint_enc(idx);
    assert(e0 =~= seq![0u8]);
    assert(s =~= e0 + r1);
    crate::varint::lemma_varint_enc_dec(0);
    crate::varint::lemma_varint_extend(e0, r1);
    assert(varint_decoded(s) == 0);
    let s1 = s.skip(varint_size(s));
    assert(s1 =~= r1);
    crate::varint::lemma_varint_enc_dec(uv);
    crate::varint::lemma_varint_extend(varint_enc(uv), r2);
    assert(s1 =~= varint_enc(uv) + r2);
    assert(varint_decoded(s1) == v.version);
    let s2 = s1.skip(varint_size(s1));
    assert(s2 =~= r2);
    assert(s2 =~= hl + (hb + r3));
    crate::varint::lemma_varint_enc_dec(hb.len());
    crate::varint::lemma_varint_extend(hl, hb + r3);
    assert(varint_decoded(s2) == hb.len());
    assert(varint_size(s2) == hl.len());
    assert(varint_span_ok(s2));
    assert(varint_span(s2) =~= hb);
    vstd::utf8::encode_utf8_valid_utf8(v.host);
    vstd::utf8::encode_utf8_decode_utf8(v.host);
    assert(lossy_utf8(varint_span(s2)) == v.host);
    let s3 = varint_span_rest(s2);
    assert(s3 =~= r3);
    crate::ser::lemma_be2_round(v.port as nat);
    assert(s3.take(2) =~= be2(v.port as nat));
    assert(be2_val(s3.take(2)) == v.port);
    let s4 = s3.skip(2);
    assert(s4 =~= r4);
    crate::varint::lemma_varint_enc_dec(idx);
    assert(varint_decoded(s4) == v.next_state.wire_index());
}

} // verus!
