//! The status schema: the server list response and the ping/pong exchange.

use vstd::prelude::*;
use vstd::utf8::encode_utf8;
use crate::de;
use crate::de::{Deserializer, lossy_utf8, varint_span, varint_span_ok, varint_span_rest};
use crate::ser;
use crate::ser::{Serializer, be8, be8_val, string_enc};
use crate::varint::{varint_enc, varint_ok, varint_decoded, varint_size, unsigned32};
use crate::codec::RawPacket;

verus! {

/// Serverbound status packets: a bare request (id 0) or a ping (id 1).
#[derive(Debug, Clone, Copy, PartialEq, Eq, Structural)]
pub enum Serverbound {
    Request,
    Ping(u64),
}

/// Clientbound status packets: the JSON response (id 0) or the pong echo (id 1).
#[derive(Debug, Clone, PartialEq)]
pub enum Clientbound {
    ServerListResp { data: String },
    Pong(u64),
}

/// The mathematical content of a [`Clientbound`] packet.
pub enum CbView {
    ServerListResp(Seq<char>),
    Pong(u64),
}

impl View for Clientbound {
    type V = CbView;

    open spec fn view(&self) -> CbView {
        match self {
            Clientbound::ServerListResp { data } => CbView::ServerListResp(data@),
            Clientbound::Pong(t) => CbView::Pong(*t),
        }
    }
}

/// The wire bytes of a serverbound status packet: its id, then its fields.
pub open spec fn sb_enc(p: Serverbound) -> Seq<u8> {
    match p {
        Serverbound::Request => seq![0u8],
        Serverbound::Ping(t) => seq![1u8] + be8(t as nat),
    }
}

/// The wire bytes of a clientbound status packet: its id, then its fields.
pub open spec fn cb_enc(v: CbView) -> Seq<u8> {
    match v {
        CbView::ServerListResp(d) => seq![0u8] + string_enc(d),
        CbView::Pong(t) => seq![1u8] + be8(t as nat),
    }
}

/// What parsing a serverbound status packet body yields.
pub enum SbParse {
    Parsed(Serverbound),
    UnknownId,
    Short,
}

/// What parsing a clientbound status packet body yields.
pub enum CbParse {
    Parsed(CbView),
    UnknownId,
    Short,
}

/// Parse one serverbound status body; trailing bytes after the fields are ignored.
pub open spec fn parse_sb(s: Seq<u8>) -> SbParse {
    if !varint_ok(s) {
        SbParse::Short
    } else if varint_decoded(s) == 0 {
        SbParse::Parsed(Serverbound::Request)
    } else if varint_decoded(s) == 1 {
        let s1 = s.skip(varint_size(s));
        if s1.len() < 8 {
            SbParse::Short
        } else {
            SbParse::Parsed(Serverbound::Ping(be8_val(s1.take(8)) as u64))
        }
    } else {
        SbParse::UnknownId
    }
}

/// Parse one clientbound status body; trailing bytes after the fields are ignored.
pub open spec fn parse_cb(s: Seq<u8>) -> CbParse {
    if !varint_ok(s) {
        CbParse::Short
    } else if varint_decoded(s) == 0 {
        let s1 = s.skip(varint_size(s));
        if !varint_span_ok(s1) {
            CbParse::Short
        } else {
            CbParse::Parsed(CbView::ServerListResp(lossy_utf8(varint_span(s1))))
        }
    } else if varint_decoded(s) == 1 {
        let s1 = s.skip(varint_size(s));
        if s1.len() < 8 {
            CbParse::Short
        } else {
            CbParse::Parsed(CbView::Pong(be8_val(s1.take(8)) as u64))
        }
    } else {
        CbParse::UnknownId
    }
}

impl Serverbound {
    /// The wire bytes of this packet.
    pub open spec fn wire(self) -> Seq<u8> {
        sb_enc(self)
    }

    /// Serialize this packet, appending its wire bytes.
    pub fn encode(&self, out: &mut Serializer)
        ensures
            final(out).bytes() == old(out).bytes() + self.wire(),
    {
        match self {
            Serverbound::Request => {
                out.write_varint(0);
                proof {
                    assert(varint_enc(unsigned32(0)) =~= seq![0u8]);
                    assert(out.bytes() =~= old(out).bytes() + self.wire());
                }
            },
            Serverbound::Ping(t) => {
                out.write_varint(1);
                out.write_u64(*t);
                proof {
                    assert(varint_enc(unsigned32(1)) =~= seq![1u8]);
                    assert(out.bytes() =~= old(out).bytes() + self.wire());
                }
            },
        }
    }

    /// This packet as a raw body, ready for framing.
    pub fn into_raw(&self) -> (r: RawPacket)
        ensures
            r@ == self.wire(),
    {
        let mut ser = Serializer::new(Vec::new());
        self.encode(&mut ser);
        RawPacket(ser.into_bytes())
    }

    /// Deserialize one serverbound status packet from a packet body.
    pub fn decode(data: &[u8]) -> (r: Result<Serverbound, de::Error>)
        ensures
            match r {
                Ok(p) => parse_sb(data@) == SbParse::Parsed(p),
                Err(e) => match parse_sb(data@) {
                    SbParse::Parsed(_) => false,
                    SbParse::UnknownId => e matches de::Error::Custom(m) && m@
                        == "unknown status packet id"@,
                    SbParse::Short => e == de::Error::PacketLength,
                },
            },
    {
        let mut d = Deserializer::from_slice(data);
        let id = match d.read_varint() {
            Ok(v) => v,
            Err(e) => {
                return Err(e);
            },
        };
        if id == 0 {
            Ok(Serverbound::Request)
        } else if id == 1 {
            match d.read_u64() {
                Ok(t) => Ok(Serverbound::Ping(t)),
                Err(e) => Err(e),
            }
        } else {
            Err(de::Error::Custom(("unknown status packet id").to_owned()))
        }
    }
}

impl Clientbound {
    /// The wire bytes of this packet.
    pub open spec fn wire(self) -> Seq<u8> {
        cb_enc(self@)
    }

    /// Whether a response's UTF-8 byte length fits the varint prefix.
    pub open spec fn fits(self) -> bool {
        match self@ {
            CbView::ServerListResp(d) => encode_utf8(d).len() <= 0x7fff_ffff,
            CbView::Pong(_) => true,
        }
    }

    /// Serialize this packet, appending its wire bytes.
    pub fn encode(&self, out: &mut Serializer) -> (r: Result<(), ser::Error>)
        ensures
            r is Ok <==> self.fits(),
            r is Ok ==> final(out).bytes() == old(out).bytes() + self.wire(),
            r is Err ==> final(out).bytes() == old(out).bytes() && r matches Err(
                ser::Error::Other,
            ),
    {
        match self {
            Clientbound::ServerListResp { data } => {
                if data.as_str().as_bytes().len() > 0x7fff_ffff {
                    return Err(ser::Error::Other);
                }
                out.write_varint(0);
                match out.write_str(data.as_str()) {
                    Ok(()) => (),
                    Err(_) => {
                        return vstd::pervasive::unreached();
                    },
                }
                proof {
                    assert(varint_enc(unsigned32(0)) =~= seq![0u8]);
                    assert(out.bytes() =~= old(out).bytes() + self.wire());
                }
                Ok(())
            },
            Clientbound::Pong(t) => {
                out.write_varint(1);
                out.write_u64(*t);
                proof {
                    assert(varint_enc(unsigned32(1)) =~= seq![1u8]);
                    assert(out.bytes() =~= old(out).bytes() + self.wire());
                }
                Ok(())
            },
        }
    }

    /// This packet as a raw body, ready for framing.
    pub fn into_raw(&self) -> (r: Result<RawPacket, ser::Error>)
        ensures
            r is Ok <==> self.fits(),
            r matches Ok(p) ==> p@ == self.wire(),
            r is Err ==> r matches Err(ser::Error::Other),
    {
        let mut ser = Serializer::new(Vec::new());
        match self.encode(&mut ser) {
            Ok(()) => Ok(RawPacket(ser.into_bytes())),
            Err(e) => Err(e),
        }
    }

    /// Deserialize one clientbound status packet from a packet body.
    pub fn decode(data: &[u8]) -> (r: Result<Clientbound, de::Error>)
        ensures
            match r {
                Ok(p) => parse_cb(data@) == CbParse::Parsed(p@),
                Err(e) => match parse_cb(data@) {
                    CbParse::Parsed(_) => false,
                    CbParse::UnknownId => e matches de::Error::Custom(m) && m@
                        == "unknown status packet id"@,
                    CbParse::Short => e == de::Error::PacketLength,
                },
            },
    {
        let mut d = Deserializer::from_slice(data);
        let id = match d.read_varint() {
            Ok(v) => v,
            Err(e) => {
                return Err(e);
            },
        };
        if id == 0 {
            match d.read_string() {
                Ok(s) => Ok(Clientbound::ServerListResp { data: s }),
                Err(e) => Err(e),
            }
        } else if id == 1 {
            match d.read_u64() {
                Ok(t) => Ok(Clientbound::Pong(t)),
                Err(e) => Err(e),
            }
        } else {
            Err(de::Error::Custom(("unknown status packet id").to_owned()))
        }
    }
}

/// Law: a serialized serverbound status packet parses back to itself.
pub proof fn lemma_status_sb_round_trip(p: Serverbound)
    ensures
        parse_sb(sb_enc(p)) == SbParse::Parsed(p),
{
    match p {
        Serverbound::Request => {
            crate::varint::lemma_varint_enc_dec(0);
            assert(varint_enc(0) =~= seq![0u8]);
            assert(sb_enc(p) =~= varint_enc(0));
        },
        Serverbound::Ping(t) => {
            crate::varint::lemma_varint_enc_dec(1);
            assert(varint_enc(1) =~= seq![1u8]);
            let tail = be8(t as nat);
            crate::ser::lemma_be8_round(t as nat);
            crate::varint::lemma_varint_extend(varint_enc(1), tail);
            let s = sb_enc(p);
            assert(s =~= varint_enc(1) + tail);
            let s1 = s.skip(varint_size(s));
            assert(s1 =~= tail);
            assert(s1.take(8) =~= tail);
        },
    }
}

/// Law: a serialized clientbound status packet parses back to exactly its content.
pub proof fn lemma_status_cb_round_trip(v: CbView)
    requires
        v matches CbView::ServerListResp(d) ==> encode_utf8(d).len() <= 0x7fff_ffff,
    ensures
        parse_cb(cb_enc(v)) matches CbParse::Parsed(w) && w == v,
{
    match v {
        CbView::ServerListResp(d) => {
            crate::varint::lemma_varint_enc_dec(0);
            assert(varint_enc(0) =~= seq![0u8]);
            let hb = encode_utf8(d);
            let hl = varint_enc(hb.len());
            let tail = string_enc(d);
            crate::varint::lemma_varint_extend(varint_enc(0), tail);
            let s = cb_enc(v);
            assert(s =~= varint_enc(0) + tail);
            let s1 = s.skip(varint_size(s));
            assert(s1 =~= tail);
            assert(s1 =~= hl + hb);
            crate::varint::lemma_varint_enc_dec(hb.len());
            crate::varint::lemma_varint_extend(hl, hb);
            assert(varint_decoded(s1) == hb.len());
            assert(varint_size(s1) == hl.len());
            assert(varint_span_ok(s1));
            assert(varint_span(s1) =~= hb);
            vstd::utf8::encode_utf8_valid_utf8(d);
            vstd::utf8::encode_utf8_decode_utf8(d);
            assert(lossy_utf8(varint_span(s1)) == d);
        },
        CbView::Pong(t) => {
            crate::varint::lemma_varint_enc_dec(1);
            assert(varint_enc(1) =~= seq![1u8]);
            let tail = be8(t as nat);
            crate::ser::lemma_be8_round(t as nat);
            crate::varint::lemma_varint_extend(varint_enc(1), tail);
            let s = cb_enc(v);
            assert(s =~= varint_enc(1) + tail);
            let s1 = s.skip(varint_size(s));
            assert(s1 =~= tail);
            assert(s1.take(8) =~= tail);
        },
    }
}

} // verus!
