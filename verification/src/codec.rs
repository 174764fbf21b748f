//! Length-prefixed packet framing with optional zlib compression.
//!
//! A frame is `varint(len) || payload`. With compression enabled the payload
//! carries its own envelope: a varint uncompressed length, zero meaning the
//! body follows as-is, non-zero meaning a zlib stream follows whose inflated
//! size must equal that length.

use vstd::prelude::*;
use crate::varint;
use crate::varint::{
    varint_enc, varint_ok, varint_need_more, varint_decoded, varint_size, unsigned32, VarIntScan,
};

verus! {

/// One decoded packet payload: framing and decompression already stripped.
#[derive(Debug, Clone, PartialEq)]
pub struct RawPacket(pub Vec<u8>);

impl View for RawPacket {
    type V = Seq<u8>;

    open spec fn view(&self) -> Seq<u8> {
        self.0@
    }
}

/// Errors of the frame codec.
#[derive(Debug, Clone, Copy, PartialEq, Eq, Structural)]
pub enum FrameError {
    /// A length varint is malformed, or declares a negative length.
    BadLengthVarint,
    /// A length does not fit the protocol's signed 32-bit bound.
    Oversize,
    /// The frame holds a zero-length packet body, which cannot carry a packet id.
    EmptyPacket,
    /// The compression envelope's uncompressed length disagrees with the body.
    BadDataLength,
    /// The zlib stream failed to inflate.
    Inflate,
}

/// What `flate2`'s zlib compression at the default level produces for the
/// given input; a pure function of the input bytes.
pub uninterp spec fn deflate_of(b: Seq<u8>) -> Seq<u8>;

/// What zlib decompression yields on the given input: `None` when the input
/// is not a well-formed zlib stream; a pure function of the input bytes.
pub uninterp spec fn inflate_of(b: Seq<u8>) -> Option<Seq<u8>>;

/// Relies on flate2::write::ZlibEncoder (zlib format, default level):
/// compressing is deterministic in the input, and inflating the result
/// gives the input back.
#[verifier::external_body]
fn zlib_compress(data: &[u8]) -> (r: Vec<u8>)
    ensures
        r@ == deflate_of(data@),
        inflate_of(r@) == Some(data@),
{
    let mut e = flate2::write::ZlibEncoder::new(Vec::new(), flate2::Compression::default());
    std::io::Write::write_all(&mut e, data).unwrap();
    e.finish().unwrap()
}

/// Relies on flate2::read::ZlibDecoder: inflating is deterministic in the
/// input, and fails exactly on inputs that are not well-formed zlib streams.
#[verifier::external_body]
fn zlib_decompress(data: &[u8]) -> (r: Option<Vec<u8>>)
    ensures
        match r {
            Some(v) => inflate_of(data@) == Some(v@),
            None => inflate_of(data@) is None,
        },
{
    let mut out = Vec::new();
    let mut d = flate2::read::ZlibDecoder::new(data);
    match std::io::Read::read_to_end(&mut d, &mut out) {
        Ok(_) => Some(out),
        Err(_) => None,
    }
}

/// Whether a body of length `len` is sent through zlib under threshold `t`.
pub open spec fn compresses(t: i32, len: nat) -> bool {
    t <= 0 || len >= t
}

/// The wire bytes of one frame without compression.
pub open spec fn frame_uncompressed(body: Seq<u8>) -> Seq<u8> {
    varint_enc(body.len()) + body
}

/// The wire bytes of one frame below the compression threshold:
/// a sentinel zero uncompressed-length, then the body as-is.
pub open spec fn frame_stored(body: Seq<u8>) -> Seq<u8> {
    varint_enc(body.len() + 1) + seq![0u8] + body
}

/// The wire bytes of one frame at or above the compression threshold.
pub open spec fn frame_compressed(body: Seq<u8>) -> Seq<u8> {
    varint_enc(varint_enc(body.len()).len() + deflate_of(body).len()) + varint_enc(body.len())
        + deflate_of(body)
}

/// The wire bytes of one frame carrying `body` under the given compression setting.
pub open spec fn frame_enc(comp: Option<i32>, body: Seq<u8>) -> Seq<u8> {
    match comp {
        None => frame_uncompressed(body),
        Some(t) => if compresses(t, body.len()) {
            frame_compressed(body)
        } else {
            frame_stored(body)
        },
    }
}

/// Whether every length written while framing `body` fits the signed 32-bit bound.
pub open spec fn frame_fits(comp: Option<i32>, body: Seq<u8>) -> bool {
    match comp {
        None => body.len() <= 0x7fff_ffff,
        Some(t) => if compresses(t, body.len()) {
            body.len() <= 0x7fff_ffff && varint_enc(body.len()).len() + deflate_of(body).len()
                <= 0x7fff_ffff
        } else {
            body.len() + 1 <= 0x7fff_ffff
        },
    }
}

/// Undoing the compression envelope at the head of a frame payload:
/// the packet body, or the error, that the payload denotes.
pub open spec fn envelope_result(payload: Seq<u8>) -> Result<Seq<u8>, FrameError> {
    if !varint_ok(payload) {
        Err(FrameError::BadLengthVarint)
    } else {
        let u = varint_decoded(payload);
        let m = varint_size(payload);
        if u < 0 {
            Err(FrameError::BadDataLength)
        } else if u == 0 {
            if payload.len() <= m {
                Err(FrameError::EmptyPacket)
            } else {
                Ok(payload.skip(m))
            }
        } else {
            match inflate_of(payload.skip(m)) {
                None => Err(FrameError::Inflate),
                Some(b) => if b.len() == u {
                    Ok(b)
                } else {
                    Err(FrameError::BadDataLength)
                },
            }
        }
    }
}

/// What one decode step on buffer `s` returns: a packet body, nothing yet,
/// or an error.
pub open spec fn decode_result(comp: bool, s: Seq<u8>) -> Result<Option<Seq<u8>>, FrameError> {
    if varint_need_more(s) {
        Ok(None)
    } else if !varint_ok(s) {
        Err(FrameError::BadLengthVarint)
    } else {
        let l = varint_decoded(s);
        let n = varint_size(s);
        if l < 0 {
            Err(FrameError::BadLengthVarint)
        } else if s.len() < n + l {
            Ok(None)
        } else {
            let payload = s.subrange(n, n + l);
            if !comp {
                if l == 0 {
                    Err(FrameError::EmptyPacket)
                } else {
                    Ok(Some(payload))
                }
            } else {
                match envelope_result(payload) {
                    Ok(b) => Ok(Some(b)),
                    Err(e) => Err(e),
                }
            }
        }
    }
}

/// What one decode step leaves in the buffer: the frame's span is removed
/// exactly when it is wholly present, whether or not it decodes.
pub open spec fn decode_rest(s: Seq<u8>) -> Seq<u8> {
    if varint_ok(s) && varint_decoded(s) >= 0 && s.len() >= varint_size(s) + varint_decoded(s) {
        s.skip(varint_size(s) + varint_decoded(s))
    } else {
        s
    }
}

/// The frame codec: one scalar of state, the optional compression threshold.
pub struct Codec {
    compression: Option<i32>,
}

impl Codec {
    /// The compression threshold, if compression has been enabled.
    pub closed spec fn threshold(self) -> Option<i32> {
        self.compression
    }

    /// A codec with compression disabled.
    pub fn new() -> (c: Codec)
        ensures
            c.threshold() is None,
    {
        Codec { compression: None }
    }

    /// Enables compression with the given threshold. The threshold is set at
    /// most once per direction; re-setting it mid-stream is not supported.
    pub fn set_compression(&mut self, limit: i32)
        ensures
            final(self).threshold() == Some(limit),
    {
        self.compression = Some(limit);
    }

    /// One decode step: remove one whole frame from the front of `src` and
    /// return its packet body, or return `None` when more bytes are needed.
    pub fn decode(&mut self, src: &mut Vec<u8>) -> (r: Result<Option<RawPacket>, FrameError>)
        ensures
            *final(self) == *old(self),
            final(src)@ == decode_rest(old(src)@),
            ({
                let expect = decode_result(old(self).threshold() is Some, old(src)@);
                match r {
                    Ok(Some(p)) => expect == Ok::<Option<Seq<u8>>, FrameError>(Some(p@)),
                    Ok(None) => expect == Ok::<Option<Seq<u8>>, FrameError>(None),
                    Err(e) => expect == Err::<Option<Seq<u8>>, FrameError>(e),
                }
            }),
    {
        let ghost s = src@;
        let (l, n) = match varint::read_prefix(src.as_slice()) {
            VarIntScan::NeedMore => {
                return Ok(None);
            },
            VarIntScan::Malformed => {
                return Err(FrameError::BadLengthVarint);
            },
            VarIntScan::Done(l, n) => (l, n),
        };
        if l < 0 {
            return Err(FrameError::BadLengthVarint);
        }
        let l = l as usize;
        proof {
            varint::lemma_first_term_props(s);
        }
        if src.len() - n < l {
            return Ok(None);
        }
        let payload = vstd::slice::slice_to_vec(vstd::slice::slice_subrange(
            src.as_slice(),
            n,
            n + l,
        ));
        let rest = vstd::slice::slice_to_vec(vstd::slice::slice_subrange(
            src.as_slice(),
            n + l,
            src.len(),
        ));
        *src = rest;
        proof {
            assert(payload@ =~= s.subrange(n as int, n as int + l as int));
            assert(src@ =~= s.skip(n as int + l as int));
        }
        let compressing = match self.compression {
            Some(_) => true,
            None => false,
        };
        if !compressing {
            if l == 0 {
                return Err(FrameError::EmptyPacket);
            }
            return Ok(Some(RawPacket(payload)));
        }
        let (u, m) = match varint::read_prefix(payload.as_slice()) {
            VarIntScan::Done(u, m) => (u, m),
            VarIntScan::NeedMore => {
                return Err(FrameError::BadLengthVarint);
            },
            VarIntScan::Malformed => {
                return Err(FrameError::BadLengthVarint);
            },
        };
        proof {
            varint::lemma_first_term_props(payload@);
        }
        if u < 0 {
            return Err(FrameError::BadDataLength);
        }
        if u == 0 {
            let body = vstd::slice::slice_to_vec(vstd::slice::slice_subrange(
                payload.as_slice(),
                m,
                payload.len(),
            ));
            proof {
                assert(body@ =~= payload@.skip(m as int));
            }
            if body.len() == 0 {
                return Err(FrameError::EmptyPacket);
            }
            return Ok(Some(RawPacket(body)));
        }
        let z = vstd::slice::slice_subrange(payload.as_slice(), m, payload.len());
        proof {
            assert(z@ =~= payload@.skip(m as int));
        }
        match zlib_decompress(z) {
            None => Err(FrameError::Inflate),
            Some(out) => {
                if out.len() == u as usize {
                    Ok(Some(RawPacket(out)))
                } else {
                    Err(FrameError::BadDataLength)
                }
            },
        }
    }

    /// One encode step: append the frame carrying `item` to `buf`, or report
    /// that a length overflows the protocol's 32-bit bound, leaving `buf` put.
    pub fn encode(&mut self, item: RawPacket, buf: &mut Vec<u8>) -> (r: Result<(), FrameError>)
        ensures
            *final(self) == *old(self),
            match r {
                Ok(()) => frame_fits(old(self).threshold(), item@) && final(buf)@ == old(buf)@
                    + frame_enc(old(self).threshold(), item@),
                Err(e) => e == FrameError::Oversize && !frame_fits(old(self).threshold(), item@)
                    && final(buf)@ == old(buf)@,
            },
    {
        let ghost b = item@;
        let mut body = item.0;
        let blen = body.len();
        match self.compression {
            None => {
                if blen > 0x7fff_ffff {
                    return Err(FrameError::Oversize);
                }
                let mut len_bytes = varint::encode(blen as i32);
                proof {
                    assert(unsigned32(blen as i32) == b.len());
                }
                buf.append(&mut len_bytes);
                buf.append(&mut body);
                proof {
                    assert(buf@ =~= old(buf)@ + frame_uncompressed(b));
                }
                Ok(())
            },
            Some(t) => {
                let compress_it = t <= 0 || blen >= t as usize;
                if compress_it {
                    if blen > 0x7fff_ffff {
                        return Err(FrameError::Oversize);
                    }
                    let mut z = zlib_compress(body.as_slice());
                    let mut ulen = varint::encode(blen as i32);
                    proof {
                        assert(unsigned32(blen as i32) == b.len());
                        varint::lemma_varint_enc_len(b.len());
                    }
                    if z.len() > 0x7fff_ffff - ulen.len() {
                        return Err(FrameError::Oversize);
                    }
                    let total = ulen.len() + z.len();
                    let mut total_bytes = varint::encode(total as i32);
                    proof {
                        assert(unsigned32(total as i32) == varint_enc(b.len()).len()
                            + deflate_of(b).len());
                    }
                    buf.append(&mut total_bytes);
                    buf.append(&mut ulen);
                    buf.append(&mut z);
                    proof {
                        assert(buf@ =~= old(buf)@ + frame_compressed(b));
                    }
                    Ok(())
                } else {
                    if blen > 0x7fff_fffe {
                        return Err(FrameError::Oversize);
                    }
                    let mut len_bytes = varint::encode((blen + 1) as i32);
                    proof {
                        assert(unsigned32((blen + 1) as i32) == b.len() + 1);
                    }
                    buf.append(&mut len_bytes);
                    buf.push(0u8);
                    buf.append(&mut body);
                    proof {
                        assert(buf@ =~= old(buf)@ + frame_stored(b));
                    }
                    Ok(())
                }
            },
        }
    }
}

/// A buffer holding one whole length-prefixed span decodes it and keeps the rest.
proof fn lemma_outer_header(l: nat, tail: Seq<u8>, rest: Seq<u8>)
    requires
        l <= 0x7fff_ffff,
        tail.len() == l,
    ensures
        ({
            let s = (varint_enc(l) + tail) + rest;
            &&& varint_ok(s)
            &&& !varint_need_more(s)
            &&& varint_decoded(s) == l
            &&& varint_size(s) == varint_enc(l).len()
            &&& s.len() >= varint_size(s) + l
            &&& s.subrange(varint_size(s), varint_size(s) + l) =~= tail
            &&& s.skip(varint_size(s) + l) =~= rest
        }),
{
    let e = varint_enc(l);
    varint::lemma_varint_enc_dec(l);
    varint::lemma_varint_extend(e, tail + rest);
    assert((e + tail) + rest =~= e + (tail + rest));
    varint::lemma_first_term_props((e + tail) + rest);
}

/// Law: a frame decodes back to the body it was encoded from, consuming
/// exactly the frame, for both compression settings. The zlib hypothesis is
/// discharged at every call of [`Codec::encode`] by [`zlib_compress`].
pub proof fn lemma_frame_round_trip(comp: Option<i32>, body: Seq<u8>, rest: Seq<u8>)
    requires
        body.len() > 0,
        frame_fits(comp, body),
    ensures
        decode_rest(frame_enc(comp, body) + rest) == rest,
        inflate_of(deflate_of(body)) == Some(body) ==> decode_result(
            comp is Some,
            frame_enc(comp, body) + rest,
        ) == Ok::<Option<Seq<u8>>, FrameError>(Some(body)),
{
    match comp {
        None => {
            let l = body.len();
            lemma_outer_header(l, body, rest);
            assert(frame_enc(comp, body) + rest =~= (varint_enc(l) + body) + rest);
        },
        Some(t) => {
            if compresses(t, body.len()) {
                let z = deflate_of(body);
                let ul = varint_enc(body.len());
                let payload = ul + z;
                let l = payload.len();
                lemma_outer_header(l, payload, rest);
                assert(frame_enc(comp, body) + rest =~= (varint_enc(l) + payload) + rest);
                varint::lemma_varint_enc_dec(body.len());
                varint::lemma_varint_extend(ul, z);
                assert(varint_decoded(payload) == body.len());
                assert(varint_size(payload) == ul.len());
                assert(payload.skip(ul.len() as int) =~= z);
            } else {
                let inner = seq![0u8] + body;
                let l = inner.len();
                lemma_outer_header(l, inner, rest);
                assert(frame_enc(comp, body) + rest =~= (varint_enc(l) + inner) + rest);
                assert(inner[0] == 0u8);
                assert(crate::varint::first_term(inner) == 0);
                reveal_with_fuel(crate::varint::varint_value, 3);
                assert(crate::varint::varint_value(inner, 1) == 0) by {
                    assert(inner.drop_first() =~= body);
                }
                assert(inner.skip(1) =~= body);
            }
        },
    }
}

/// Law: fed any strict prefix of a frame, the decoder reports that it needs
/// more data and consumes nothing.
pub proof fn lemma_frame_prefix(comp: Option<i32>, body: Seq<u8>, k: int)
    requires
        frame_fits(comp, body),
        0 <= k < frame_enc(comp, body).len(),
    ensures
        decode_result(comp is Some, frame_enc(comp, body).take(k)) == Ok::<
            Option<Seq<u8>>,
            FrameError,
        >(None),
        decode_rest(frame_enc(comp, body).take(k)) == frame_enc(comp, body).take(k),
{
    let (l, tail) = match comp {
        None => (body.len(), body),
        Some(t) => if compresses(t, body.len()) {
            (
                (varint_enc(body.len()) + deflate_of(body)).len(),
                varint_enc(body.len()) + deflate_of(body),
            )
        } else {
            ((seq![0u8] + body).len(), seq![0u8] + body)
        },
    };
    varint::lemma_varint_enc_len(body.len());
    let e = varint_enc(l);
    let s = frame_enc(comp, body);
    assert(s =~= e + tail);
    lemma_outer_header(l, tail, Seq::<u8>::empty());
    assert((e + tail) + Seq::<u8>::empty() =~= s);
    let p = s.take(k);
    if k < e.len() {
        varint::lemma_varint_prefix(s, k);
        assert(varint_need_more(p));
        varint::lemma_first_term_props(p);
    } else {
        assert(p =~= e + tail.take(k - e.len()));
        varint::lemma_varint_enc_dec(l);
        varint::lemma_varint_extend(e, tail.take(k - e.len()));
        varint::lemma_first_term_props(p);
        assert(varint_decoded(p) == l);
        assert(p.len() < varint_size(p) + l);
    }
}

/// Law: two frames concatenated in one buffer decode to exactly their two
/// bodies, in order, and empty the buffer.
pub proof fn lemma_frame_pair(comp: Option<i32>, b1: Seq<u8>, b2: Seq<u8>)
    requires
        b1.len() > 0,
        b2.len() > 0,
        frame_fits(comp, b1),
        frame_fits(comp, b2),
    ensures
        decode_rest(frame_enc(comp, b1) + frame_enc(comp, b2)) == frame_enc(comp, b2),
        decode_rest(frame_enc(comp, b2)) == Seq::<u8>::empty(),
        inflate_of(deflate_of(b1)) == Some(b1) ==> decode_result(
            comp is Some,
            frame_enc(comp, b1) + frame_enc(comp, b2),
        ) == Ok::<Option<Seq<u8>>, FrameError>(Some(b1)),
        inflate_of(deflate_of(b2)) == Some(b2) ==> decode_result(comp is Some, frame_enc(comp, b2))
            == Ok::<Option<Seq<u8>>, FrameError>(Some(b2)),
{
    lemma_frame_round_trip(comp, b1, frame_enc(comp, b2));
    lemma_frame_round_trip(comp, b2, Seq::<u8>::empty());
    assert(frame_enc(comp, b2) + Seq::<u8>::empty() =~= frame_enc(comp, b2));
}

} // verus!
