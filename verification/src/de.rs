//! The schema deserializer: primitive field decoders over an in-memory
//! packet body, read in the packet's declared field order.
//!
//! A read that fails consumes nothing. Short input surfaces as
//! [`Error::PacketLength`]; a bool or presence byte outside {0, 1} as
//! [`Error::Other`]. Strings tolerate invalid UTF-8 by substituting the
//! replacement character.

use vstd::prelude::*;
use vstd::utf8::{valid_utf8, decode_utf8};
use crate::varint;
use crate::varint::{varint_ok, varint_decoded, varint_size, VarIntScan};
use crate::ser::{be2_val, be4_val, be8_val, unsigned8, unsigned16, unsigned64};
use crate::varint::unsigned32;

verus! {

/// Errors of the schema deserializer.
#[derive(Debug, PartialEq)]
pub enum Error {
    /// A shape the schema cannot describe.
    Any,
    /// The packet ended while a field expected more bytes, or a length
    /// prefix was malformed.
    PacketLength,
    /// A bool or presence byte outside {0, 1}.
    Other,
    /// A decode error with its own message, such as an unknown variant index.
    Custom(String),
}

/// What `String::from_utf8_lossy` yields: valid UTF-8 decodes to exactly its
/// characters; anything else is repaired, deterministically in the bytes.
pub open spec fn lossy_utf8(b: Seq<u8>) -> Seq<char> {
    if valid_utf8(b) {
        decode_utf8(b)
    } else {
        lossy_repair(b)
    }
}

/// What `String::from_utf8_lossy` makes of bytes that are not valid UTF-8:
/// each invalid sequence replaced by U+FFFD; a pure function of the bytes.
pub uninterp spec fn lossy_repair(b: Seq<u8>) -> Seq<char>;

/// Relies on String::from_utf8_lossy: on valid UTF-8 it returns exactly the
/// decoded characters, and its result depends on the input bytes alone.
#[verifier::external_body]
fn lossy_string(bytes: &[u8]) -> (r: String)
    ensures
        r@ == lossy_utf8(bytes@),
        !valid_utf8(bytes@) ==> r@ == lossy_repair(bytes@),
{
    String::from_utf8_lossy(bytes).to_string()
}

/// `s` opens with a varint length that is non-negative and covered by `s`.
pub open spec fn varint_span_ok(s: Seq<u8>) -> bool {
    varint_ok(s) && varint_decoded(s) >= 0 && s.len() >= varint_size(s) + varint_decoded(s)
}

/// The bytes the varint length prefix of `s` covers.
pub open spec fn varint_span(s: Seq<u8>) -> Seq<u8> {
    s.subrange(varint_size(s), varint_size(s) + varint_decoded(s))
}

/// What follows the span the varint length prefix of `s` covers.
pub open spec fn varint_span_rest(s: Seq<u8>) -> Seq<u8> {
    s.skip(varint_size(s) + varint_decoded(s))
}

/// The schema deserializer: a cursor over one packet body.
pub struct Deserializer<'a> {
    data: &'a [u8],
    pos: usize,
}

impl<'a> Deserializer<'a> {
    /// The cursor sits inside the data.
    pub closed spec fn wf(self) -> bool {
        self.pos <= self.data@.len()
    }

    /// The bytes not yet consumed.
    pub closed spec fn remaining(self) -> Seq<u8> {
        self.data@.skip(self.pos as int)
    }

    /// A deserializer over the whole of `data`.
    pub fn from_slice(data: &'a [u8]) -> (d: Deserializer<'a>)
        ensures
            d.wf(),
            d.remaining() == data@,
    {
        let d = Deserializer { data, pos: 0 };
        proof {
            assert(d.remaining() =~= data@);
        }
        d
    }

    /// The not-yet-consumed bytes as a slice.
    fn rest_slice(&self) -> (r: &'a [u8])
        requires
            self.wf(),
        ensures
            r@ == self.remaining(),
    {
        vstd::slice::slice_subrange(self.data, self.pos, self.data.len())
    }

    /// Consume `n` bytes.
    fn advance(&mut self, n: usize)
        requires
            old(self).wf(),
            n <= old(self).remaining().len(),
        ensures
            final(self).wf(),
            final(self).remaining() == old(self).remaining().skip(n as int),
    {
        let cap = self.data.len();
        proof {
            assert(old(self).remaining().len() == cap - self.pos);
        }
        self.pos = self.pos + n;
        proof {
            assert(self.remaining() =~= old(self).remaining().skip(n as int));
        }
    }

    pub fn read_u8(&mut self) -> (r: Result<u8, Error>)
        requires
            old(self).wf(),
        ensures
            final(self).wf(),
            match r {
                Ok(v) => old(self).remaining().len() >= 1 && v == old(self).remaining()[0] && final(self).remaining() == old(self).remaining().skip(1),
                Err(e) => old(self).remaining().len() == 0 && e == Error::PacketLength && *final(self) == *old(self),
            },
    {
        if self.pos < self.data.len() {
            let b = *vstd::slice::slice_index_get(self.data, self.pos);
            self.advance(1);
            Ok(b)
        } else {
            Err(Error::PacketLength)
        }
    }

    pub fn read_i8(&mut self) -> (r: Result<i8, Error>)
        requires
            old(self).wf(),
        ensures
            final(self).wf(),
            match r {
                Ok(v) => old(self).remaining().len() >= 1 && unsigned8(v) == old(self).remaining()[0] && final(self).remaining() == old(self).remaining().skip(1),
                Err(e) => old(self).remaining().len() == 0 && e == Error::PacketLength && *final(self) == *old(self),
            },
    {
        let u = match self.read_u8() {
            Ok(u) => u,
            Err(e) => {
                return Err(e);
            },
        };
        if u < 0x80 {
            Ok(u as i8)
        } else {
            Ok(((u as i16) - 0x100) as i8)
        }
    }

    /// A bool field, and equally an option field's presence flag; any byte
    /// outside {0, 1} is a hard decode error.
    pub fn read_bool(&mut self) -> (r: Result<bool, Error>)
        requires
            old(self).wf(),
        ensures
            final(self).wf(),
            match r {
                Ok(v) => old(self).remaining().len() >= 1 && old(self).remaining()[0] <= 1 && v == (
                old(self).remaining()[0] == 1) && final(self).remaining() == old(self).remaining().skip(1),
                Err(e) => *final(self) == *old(self) && (if old(self).remaining().len() == 0 {
                    e == Error::PacketLength
                } else {
                    old(self).remaining()[0] >= 2 && e == Error::Other
                }),
            },
    {
        if self.pos < self.data.len() {
            let b = *vstd::slice::slice_index_get(self.data, self.pos);
            if b == 0 {
                self.advance(1);
                Ok(false)
            } else if b == 1 {
                self.advance(1);
                Ok(true)
            } else {
                Err(Error::Other)
            }
        } else {
            Err(Error::PacketLength)
        }
    }

    pub fn read_u16(&mut self) -> (r: Result<u16, Error>)
        requires
            old(self).wf(),
        ensures
            final(self).wf(),
            match r {
                Ok(v) => old(self).remaining().len() >= 2 && v as nat == be2_val(
                    old(self).remaining().take(2),
                ) && final(self).remaining() == old(self).remaining().skip(2),
                Err(e) => old(self).remaining().len() < 2 && e == Error::PacketLength && *final(self) == *old(self),
            },
    {
        if self.data.len() - self.pos >= 2 {
            let b0 = *vstd::slice::slice_index_get(self.data, self.pos);
            let b1 = *vstd::slice::slice_index_get(self.data, self.pos + 1);
            self.advance(2);
            Ok((b0 as u16) * 0x100 + (b1 as u16))
        } else {
            Err(Error::PacketLength)
        }
    }

    pub fn read_i16(&mut self) -> (r: Result<i16, Error>)
        requires
            old(self).wf(),
        ensures
            final(self).wf(),
            match r {
                Ok(v) => old(self).remaining().len() >= 2 && unsigned16(v) == be2_val(
                    old(self).remaining().take(2),
                ) && final(self).remaining() == old(self).remaining().skip(2),
                Err(e) => old(self).remaining().len() < 2 && e == Error::PacketLength && *final(self) == *old(self),
            },
    {
        let u = match self.read_u16() {
            Ok(u) => u,
            Err(e) => {
                return Err(e);
            },
        };
        if u < 0x8000 {
            Ok(u as i16)
        } else {
            Ok(((u as i32) - 0x1_0000) as i16)
        }
    }

    pub fn read_u32(&mut self) -> (r: Result<u32, Error>)
        requires
            old(self).wf(),
        ensures
            final(self).wf(),
            match r {
                Ok(v) => old(self).remaining().len() >= 4 && v as nat == be4_val(
                    old(self).remaining().take(4),
                ) && final(self).remaining() == old(self).remaining().skip(4),
                Err(e) => old(self).remaining().len() < 4 && e == Error::PacketLength && *final(self) == *old(self),
            },
    {
        if self.data.len() - self.pos >= 4 {
            let b0 = *vstd::slice::slice_index_get(self.data, self.pos);
            let b1 = *vstd::slice::slice_index_get(self.data, self.pos + 1);
            let b2 = *vstd::slice::slice_index_get(self.data, self.pos + 2);
            let b3 = *vstd::slice::slice_index_get(self.data, self.pos + 3);
            self.advance(4);
            Ok(
                (b0 as u32) * 0x100_0000 + (b1 as u32) * 0x1_0000 + (b2 as u32) * 0x100 + (
                b3 as u32),
            )
        } else {
            Err(Error::PacketLength)
        }
    }

    pub fn read_i32(&mut self) -> (r: Result<i32, Error>)
        requires
            old(self).wf(),
        ensures
            final(self).wf(),
            match r {
                Ok(v) => old(self).remaining().len() >= 4 && unsigned32(v) == be4_val(
                    old(self).remaining().take(4),
                ) && final(self).remaining() == old(self).remaining().skip(4),
                Err(e) => old(self).remaining().len() < 4 && e == Error::PacketLength && *final(self) == *old(self),
            },
    {
        let u = match self.read_u32() {
            Ok(u) => u,
            Err(e) => {
                return Err(e);
            },
        };
        if u < 0x8000_0000 {
            Ok(u as i32)
        } else {
            Ok(((u as i64) - 0x1_0000_0000) as i32)
        }
    }

    pub fn read_u64(&mut self) -> (r: Result<u64, Error>)
        requires
            old(self).wf(),
        ensures
            final(self).wf(),
            match r {
                Ok(v) => old(self).remaining().len() >= 8 && v as nat == be8_val(
                    old(self).remaining().take(8),
                ) && final(self).remaining() == old(self).remaining().skip(8),
                Err(e) => old(self).remaining().len() < 8 && e == Error::PacketLength && *final(self) == *old(self),
            },
    {
        if self.data.len() - self.pos >= 8 {
            let b0 = *vstd::slice::slice_index_get(self.data, self.pos);
            let b1 = *vstd::slice::slice_index_get(self.data, self.pos + 1);
            let b2 = *vstd::slice::slice_index_get(self.data, self.pos + 2);
            let b3 = *vstd::slice::slice_index_get(self.data, self.pos + 3);
            let b4 = *vstd::slice::slice_index_get(self.data, self.pos + 4);
            let b5 = *vstd::slice::slice_index_get(self.data, self.pos + 5);
            let b6 = *vstd::slice::slice_index_get(self.data, self.pos + 6);
            let b7 = *vstd::slice::slice_index_get(self.data, self.pos + 7);
            self.advance(8);
            Ok(
                (b0 as u64) * 0x100_0000_0000_0000 + (b1 as u64) * 0x1_0000_0000_0000 + (b2 as u64)
                    * 0x100_0000_0000 + (b3 as u64) * 0x1_0000_0000 + (b4 as u64) * 0x100_0000 + (
                b5 as u64) * 0x1_0000 + (b6 as u64) * 0x100 + (b7 as u64),
            )
        } else {
            Err(Error::PacketLength)
        }
    }

    pub fn read_i64(&mut self) -> (r: Result<i64, Error>)
        requires
            old(self).wf(),
        ensures
            final(self).wf(),
            match r {
                Ok(v) => old(self).remaining().len() >= 8 && unsigned64(v) == be8_val(
                    old(self).remaining().take(8),
                ) && final(self).remaining() == old(self).remaining().skip(8),
                Err(e) => old(self).remaining().len() < 8 && e == Error::PacketLength && *final(self) == *old(self),
            },
    {
        let u = match self.read_u64() {
            Ok(u) => u,
            Err(e) => {
                return Err(e);
            },
        };
        if u < 0x8000_0000_0000_0000 {
            Ok(u as i64)
        } else {
            let d = u - 0x8000_0000_0000_0000;
            Ok(i64::MIN + (d as i64))
        }
    }

    /// The VARINT modifier: a varint-coded `i32`, whatever the field's width.
    pub fn read_varint(&mut self) -> (r: Result<i32, Error>)
        requires
            old(self).wf(),
        ensures
            final(self).wf(),
            match r {
                Ok(v) => varint_ok(old(self).remaining()) && v == varint_decoded(
                    old(self).remaining(),
                ) && final(self).remaining() == old(self).remaining().skip(
                    varint_size(old(self).remaining()),
                ),
                Err(e) => !varint_ok(old(self).remaining()) && e == Error::PacketLength && *final(self) == *old(self),
            },
    {
        let rest = self.rest_slice();
        match varint::read_prefix(rest) {
            VarIntScan::Done(v, n) => {
                proof {
                    varint::lemma_first_term_props(rest@);
                }
                self.advance(n);
                Ok(v)
            },
            VarIntScan::NeedMore => Err(Error::PacketLength),
            VarIntScan::Malformed => Err(Error::PacketLength),
        }
    }

    /// A string field: varint byte length, then that many UTF-8 bytes,
    /// decoded with the replacement character standing in for invalid bytes.
    pub fn read_string(&mut self) -> (r: Result<String, Error>)
        requires
            old(self).wf(),
        ensures
            final(self).wf(),
            match r {
                Ok(s) => varint_span_ok(old(self).remaining()) && s@ == lossy_utf8(
                    varint_span(old(self).remaining()),
                ) && final(self).remaining() == varint_span_rest(old(self).remaining()),
                Err(e) => !varint_span_ok(old(self).remaining()) && e == Error::PacketLength
                    && *final(self) == *old(self),
            },
    {
        match self.read_span() {
            Ok(span) => Ok(lossy_string(span)),
            Err(e) => Err(e),
        }
    }

    /// A default byte-sequence field: varint length, then that many raw bytes.
    pub fn read_bytes(&mut self) -> (r: Result<Vec<u8>, Error>)
        requires
            old(self).wf(),
        ensures
            final(self).wf(),
            match r {
                Ok(v) => varint_span_ok(old(self).remaining()) && v@ == varint_span(
                    old(self).remaining(),
                ) && final(self).remaining() == varint_span_rest(old(self).remaining()),
                Err(e) => !varint_span_ok(old(self).remaining()) && e == Error::PacketLength
                    && *final(self) == *old(self),
            },
    {
        match self.read_span() {
            Ok(span) => Ok(vstd::slice::slice_to_vec(span)),
            Err(e) => Err(e),
        }
    }

    /// The span a varint length prefix covers, consumed together with it.
    fn read_span(&mut self) -> (r: Result<&'a [u8], Error>)
        requires
            old(self).wf(),
        ensures
            final(self).wf(),
            match r {
                Ok(v) => varint_span_ok(old(self).remaining()) && v@ == varint_span(
                    old(self).remaining(),
                ) && final(self).remaining() == varint_span_rest(old(self).remaining()),
                Err(e) => !varint_span_ok(old(self).remaining()) && e == Error::PacketLength
                    && *final(self) == *old(self),
            },
    {
        let ghost rem = self.remaining();
        let rest = self.rest_slice();
        let (l, n) = match varint::read_prefix(rest) {
            VarIntScan::Done(l, n) => (l, n),
            VarIntScan::NeedMore => {
                return Err(Error::PacketLength);
            },
            VarIntScan::Malformed => {
                return Err(Error::PacketLength);
            },
        };
        if l < 0 {
            return Err(Error::PacketLength);
        }
        proof {
            varint::lemma_first_term_props(rest@);
        }
        let l = l as usize;
        if rest.len() - n < l {
            return Err(Error::PacketLength);
        }
        let span = vstd::slice::slice_subrange(rest, n, n + l);
        self.advance(n + l);
        proof {
            assert(span@ =~= varint_span(rem));
            assert(self.remaining() =~= varint_span_rest(rem));
        }
        Ok(span)
    }

    /// The REST modifier: all bytes to the end of the packet, no prefix.
    pub fn read_rest(&mut self) -> (r: Vec<u8>)
        requires
            old(self).wf(),
        ensures
            final(self).wf(),
            r@ == old(self).remaining(),
            final(self).remaining().len() == 0,
    {
        let rest = self.rest_slice();
        let out = vstd::slice::slice_to_vec(rest);
        self.advance(rest.len());
        out
    }

    /// The INTPREFIXED modifier: an `i32` big-endian length, then the bytes.
    pub fn read_int_prefixed(&mut self) -> (r: Result<Vec<u8>, Error>)
        requires
            old(self).wf(),
        ensures
            final(self).wf(),
            match r {
                Ok(v) => ({
                    let rem = old(self).remaining();
                    &&& rem.len() >= 4
                    &&& (be4_val(rem.take(4)) as int) <= 0x7fff_ffff
                    &&& rem.len() >= 4 + (be4_val(rem.take(4)) as int)
                    &&& v@ == rem.subrange(4, 4 + (be4_val(rem.take(4)) as int))
                    &&& final(self).remaining() == rem.skip(4 + (be4_val(rem.take(4)) as int))
                }),
                Err(e) => ({
                    let rem = old(self).remaining();
                    &&& !(rem.len() >= 4 && (be4_val(rem.take(4)) as int) <= 0x7fff_ffff && rem.len() >= 4
                        + (be4_val(rem.take(4)) as int))
                    &&& e == Error::PacketLength
                    &&& *final(self) == *old(self)
                }),
            },
    {
        let ghost rem = self.remaining();
        let rest = self.rest_slice();
        if rest.len() < 4 {
            return Err(Error::PacketLength);
        }
        let b0 = *vstd::slice::slice_index_get(rest, 0);
        let b1 = *vstd::slice::slice_index_get(rest, 1);
        let b2 = *vstd::slice::slice_index_get(rest, 2);
        let b3 = *vstd::slice::slice_index_get(rest, 3);
        let u: u32 = (b0 as u32) * 0x100_0000 + (b1 as u32) * 0x1_0000 + (b2 as u32) * 0x100 + (
        b3 as u32);
        proof {
            assert(rem.take(4)[0] == b0 && rem.take(4)[1] == b1 && rem.take(4)[2] == b2 && rem.take(4)[3] == b3);
        }
        if u > 0x7fff_ffff {
            return Err(Error::PacketLength);
        }
        let l = u as usize;
        if rest.len() - 4 < l {
            return Err(Error::PacketLength);
        }
        let span = vstd::slice::slice_subrange(rest, 4, 4 + l);
        self.advance(4 + l);
        proof {
            assert(span@ =~= rem.subrange(4, 4 + (be4_val(rem.take(4)) as int)));
            assert(self.remaining() =~= rem.skip(4 + (be4_val(rem.take(4)) as int)));
        }
        Ok(vstd::slice::slice_to_vec(span))
    }

    /// The SHORTPREFIXED modifier: an `i16` big-endian length, then the bytes.
    pub fn read_short_prefixed(&mut self) -> (r: Result<Vec<u8>, Error>)
        requires
            old(self).wf(),
        ensures
            final(self).wf(),
            match r {
                Ok(v) => ({
                    let rem = old(self).remaining();
                    &&& rem.len() >= 2
                    &&& (be2_val(rem.take(2)) as int) <= 0x7fff
                    &&& rem.len() >= 2 + (be2_val(rem.take(2)) as int)
                    &&& v@ == rem.subrange(2, 2 + (be2_val(rem.take(2)) as int))
                    &&& final(self).remaining() == rem.skip(2 + (be2_val(rem.take(2)) as int))
                }),
                Err(e) => ({
                    let rem = old(self).remaining();
                    &&& !(rem.len() >= 2 && (be2_val(rem.take(2)) as int) <= 0x7fff && rem.len() >= 2
                        + (be2_val(rem.take(2)) as int))
                    &&& e == Error::PacketLength
                    &&& *final(self) == *old(self)
                }),
            },
    {
        let ghost rem = self.remaining();
        let rest = self.rest_slice();
        if rest.len() < 2 {
            return Err(Error::PacketLength);
        }
        let b0 = *vstd::slice::slice_index_get(rest, 0);
        let b1 = *vstd::slice::slice_index_get(rest, 1);
        let u: u16 = (b0 as u16) * 0x100 + (b1 as u16);
        proof {
            assert(rem.take(2)[0] == b0 && rem.take(2)[1] == b1);
        }
        if u > 0x7fff {
            return Err(Error::PacketLength);
        }
        let l = u as usize;
        if rest.len() - 2 < l {
            return Err(Error::PacketLength);
        }
        let span = vstd::slice::slice_subrange(rest, 2, 2 + l);
        self.advance(2 + l);
        proof {
            assert(span@ =~= rem.subrange(2, 2 + (be2_val(rem.take(2)) as int)));
            assert(self.remaining() =~= rem.skip(2 + (be2_val(rem.take(2)) as int)));
        }
        Ok(vstd::slice::slice_to_vec(span))
    }
}

} // verus!
