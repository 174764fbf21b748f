//! The schema serializer: primitive field encoders that append a value's
//! wire form to a growing byte buffer, in the packet's declared field order.
//!
//! Fixed-width integers travel big-endian; strings and byte sequences carry
//! a varint length prefix; the tagged modifiers write a varint body, a raw
//! trailing tail, or an `i32`/`i16` big-endian length prefix instead.

use vstd::prelude::*;
use vstd::utf8::encode_utf8;
use crate::varint;
use crate::varint::{varint_enc, unsigned32};

verus! {

/// Errors of the schema serializer.
#[derive(Debug)]
pub enum Error {
    /// A value the schema cannot describe.
    Any,
    /// A caller-supplied message.
    Custom(String),
    /// A field kind that a tagged modifier does not accept.
    Type(&'static str),
    /// A length that does not fit its wire-form prefix.
    Other,
}

/// The unsigned 8-bit two's-complement bit pattern of a signed byte.
pub open spec fn unsigned8(v: i8) -> nat {
    if v >= 0 {
        v as nat
    } else {
        (v + 0x100) as nat
    }
}

/// The unsigned 16-bit two's-complement bit pattern of a signed value.
pub open spec fn unsigned16(v: i16) -> nat {
    if v >= 0 {
        v as nat
    } else {
        (v + 0x1_0000) as nat
    }
}

/// The unsigned 64-bit two's-complement bit pattern of a signed value.
pub open spec fn unsigned64(v: i64) -> nat {
    if v >= 0 {
        v as nat
    } else {
        (v + 0x1_0000_0000_0000_0000) as nat
    }
}

/// Big-endian bytes of a 16-bit value.
pub open spec fn be2(u: nat) -> Seq<u8> {
    seq![((u / 0x100) % 0x100) as u8, (u % 0x100) as u8]
}

/// Big-endian bytes of a 32-bit value.
pub open spec fn be4(u: nat) -> Seq<u8> {
    seq![
        ((u / 0x100_0000) % 0x100) as u8,
        ((u / 0x1_0000) % 0x100) as u8,
        ((u / 0x100) % 0x100) as u8,
        (u % 0x100) as u8,
    ]
}

/// Big-endian bytes of a 64-bit value.
pub open spec fn be8(u: nat) -> Seq<u8> {
    seq![
        ((u / 0x100_0000_0000_0000) % 0x100) as u8,
        ((u / 0x1_0000_0000_0000) % 0x100) as u8,
        ((u / 0x100_0000_0000) % 0x100) as u8,
        ((u / 0x1_0000_0000) % 0x100) as u8,
        ((u / 0x100_0000) % 0x100) as u8,
        ((u / 0x1_0000) % 0x100) as u8,
        ((u / 0x100) % 0x100) as u8,
        (u % 0x100) as u8,
    ]
}

/// The value two big-endian bytes carry.
pub open spec fn be2_val(s: Seq<u8>) -> nat {
    (s[0] as nat) * 0x100 + s[1] as nat
}

/// The value four big-endian bytes carry.
pub open spec fn be4_val(s: Seq<u8>) -> nat {
    (s[0] as nat) * 0x100_0000 + (s[1] as nat) * 0x1_0000 + (s[2] as nat) * 0x100 + s[3] as nat
}

/// The value eight big-endian bytes carry.
pub open spec fn be8_val(s: Seq<u8>) -> nat {
    (s[0] as nat) * 0x100_0000_0000_0000 + (s[1] as nat) * 0x1_0000_0000_0000 + (s[2] as nat)
        * 0x100_0000_0000 + (s[3] as nat) * 0x1_0000_0000 + (s[4] as nat) * 0x100_0000 + (
    s[5] as nat) * 0x1_0000 + (s[6] as nat) * 0x100 + s[7] as nat
}

/// The bool wire form: one byte, 1 for true and 0 for false.
pub open spec fn bool_enc(v: bool) -> Seq<u8> {
    seq![if v { 1u8 } else { 0u8 }]
}

/// The string wire form: varint byte length, then the UTF-8 bytes.
pub open spec fn string_enc(s: Seq<char>) -> Seq<u8> {
    varint_enc(encode_utf8(s).len()) + encode_utf8(s)
}

/// The default byte-sequence wire form: varint length, then the bytes.
pub open spec fn bytes_enc(b: Seq<u8>) -> Seq<u8> {
    varint_enc(b.len()) + b
}

/// The INTPREFIXED wire form: `i32` big-endian length, then the bytes.
pub open spec fn int_prefixed_enc(b: Seq<u8>) -> Seq<u8> {
    be4(b.len()) + b
}

/// The SHORTPREFIXED wire form: `i16` big-endian length, then the bytes.
pub open spec fn short_prefixed_enc(b: Seq<u8>) -> Seq<u8> {
    be2(b.len()) + b
}

pub proof fn lemma_be2_round(u: nat)
    requires
        u < 0x1_0000,
    ensures
        be2(u).len() == 2,
        be2_val(be2(u)) == u,
{
}

pub proof fn lemma_be4_round(u: nat)
    requires
        u < 0x1_0000_0000,
    ensures
        be4(u).len() == 4,
        be4_val(be4(u)) == u,
{
}

pub proof fn lemma_be8_round(u: nat)
    requires
        u < 0x1_0000_0000_0000_0000,
    ensures
        be8(u).len() == 8,
        be8_val(be8(u)) == u,
{
    let x = u as u64;
    assert((x / 0x100_0000_0000_0000) % 0x100 * 0x100_0000_0000_0000 + (x / 0x1_0000_0000_0000)
        % 0x100 * 0x1_0000_0000_0000 + (x / 0x100_0000_0000) % 0x100 * 0x100_0000_0000 + (x
        / 0x1_0000_0000) % 0x100 * 0x1_0000_0000 + (x / 0x100_0000) % 0x100 * 0x100_0000 + (x
        / 0x1_0000) % 0x100 * 0x1_0000 + (x / 0x100) % 0x100 * 0x100 + x % 0x100 == x)
        by (bit_vector);
}

/// The schema serializer: walks a packet's fields in declared order,
/// appending each field's wire form to its buffer.
pub struct Serializer {
    out: Vec<u8>,
}

impl Serializer {
    /// Everything written so far, after what the buffer already held.
    pub closed spec fn bytes(self) -> Seq<u8> {
        self.out@
    }

    /// A serializer writing onto the given buffer.
    pub fn new(out: Vec<u8>) -> (s: Serializer)
        ensures
            s.bytes() == out@,
    {
        Serializer { out }
    }

    /// The finished buffer.
    pub fn into_bytes(self) -> (r: Vec<u8>)
        ensures
            r@ == self.bytes(),
    {
        self.out
    }

    /// A bool field, and equally an option field's presence flag: one byte,
    /// 1 for present/true and 0 for absent/false.
    pub fn write_bool(&mut self, v: bool)
        ensures
            final(self).bytes() == old(self).bytes() + bool_enc(v),
    {
        self.out.push(if v { 1u8 } else { 0u8 });
        proof {
            assert(self.out@ =~= old(self).bytes() + bool_enc(v));
        }
    }

    pub fn write_u8(&mut self, v: u8)
        ensures
            final(self).bytes() == old(self).bytes() + seq![v],
    {
        self.out.push(v);
        proof {
            assert(self.out@ =~= old(self).bytes() + seq![v]);
        }
    }

    pub fn write_i8(&mut self, v: i8)
        ensures
            final(self).bytes() == old(self).bytes() + seq![unsigned8(v) as u8],
    {
        let u: u8 = if v >= 0 {
            v as u8
        } else {
            ((v as i16) + 0x100) as u8
        };
        self.write_u8(u);
    }

    pub fn write_u16(&mut self, v: u16)
        ensures
            final(self).bytes() == old(self).bytes() + be2(v as nat),
    {
        self.out.push((v / 0x100) as u8);
        self.out.push((v % 0x100) as u8);
        proof {
            assert(self.out@ =~= old(self).bytes() + be2(v as nat));
        }
    }

    pub fn write_i16(&mut self, v: i16)
        ensures
            final(self).bytes() == old(self).bytes() + be2(unsigned16(v)),
    {
        let u: u16 = if v >= 0 {
            v as u16
        } else {
            ((v as i32) + 0x1_0000) as u16
        };
        self.write_u16(u);
    }

    pub fn write_u32(&mut self, v: u32)
        ensures
            final(self).bytes() == old(self).bytes() + be4(v as nat),
    {
        self.out.push((v / 0x100_0000) as u8);
        self.out.push(((v / 0x1_0000) % 0x100) as u8);
        self.out.push(((v / 0x100) % 0x100) as u8);
        self.out.push((v % 0x100) as u8);
        proof {
            assert(self.out@ =~= old(self).bytes() + be4(v as nat));
        }
    }

    pub fn write_i32(&mut self, v: i32)
        ensures
            final(self).bytes() == old(self).bytes() + be4(unsigned32(v)),
    {
        let u: u32 = if v >= 0 {
            v as u32
        } else {
            ((v as i64) + 0x1_0000_0000) as u32
        };
        self.write_u32(u);
    }

    pub fn write_u64(&mut self, v: u64)
        ensures
            final(self).bytes() == old(self).bytes() + be8(v as nat),
    {
        self.out.push((v / 0x100_0000_0000_0000) as u8);
        self.out.push(((v / 0x1_0000_0000_0000) % 0x100) as u8);
        self.out.push(((v / 0x100_0000_0000) % 0x100) as u8);
        self.out.push(((v / 0x1_0000_0000) % 0x100) as u8);
        self.out.push(((v / 0x100_0000) % 0x100) as u8);
        self.out.push(((v / 0x1_0000) % 0x100) as u8);
        self.out.push(((v / 0x100) % 0x100) as u8);
        self.out.push((v % 0x100) as u8);
        proof {
            assert(self.out@ =~= old(self).bytes() + be8(v as nat));
        }
    }

    pub fn write_i64(&mut self, v: i64)
        ensures
            final(self).bytes() == old(self).bytes() + be8(unsigned64(v)),
    {
        let u: u64 = if v >= 0 {
            v as u64
        } else {
            0xffff_ffff_ffff_ffff - ((-(v + 1)) as u64)
        };
        self.write_u64(u);
    }

    /// The VARINT modifier: the value travels as a varint, whatever its width.
    pub fn write_varint(&mut self, v: i32)
        ensures
            final(self).bytes() == old(self).bytes() + varint_enc(unsigned32(v)),
    {
        let mut bytes = varint::encode(v);
        self.out.append(&mut bytes);
    }

    /// A string field: varint byte length, then the UTF-8 bytes. Fails only
    /// when the byte length cannot fit the varint prefix.
    pub fn write_str(&mut self, v: &str) -> (r: Result<(), Error>)
        ensures
            r is Ok <==> encode_utf8(v@).len() <= 0x7fff_ffff,
            r is Ok ==> final(self).bytes() == old(self).bytes() + string_enc(v@),
            r is Err ==> final(self).bytes() == old(self).bytes() && r matches Err(Error::Other),
    {
        let bs = v.as_bytes();
        if bs.len() > 0x7fff_ffff {
            return Err(Error::Other);
        }
        self.write_varint(bs.len() as i32);
        self.out.extend_from_slice(bs);
        proof {
            assert(unsigned32(bs@.len() as i32) == encode_utf8(v@).len());
            assert(self.out@ =~= old(self).bytes() + string_enc(v@));
        }
        Ok(())
    }

    /// A default byte-sequence field: varint length, then the bytes.
    pub fn write_bytes(&mut self, v: &[u8]) -> (r: Result<(), Error>)
        ensures
            r is Ok <==> v@.len() <= 0x7fff_ffff,
            r is Ok ==> final(self).bytes() == old(self).bytes() + bytes_enc(v@),
            r is Err ==> final(self).bytes() == old(self).bytes() && r matches Err(Error::Other),
    {
        if v.len() > 0x7fff_ffff {
            return Err(Error::Other);
        }
        self.write_varint(v.len() as i32);
        self.out.extend_from_slice(v);
        proof {
            assert(unsigned32(v@.len() as i32) == v@.len());
            assert(self.out@ =~= old(self).bytes() + bytes_enc(v@));
        }
        Ok(())
    }

    /// The REST modifier: raw trailing bytes, no length prefix.
    pub fn write_rest(&mut self, v: &[u8])
        ensures
            final(self).bytes() == old(self).bytes() + v@,
    {
        self.out.extend_from_slice(v);
    }

    /// The INTPREFIXED modifier: `i32` big-endian length, then the bytes.
    pub fn write_int_prefixed(&mut self, v: &[u8]) -> (r: Result<(), Error>)
        ensures
            r is Ok <==> v@.len() <= 0x7fff_ffff,
            r is Ok ==> final(self).bytes() == old(self).bytes() + int_prefixed_enc(v@),
            r is Err ==> final(self).bytes() == old(self).bytes() && r matches Err(Error::Other),
    {
        if v.len() > 0x7fff_ffff {
            return Err(Error::Other);
        }
        self.write_i32(v.len() as i32);
        self.out.extend_from_slice(v);
        proof {
            assert(unsigned32(v@.len() as i32) == v@.len());
            assert(self.out@ =~= old(self).bytes() + int_prefixed_enc(v@));
        }
        Ok(())
    }

    /// The SHORTPREFIXED modifier: `i16` big-endian length, then the bytes.
    pub fn write_short_prefixed(&mut self, v: &[u8]) -> (r: Result<(), Error>)
        ensures
            r is Ok <==> v@.len() <= 0x7fff,
            r is Ok ==> final(self).bytes() == old(self).bytes() + short_prefixed_enc(v@),
            r is Err ==> final(self).bytes() == old(self).bytes() && r matches Err(Error::Other),
    {
        if v.len() > 0x7fff {
            return Err(Error::Other);
        }
        self.write_i16(v.len() as i16);
        proof {
            assert(unsigned16(v@.len() as i16) == v@.len());
        }
        self.out.extend_from_slice(v);
        proof {
            assert(self.out@ =~= old(self).bytes() + short_prefixed_enc(v@));
        }
        Ok(())
    }
}

} // verus!
