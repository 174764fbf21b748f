//! Minecraft-style varints: a signed 32-bit integer transported as 1-5 bytes.
//!
//! Each byte carries 7 payload bits, least-significant group first; the high
//! bit (0x80) signals continuation. Signed values travel as their unsigned
//! two's-complement bit pattern. No valid encoding exceeds 5 bytes; a 5th
//! byte with the continuation bit set, or an accumulated unsigned value of
//! 2^32 or more, is a protocol error.

use vstd::prelude::*;

verus! {

/// Helper wrapper for a protocol integer that travels in varint form.
#[derive(Debug, Clone, Copy, PartialEq, Eq, Structural)]
pub struct VarInt(pub i32);

/// The unsigned 32-bit two's-complement bit pattern of a signed value.
pub open spec fn unsigned32(v: i32) -> nat {
    if v >= 0 {
        v as nat
    } else {
        (v + 0x1_0000_0000) as nat
    }
}

/// The signed value whose 32-bit two's-complement bit pattern is `u` (for `u < 2^32`).
pub open spec fn signed32(u: nat) -> int {
    if u >= 0x8000_0000 {
        u - 0x1_0000_0000
    } else {
        u as int
    }
}

/// The varint encoding of an unsigned value: 7-bit groups, least significant
/// first, continuation bit on every byte but the last.
pub open spec fn varint_enc(u: nat) -> Seq<u8>
    decreases u,
{
    if u < 128 {
        seq![u as u8]
    } else {
        seq![(u % 128 + 128) as u8] + varint_enc(u / 128)
    }
}

/// Index of the first byte without the continuation bit, or `s.len()` if
/// every byte of `s` has it set.
pub open spec fn first_term(s: Seq<u8>) -> int
    decreases s.len(),
{
    if s.len() == 0 {
        0
    } else if s[0] < 128 {
        0
    } else {
        1 + first_term(s.drop_first())
    }
}

/// The unsigned value carried by the 7-bit payload groups of the first `n` bytes.
pub open spec fn varint_value(s: Seq<u8>, n: int) -> nat
    decreases n,
{
    if n <= 0 || s.len() == 0 {
        0
    } else {
        (s[0] % 128) as nat + 128 * varint_value(s.drop_first(), n - 1)
    }
}

/// 128^n, the radix of the `n`-th 7-bit group.
pub open spec fn pow128(n: nat) -> nat
    decreases n,
{
    if n == 0 {
        1
    } else {
        128 * pow128((n - 1) as nat)
    }
}

/// A terminating byte appears among the first five: the wire holds a whole varint.
pub open spec fn varint_complete(s: Seq<u8>) -> bool {
    first_term(s) < s.len() && first_term(s) <= 4
}

/// Too few bytes so far to tell: every present byte continues, and fewer than
/// five bytes are present.
pub open spec fn varint_need_more(s: Seq<u8>) -> bool {
    s.len() < 5 && first_term(s) >= s.len()
}

/// Number of bytes the varint at the head of `s` occupies (meaningful when complete).
pub open spec fn varint_size(s: Seq<u8>) -> int {
    first_term(s) + 1
}

/// `s` starts with a whole varint whose unsigned value fits in 32 bits.
pub open spec fn varint_ok(s: Seq<u8>) -> bool {
    varint_complete(s) && varint_value(s, varint_size(s)) < 0x1_0000_0000
}

/// The signed value of the varint at the head of `s` (meaningful when `varint_ok(s)`).
pub open spec fn varint_decoded(s: Seq<u8>) -> int {
    signed32(varint_value(s, varint_size(s)))
}

/// Outcome of scanning a buffer head for one varint.
pub enum VarIntScan {
    /// A whole varint was present: its value, and how many bytes it took.
    Done(i32, usize),
    /// The buffer ends before the varint does.
    NeedMore,
    /// Five continuation bytes, or a value of 2^32 or more.
    Malformed,
}

/// Error for the committing reader, [`read`].
#[derive(Debug, Clone, Copy, PartialEq, Eq, Structural)]
pub enum VarIntError {
    /// The input ends before the varint does.
    Incomplete,
    /// Five continuation bytes, or a value of 2^32 or more.
    Malformed,
}

pub proof fn lemma_pow128_val()
    ensures
        pow128(0) == 1,
        pow128(1) == 128,
        pow128(2) == 0x4000,
        pow128(3) == 0x20_0000,
        pow128(4) == 0x1000_0000,
        pow128(5) == 0x8_0000_0000,
{
    reveal_with_fuel(pow128, 6);
}

/// `first_term` is the least index whose byte lacks the continuation bit.
pub proof fn lemma_first_term_props(s: Seq<u8>)
    ensures
        0 <= first_term(s) <= s.len(),
        first_term(s) < s.len() ==> s[first_term(s)] < 128,
        forall|j: int| 0 <= j < first_term(s) ==> s[j] >= 128,
    decreases s.len(),
{
    if s.len() == 0 {
    } else if s[0] < 128 {
    } else {
        lemma_first_term_props(s.drop_first());
        assert forall|j: int| 0 <= j < first_term(s) implies s[j] >= 128 by {
            if j > 0 {
                assert(s.drop_first()[j - 1] >= 128);
            }
        }
    }
}

/// Adding the `n`-th payload group extends the accumulated value by one radix step.
pub proof fn lemma_value_step(s: Seq<u8>, n: int)
    requires
        0 <= n < s.len(),
    ensures
        varint_value(s, n + 1) == varint_value(s, n) + (s[n] % 128) * pow128(n as nat),
    decreases n,
{
    if n == 0 {
        reveal_with_fuel(varint_value, 3);
        reveal_with_fuel(pow128, 2);
    } else {
        let d = s.drop_first();
        lemma_value_step(d, n - 1);
        assert(d[n - 1] == s[n]);
        assert(varint_value(s, n + 1) == (s[0] % 128) as nat + 128 * varint_value(d, n));
        assert(varint_value(s, n) == (s[0] % 128) as nat + 128 * varint_value(d, n - 1));
        assert(varint_value(d, n) == varint_value(d, n - 1) + (s[n] % 128) * pow128(
            (n - 1) as nat,
        ));
        assert(128 * (varint_value(d, n - 1) + (s[n] % 128) * pow128((n - 1) as nat)) == 128
            * varint_value(d, n - 1) + 128 * ((s[n] % 128) * pow128((n - 1) as nat)))
            by (nonlinear_arith);
        assert(128 * ((s[n] % 128) * pow128((n - 1) as nat)) == (s[n] % 128) * pow128(n as nat))
            by (nonlinear_arith)
            requires
                pow128(n as nat) == 128 * pow128((n - 1) as nat),
        ;
    }
}

/// The value of `n` payload groups is below 128^n.
pub proof fn lemma_value_bound(s: Seq<u8>, n: int)
    requires
        n >= 0,
    ensures
        varint_value(s, n) < pow128(n as nat),
    decreases n,
{
    if n == 0 || s.len() == 0 {
        reveal_with_fuel(pow128, 2);
        if n > 0 {
            lemma_pow128_pos(n as nat);
        }
    } else {
        lemma_value_bound(s.drop_first(), n - 1);
        assert((s[0] % 128) as nat + 128 * varint_value(s.drop_first(), n - 1) < 128 * pow128(
            (n - 1) as nat,
        )) by (nonlinear_arith)
            requires
                varint_value(s.drop_first(), n - 1) < pow128((n - 1) as nat),
                (s[0] % 128) < 128,
        ;
    }
}

pub proof fn lemma_pow128_pos(n: nat)
    ensures
        pow128(n) >= 1,
    decreases n,
{
    if n > 0 {
        lemma_pow128_pos((n - 1) as nat);
    }
}

/// The encoding never exceeds five bytes while the value fits 35 bits,
/// and never less than one byte.
pub proof fn lemma_varint_enc_len(u: nat)
    ensures
        1 <= varint_enc(u).len(),
        u < 0x80 ==> varint_enc(u).len() == 1,
        u < 0x4000 ==> varint_enc(u).len() <= 2,
        u < 0x20_0000 ==> varint_enc(u).len() <= 3,
        u < 0x1000_0000 ==> varint_enc(u).len() <= 4,
        u < 0x8_0000_0000 ==> varint_enc(u).len() <= 5,
    decreases u,
{
    if u >= 128 {
        lemma_varint_enc_len(u / 128);
    }
}

/// Scanning the encoding of `u` finds one complete varint carrying exactly `u`.
pub proof fn lemma_varint_enc_dec(u: nat)
    requires
        u < 0x1_0000_0000,
    ensures
        first_term(varint_enc(u)) == varint_enc(u).len() - 1,
        varint_value(varint_enc(u), varint_enc(u).len() as int) == u,
        varint_ok(varint_enc(u)),
        varint_size(varint_enc(u)) == varint_enc(u).len(),
        varint_decoded(varint_enc(u)) == signed32(u),
    decreases u,
{
    lemma_varint_enc_len(u);
    if u < 128 {
        reveal_with_fuel(varint_value, 3);
    } else {
        lemma_varint_enc_dec(u / 128);
        let s = varint_enc(u);
        let rest = varint_enc(u / 128);
        assert(s.drop_first() =~= rest);
        assert(s[0] == (u % 128 + 128) as u8);
        assert(first_term(s) == 1 + first_term(rest));
        assert(varint_value(s, s.len() as int) == (s[0] % 128) as nat + 128 * varint_value(
            rest,
            rest.len() as int,
        ));
        assert(varint_value(s, s.len() as int) == u % 128 + 128 * (u / 128));
    }
}

/// Law: for every `i32` value, scanning its encoding yields the value back,
/// consuming exactly the encoding, which is one to five bytes long.
pub proof fn lemma_varint_round_trip(v: i32)
    ensures
        varint_ok(varint_enc(unsigned32(v))),
        varint_decoded(varint_enc(unsigned32(v))) == v,
        varint_size(varint_enc(unsigned32(v))) == varint_enc(unsigned32(v)).len(),
        1 <= varint_enc(unsigned32(v)).len() <= 5,
{
    lemma_varint_enc_len(unsigned32(v));
    lemma_varint_enc_dec(unsigned32(v));
}

/// Bytes appended after a complete varint change neither its size nor its value.
pub proof fn lemma_varint_extend(s: Seq<u8>, t: Seq<u8>)
    requires
        varint_complete(s),
    ensures
        first_term(s + t) == first_term(s),
        varint_value(s + t, varint_size(s)) == varint_value(s, varint_size(s)),
        varint_ok(s + t) == varint_ok(s),
        varint_ok(s) ==> varint_decoded(s + t) == varint_decoded(s),
    decreases s.len(),
{
    lemma_first_term_props(s);
    if s[0] < 128 {
        assert((s + t)[0] == s[0]);
        reveal_with_fuel(varint_value, 3);
        assert(varint_value(s + t, 1) == ((s + t)[0] % 128) as nat + 128 * varint_value(
            (s + t).drop_first(),
            0,
        ));
        assert(varint_value(s, 1) == (s[0] % 128) as nat + 128 * varint_value(s.drop_first(), 0));
    } else {
        let d = s.drop_first();
        assert((s + t)[0] == s[0]);
        assert((s + t).drop_first() =~= d + t);
        lemma_varint_extend(d, t);
        assert(varint_value(s + t, varint_size(s)) == (s[0] % 128) as nat + 128 * varint_value(
            d + t,
            varint_size(d),
        ));
        assert(varint_value(s, varint_size(s)) == (s[0] % 128) as nat + 128 * varint_value(
            d,
            varint_size(d),
        ));
    }
}

/// A run of continuation bytes has no terminator.
pub proof fn lemma_first_term_all_cont(s: Seq<u8>)
    requires
        forall|j: int| 0 <= j < s.len() ==> s[j] >= 128,
    ensures
        first_term(s) == s.len(),
    decreases s.len(),
{
    if s.len() > 0 {
        lemma_first_term_all_cont(s.drop_first());
    }
}

/// Law: any strict prefix of a complete varint still needs more data.
pub proof fn lemma_varint_prefix(s: Seq<u8>, k: int)
    requires
        varint_complete(s),
        0 <= k < varint_size(s),
    ensures
        varint_need_more(s.take(k)),
{
    lemma_first_term_props(s);
    assert(forall|j: int| 0 <= j < k ==> s.take(k)[j] >= 128);
    lemma_first_term_all_cont(s.take(k));
}

/// Law: five or more continuation bytes in a row are malformed, never
/// "need more data", whatever follows them.
pub proof fn lemma_continuation_run_malformed(s: Seq<u8>)
    requires
        s.len() >= 5,
        forall|j: int| 0 <= j < 5 ==> s[j] >= 128,
    ensures
        !varint_ok(s),
        !varint_need_more(s),
{
    lemma_first_term_props(s);
    if first_term(s) < 5 {
        assert(s[first_term(s)] >= 128);
    }
}

/// Scan the head of `src` for one varint without consuming anything.
pub fn read_prefix(src: &[u8]) -> (r: VarIntScan)
    ensures
        match r {
            VarIntScan::Done(v, n) => varint_ok(src@) && n == varint_size(src@) && v
                == varint_decoded(src@),
            VarIntScan::NeedMore => varint_need_more(src@),
            VarIntScan::Malformed => !varint_ok(src@) && !varint_need_more(src@),
        },
{
    proof {
        lemma_first_term_props(src@);
        lemma_pow128_val();
    }
    let mut i: usize = 0;
    let mut acc: u64 = 0;
    let mut radix: u64 = 1;
    while i < src.len() && i < 5
        invariant
            i <= 5,
            i <= src@.len(),
            first_term(src@) >= i,
            acc == varint_value(src@, i as int),
            acc < pow128(i as nat),
            radix == pow128(i as nat),
            pow128(0) == 1 && pow128(1) == 128 && pow128(2) == 0x4000 && pow128(3) == 0x20_0000
                && pow128(4) == 0x1000_0000 && pow128(5) == 0x8_0000_0000,
            0 <= first_term(src@) <= src@.len(),
            first_term(src@) < src@.len() ==> src@[first_term(src@)] < 128,
            forall|j: int| 0 <= j < first_term(src@) ==> src@[j] >= 128,
        decreases src@.len() - i,
    {
        let b = src[i];
        proof {
            lemma_value_step(src@, i as int);
            assert((b as u64) % 128 == b % 128);
            assert(((b % 128) as u64) * radix < 0x8_0000_0000) by (nonlinear_arith)
                requires
                    b % 128 < 128,
                    radix <= 0x1000_0000,
            ;
        }
        if b < 128 {
            let total: u64 = acc + (b as u64) * radix;
            assert(first_term(src@) == i);
            assert(total == varint_value(src@, i + 1));
            if total < 0x1_0000_0000 {
                let v: i32 = if total < 0x8000_0000 {
                    total as i32
                } else {
                    ((total as i64) - 0x1_0000_0000) as i32
                };
                return VarIntScan::Done(v, i + 1);
            } else {
                return VarIntScan::Malformed;
            }
        }
        proof {
            lemma_value_step(src@, i as int);
            lemma_value_bound(src@, i + 1);
            if first_term(src@) == i {
                assert(src@[i as int] < 128);
            }
        }
        acc = acc + ((b - 128) as u64) * radix;
        radix = radix * 128;
        i = i + 1;
    }
    if i < 5 {
        VarIntScan::NeedMore
    } else {
        proof {
            lemma_value_bound(src@, varint_size(src@));
        }
        assert(first_term(src@) >= 5);
        VarIntScan::Malformed
    }
}

/// Slice flavor used for length peeking: the value and the bytes it took,
/// or `None` both when more bytes are needed and when the varint is malformed.
pub fn read_slice(src: &[u8]) -> (r: Option<(i32, usize)>)
    ensures
        r is Some <==> varint_ok(src@),
        r matches Some((v, n)) ==> v == varint_decoded(src@) && n == varint_size(src@),
{
    match read_prefix(src) {
        VarIntScan::Done(v, n) => Some((v, n)),
        VarIntScan::NeedMore => None,
        VarIntScan::Malformed => None,
    }
}

/// Streaming flavor over a byte source: decode the varint at `*pos`,
/// advancing `*pos` past it on success and leaving it put on failure.
pub fn read(src: &[u8], pos: &mut usize) -> (r: Result<i32, VarIntError>)
    requires
        *old(pos) <= src@.len(),
    ensures
        match r {
            Ok(v) => varint_ok(src@.skip(*old(pos) as int)) && v == varint_decoded(
                src@.skip(*old(pos) as int),
            ) && *final(pos) == *old(pos) + varint_size(src@.skip(*old(pos) as int)),
            Err(e) => *final(pos) == *old(pos) && !varint_ok(src@.skip(*old(pos) as int)) && (
            e == VarIntError::Incomplete <==> varint_need_more(src@.skip(*old(pos) as int))),
        },
{
    let rest = vstd::slice::slice_subrange(src, *pos, src.len());
    assert(rest@ =~= src@.skip(*pos as int));
    match read_prefix(rest) {
        VarIntScan::Done(v, n) => {
            proof {
                lemma_first_term_props(rest@);
            }
            *pos = *pos + n;
            Ok(v)
        },
        VarIntScan::NeedMore => Err(VarIntError::Incomplete),
        VarIntScan::Malformed => Err(VarIntError::Malformed),
    }
}

/// Encode a signed value: emit its unsigned bit pattern in 7-bit groups,
/// least significant first, continuation bit on every byte but the last.
pub fn encode(val: i32) -> (r: Vec<u8>)
    ensures
        r@ == varint_enc(unsigned32(val)),
{
    let mut u: u32 = if val >= 0 {
        val as u32
    } else {
        ((val as i64) + 0x1_0000_0000) as u32
    };
    assert(u == unsigned32(val));
    let ghost total: nat = u as nat;
    let mut out: Vec<u8> = Vec::new();
    while u >= 128
        invariant
            varint_enc(total) == out@ + varint_enc(u as nat),
        decreases u,
    {
        let ghost prev: nat = u as nat;
        out.push((u % 128 + 128) as u8);
        u = u / 128;
        proof {
            assert(varint_enc(prev) == seq![(prev % 128 + 128) as u8] + varint_enc(prev / 128));
            assert(out@ + varint_enc(u as nat) =~= varint_enc(total));
        }
    }
    out.push(u as u8);
    proof {
        assert(varint_enc(u as nat) == seq![u as u8]);
        assert(out@ =~= varint_enc(total));
    }
    out
}

impl VarInt {
    /// The wire bytes of this value.
    pub fn to_bytes(&self) -> (r: Vec<u8>)
        ensures
            r@ == varint_enc(unsigned32(self.0)),
    {
        encode(self.0)
    }
}

} // verus!
