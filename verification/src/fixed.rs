//! Fixed-width big-endian wire encodings.
//!
//! Every fixed-width wire type — the sized integers, booleans, the packed
//! block position, the UUID, and the bit patterns of floating-point fields —
//! is a direct big-endian byte string of its width.

use vstd::prelude::*;

use crate::error::{CodecError, ErrorKind};
use crate::version::ProtocolVersion;

verus! {

/// 256 raised to `k`: the weight of the `k`-th byte from the little end.
pub open spec fn pow256(k: nat) -> nat
    decreases k,
{
    if k == 0 {
        1
    } else {
        256 * pow256((k - 1) as nat)
    }
}

/// The powers of 256 at the widths the wire types use.
pub proof fn lemma_pow256_values()
    ensures
        pow256(0) == 1,
        pow256(1) == 0x100,
        pow256(2) == 0x1_0000,
        pow256(4) == 0x1_0000_0000,
        pow256(8) == 0x1_0000_0000_0000_0000,
        pow256(16) == 0x1_0000_0000_0000_0000_0000_0000_0000_0000,
{
    reveal_with_fuel(pow256, 17);
}

/// Powers of 256 do not shrink as the width grows.
pub proof fn lemma_pow256_mono(a: nat, b: nat)
    requires
        a <= b,
    ensures
        pow256(a) <= pow256(b),
    decreases b,
{
    if a < b {
        lemma_pow256_mono(a, (b - 1) as nat);
        assert(pow256(b) == 256 * pow256((b - 1) as nat));
        assert(pow256((b - 1) as nat) <= 256 * pow256((b - 1) as nat)) by (nonlinear_arith)
            requires
                pow256((b - 1) as nat) >= 0,
        ;
    }
}

/// The `w`-byte big-endian encoding of `x`, most significant byte first.
pub open spec fn be_bytes(x: nat, w: nat) -> Seq<u8>
    decreases w,
{
    if w == 0 {
        seq![]
    } else {
        be_bytes(x / 256, (w - 1) as nat) + seq![(x % 256) as u8]
    }
}

/// The value a byte string denotes when read big-endian.
pub open spec fn be_val(s: Seq<u8>) -> nat
    decreases s.len(),
{
    if s.len() == 0 {
        0
    } else {
        (be_val(s.drop_last()) * 256 + s.last()) as nat
    }
}

/// A big-endian encoding has exactly its width.
pub proof fn lemma_be_bytes_len(x: nat, w: nat)
    ensures
        be_bytes(x, w).len() == w,
    decreases w,
{
    if w > 0 {
        lemma_be_bytes_len(x / 256, (w - 1) as nat);
    }
}

/// A byte string read big-endian stays below `256^len`.
pub proof fn lemma_be_val_bound(s: Seq<u8>)
    ensures
        be_val(s) < pow256(s.len()),
    decreases s.len(),
{
    if s.len() > 0 {
        lemma_be_val_bound(s.drop_last());
        assert(be_val(s.drop_last()) * 256 + s.last() < 256 * pow256(s.drop_last().len()))
            by (nonlinear_arith)
            requires
                be_val(s.drop_last()) < pow256(s.drop_last().len()),
                s.last() < 256,
        ;
    }
}

/// Round trip: reading back a `w`-byte encoding of `x < 256^w` yields `x`.
pub proof fn lemma_be_roundtrip(x: nat, w: nat)
    requires
        x < pow256(w),
    ensures
        be_val(be_bytes(x, w)) == x,
    decreases w,
{
    if w > 0 {
        let hi = be_bytes(x / 256, (w - 1) as nat);
        lemma_be_bytes_len(x / 256, (w - 1) as nat);
        assert(be_bytes(x, w).drop_last() =~= hi);
        assert(x / 256 < pow256((w - 1) as nat)) by (nonlinear_arith)
            requires
                x < 256 * pow256((w - 1) as nat),
        ;
        lemma_be_roundtrip(x / 256, (w - 1) as nat);
        assert((x / 256) * 256 + x % 256 == x) by (nonlinear_arith);
    }
}

/// The signed reading of a `w`-byte unsigned value's bits.
pub open spec fn signed_of(x: nat, w: nat) -> int
    recommends
        x < pow256(w),
{
    if 2 * x < pow256(w) {
        x as int
    } else {
        x - pow256(w)
    }
}

/// The `w`-byte two's-complement bit pattern of a signed value.
pub open spec fn twos_of(n: int, w: nat) -> nat
    recommends
        -pow256(w) <= 2 * n < pow256(w),
{
    if n >= 0 {
        n as nat
    } else {
        (n + pow256(w)) as nat
    }
}

/// The signed reading of a value's own bit pattern is the value.
pub proof fn lemma_signed_twos_inverse(n: int, w: nat)
    requires
        -pow256(w) <= 2 * n < pow256(w),
    ensures
        signed_of(twos_of(n, w), w) == n,
        twos_of(n, w) < pow256(w),
{
}

/// Reads `w` big-endian bytes from `bytes` at `pos` into an unsigned value.
/// Fails, moving nothing, when fewer than `w` bytes remain.
pub fn read_be(bytes: &Vec<u8>, pos: &mut usize, w: usize, _version: ProtocolVersion) -> (r:
    Result<u128, CodecError>)
    requires
        *old(pos) <= bytes@.len(),
        1 <= w <= 16,
    ensures
        *old(pos) <= *final(pos) <= bytes@.len(),
        *old(pos) + w <= bytes@.len() ==> (r matches Ok(v) && v as nat == be_val(
            bytes@.subrange(*old(pos) as int, *old(pos) + w),
        ) && *final(pos) == *old(pos) + w),
        *old(pos) + w > bytes@.len() ==> (r matches Err(e) && e.kind == ErrorKind::TruncatedInput
            && e.trail@.len() == 0 && *final(pos) == *old(pos)),
{
    if bytes.len() - *pos < w {
        return Err(CodecError::new(ErrorKind::TruncatedInput));
    }
    let ghost p0 = *pos as int;
    let mut acc: u128 = 0;
    let mut i: usize = 0;
    proof {
        assert(bytes@.subrange(p0, p0) =~= Seq::<u8>::empty());
    }
    while i < w
        invariant
            i <= w <= 16,
            *pos == *old(pos) + i,
            *old(pos) + w <= bytes@.len(),
            bytes@.len() <= usize::MAX,
            p0 == *old(pos) as int,
            acc as nat == be_val(bytes@.subrange(p0, p0 + i)),
            (acc as nat) < pow256(i as nat),
        decreases w - i,
    {
        let b = bytes[*pos];
        proof {
            let taken = bytes@.subrange(p0, p0 + i + 1);
            assert(taken.drop_last() =~= bytes@.subrange(p0, p0 + i));
            assert(taken.last() == bytes@[p0 + i]);
            lemma_pow256_values();
            lemma_pow256_mono((i + 1) as nat, 16);
            assert(acc * 256 + b < 256 * pow256(i as nat)) by (nonlinear_arith)
                requires
                    acc < pow256(i as nat),
                    b < 256,
            ;
        }
        acc = acc * 256 + (b as u128);
        *pos += 1;
        i += 1;
    }
    Ok(acc)
}

/// Writes the `w`-byte big-endian encoding of `x` to `out`.
pub fn write_be(x: u128, w: usize, out: &mut Vec<u8>, _version: ProtocolVersion)
    requires
        w <= 16,
        (x as nat) < pow256(w as nat),
    ensures
        final(out)@ == old(out)@ + be_bytes(x as nat, w as nat),
    decreases w,
{
    if w == 0 {
        proof {
            assert(out@ =~= out@ + be_bytes(x as nat, 0));
        }
        return ;
    }
    proof {
        assert(x as nat / 256 < pow256((w - 1) as nat)) by (nonlinear_arith)
            requires
                (x as nat) < 256 * pow256((w - 1) as nat),
        ;
    }
    write_be(x / 256, w - 1, out, _version);
    out.push((x % 256) as u8);
    proof {
        assert(out@ =~= old(out)@ + be_bytes(x as nat, w as nat));
    }
}

/// Reinterprets an unsigned 64-bit value's bits as a signed value.
pub fn u64_to_i64(x: u64) -> (r: i64)
    ensures
        r as int == signed_of(x as nat, 8),
{
    proof {
        lemma_pow256_values();
    }
    if x < 0x8000_0000_0000_0000 {
        x as i64
    } else {
        ((x as i128) - 0x1_0000_0000_0000_0000) as i64
    }
}

/// Reinterprets a signed 64-bit value as its unsigned bit pattern.
pub fn i64_to_u64(n: i64) -> (r: u64)
    ensures
        r as nat == twos_of(n as int, 8),
{
    proof {
        lemma_pow256_values();
    }
    if n >= 0 {
        n as u64
    } else {
        ((n as i128) + 0x1_0000_0000_0000_0000) as u64
    }
}

/// Reinterprets an unsigned 16-bit value's bits as a signed value.
pub fn u16_to_i16(x: u16) -> (r: i16)
    ensures
        r as int == signed_of(x as nat, 2),
{
    proof {
        lemma_pow256_values();
    }
    if x < 0x8000 {
        x as i16
    } else {
        ((x as i32) - 0x1_0000) as i16
    }
}

/// Reinterprets a signed 16-bit value as its unsigned bit pattern.
pub fn i16_to_u16(n: i16) -> (r: u16)
    ensures
        r as nat == twos_of(n as int, 2),
{
    proof {
        lemma_pow256_values();
    }
    if n >= 0 {
        n as u16
    } else {
        ((n as i32) + 0x1_0000) as u16
    }
}

/// Reinterprets an unsigned byte's bits as a signed value.
pub fn u8_to_i8(x: u8) -> (r: i8)
    ensures
        r as int == signed_of(x as nat, 1),
{
    proof {
        lemma_pow256_values();
    }
    if x < 0x80 {
        x as i8
    } else {
        ((x as i16) - 0x100) as i8
    }
}

/// Reinterprets a signed byte as its unsigned bit pattern.
pub fn i8_to_u8(n: i8) -> (r: u8)
    ensures
        r as nat == twos_of(n as int, 1),
{
    proof {
        lemma_pow256_values();
    }
    if n >= 0 {
        n as u8
    } else {
        ((n as i16) + 0x100) as u8
    }
}

} // verus!
