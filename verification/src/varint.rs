//! The variable-length integer wire type.
//!
//! Seven data bits per byte, high bit as continuation flag, least-significant
//! group first. Signed 32-bit values are not zig-zag encoded: the raw
//! two's-complement bit pattern is cut into groups. A value occupies at most
//! five groups; a fifth byte that still carries the continuation flag makes
//! the input corrupt. Encoding always emits the fewest groups possible.

use vstd::prelude::*;

use crate::error::{CodecError, ErrorKind};
use crate::version::ProtocolVersion;

verus! {

/// 128 raised to `k`: the weight of the `k`-th seven-bit group.
pub open spec fn pow128(k: nat) -> nat
    decreases k,
{
    if k == 0 {
        1
    } else {
        128 * pow128((k - 1) as nat)
    }
}

/// The unsigned 32-bit reading of a signed value's two's-complement bits.
pub open spec fn u32_of_i32(n: i32) -> nat {
    if n >= 0 {
        n as nat
    } else {
        (n + 0x1_0000_0000) as nat
    }
}

/// The signed reading of an unsigned 32-bit value's bits.
pub open spec fn i32_of_u32(x: nat) -> int
    recommends
        x < 0x1_0000_0000,
{
    if x < 0x8000_0000 {
        x as int
    } else {
        x - 0x1_0000_0000
    }
}

/// The group stream of `x`: minimal, least-significant group first.
pub open spec fn varint_bytes(x: nat) -> Seq<u8>
    decreases x,
{
    if x < 128 {
        seq![x as u8]
    } else {
        seq![(x % 128 + 128) as u8] + varint_bytes(x / 128)
    }
}

/// The encoding of a signed 32-bit value: the group stream of its bit pattern.
pub open spec fn varint_enc(n: i32) -> Seq<u8> {
    varint_bytes(u32_of_i32(n))
}

/// Outcome of scanning a group stream from the front of a byte sequence.
pub ghost enum VarIntScan {
    /// A terminating group was found: the accumulated raw (unreduced) value
    /// and the number of bytes consumed.
    Found { value: nat, len: nat },
    /// The sequence ended before a terminating group.
    Short,
    /// Every allowed group carried the continuation flag.
    TooLong,
}

/// Scans up to `allowed` groups from the front of `s`.
pub open spec fn varint_scan(s: Seq<u8>, allowed: nat) -> VarIntScan
    decreases allowed,
{
    if allowed == 0 {
        VarIntScan::TooLong
    } else if s.len() == 0 {
        VarIntScan::Short
    } else if s[0] < 128 {
        VarIntScan::Found { value: s[0] as nat, len: 1 }
    } else {
        match varint_scan(s.drop_first(), (allowed - 1) as nat) {
            VarIntScan::Found { value, len } => VarIntScan::Found {
                value: ((s[0] - 128) + 128 * value) as nat,
                len: len + 1,
            },
            e => e,
        }
    }
}

/// Decoding a 32-bit variable-length integer from the front of `s`.
pub open spec fn varint_dec(s: Seq<u8>) -> VarIntScan {
    varint_scan(s, 5)
}

/// The signed 32-bit value denoted by a raw scanned accumulation: bits beyond
/// the 32nd are discarded, as the wire format specifies.
pub open spec fn varint_value(raw: nat) -> int {
    i32_of_u32(raw % 0x1_0000_0000)
}

/// Rebases a scan of a stream's tail onto the whole stream: `acc` and `i` are
/// the value and count of the `i` continuation groups already consumed, and
/// `p == pow128(i)`.
pub open spec fn scan_rebase(d: VarIntScan, acc: nat, p: nat, i: nat) -> VarIntScan {
    match d {
        VarIntScan::Found { value, len } => VarIntScan::Found {
            value: acc + p * value,
            len: len + i,
        },
        e => e,
    }
}

/// The first six powers of 128.
pub proof fn lemma_pow128_values()
    ensures
        pow128(0) == 1,
        pow128(1) == 128,
        pow128(2) == 16384,
        pow128(3) == 0x20_0000,
        pow128(4) == 0x1000_0000,
        pow128(5) == 0x8_0000_0000,
{
    reveal_with_fuel(pow128, 6);
}

/// A group stream is never empty, and `x < 128^k` fits in `k` groups.
pub proof fn lemma_varint_bytes_len(x: nat, k: nat)
    requires
        1 <= k,
        x < pow128(k),
    ensures
        1 <= varint_bytes(x).len() <= k,
    decreases k,
{
    lemma_pow128_values();
    if x >= 128 {
        assert(k >= 2);
        assert(x / 128 < pow128((k - 1) as nat)) by (nonlinear_arith)
            requires
                x < 128 * pow128((k - 1) as nat),
        ;
        lemma_varint_bytes_len(x / 128, (k - 1) as nat);
    }
}

/// A found scan consumed between one and `allowed` bytes, no more than the
/// stream holds, and its raw value is below `128^len`.
pub proof fn lemma_scan_bound(s: Seq<u8>, allowed: nat)
    requires
        varint_scan(s, allowed) is Found,
    ensures
        1 <= varint_scan(s, allowed)->len <= allowed,
        varint_scan(s, allowed)->len <= s.len(),
        varint_scan(s, allowed)->value < pow128(varint_scan(s, allowed)->len),
    decreases allowed,
{
    lemma_pow128_values();
    if allowed > 0 && s.len() > 0 && s[0] >= 128 {
        lemma_scan_bound(s.drop_first(), (allowed - 1) as nat);
        let inner = varint_scan(s.drop_first(), (allowed - 1) as nat);
        if inner is Found {
            assert((s[0] - 128) + 128 * inner->value < 128 * pow128(inner->len))
                by (nonlinear_arith)
                requires
                    inner->value < pow128(inner->len),
                    128 <= s[0] < 256,
            ;
        }
    }
}

/// Scanning a group stream followed by anything finds exactly the encoded
/// value and consumes exactly the stream.
pub proof fn lemma_scan_of_enc(x: nat, allowed: nat, rest: Seq<u8>)
    requires
        varint_bytes(x).len() <= allowed,
    ensures
        varint_scan(varint_bytes(x) + rest, allowed) == (VarIntScan::Found {
            value: x,
            len: varint_bytes(x).len(),
        }),
    decreases x,
{
    let s = varint_bytes(x) + rest;
    if x < 128 {
        assert(s[0] == x as u8);
    } else {
        assert(s[0] == (x % 128 + 128) as u8);
        assert(s.drop_first() =~= varint_bytes(x / 128) + rest);
        lemma_scan_of_enc(x / 128, (allowed - 1) as nat, rest);
        assert(x % 128 + 128 * (x / 128) == x) by (nonlinear_arith);
    }
}

/// Round trip: decoding an encoding, whatever follows it, finds the original
/// value, consumes exactly the encoding, and the encoding has one to five bytes.
pub proof fn lemma_varint_roundtrip(n: i32, rest: Seq<u8>)
    ensures
        varint_dec(varint_enc(n) + rest) == (VarIntScan::Found {
            value: u32_of_i32(n),
            len: varint_enc(n).len(),
        }),
        varint_value(u32_of_i32(n)) == n as int,
        1 <= varint_enc(n).len() <= 5,
{
    let x = u32_of_i32(n);
    lemma_pow128_values();
    lemma_varint_bytes_len(x, 5);
    lemma_scan_of_enc(x, 5, rest);
}

/// Minimality: any stream whose scan yields the value `n` spends at least as
/// many bytes as the encoding of `n`.
pub proof fn lemma_varint_minimal(s: Seq<u8>, n: i32)
    requires
        varint_dec(s) is Found,
        varint_value(varint_dec(s)->value) == n as int,
    ensures
        varint_enc(n).len() <= varint_dec(s)->len,
{
    let raw = varint_dec(s)->value;
    let m = varint_dec(s)->len;
    let x = u32_of_i32(n);
    lemma_scan_bound(s, 5);
    lemma_pow128_values();
    if m <= 4 {
        assert(pow128(m) <= pow128(4));
        assert(raw < 0x1_0000_0000);
        assert(raw % 0x1_0000_0000 == raw);
        assert(x == raw);
        lemma_varint_bytes_len(x, m);
    } else {
        lemma_varint_bytes_len(x, 5);
    }
}

/// Locality: a found scan is determined by the bytes it consumed; any stream
/// sharing that prefix scans to the same outcome.
pub proof fn lemma_scan_local(s: Seq<u8>, allowed: nat, s2: Seq<u8>)
    requires
        varint_scan(s, allowed) is Found,
        varint_scan(s, allowed)->len <= s2.len(),
        s2.subrange(0, varint_scan(s, allowed)->len as int) == s.subrange(
            0,
            varint_scan(s, allowed)->len as int,
        ),
    ensures
        varint_scan(s2, allowed) == varint_scan(s, allowed),
    decreases allowed,
{
    let m = varint_scan(s, allowed)->len as int;
    lemma_scan_bound(s, allowed);
    assert(s2[0] == s.subrange(0, m)[0]);
    if s[0] >= 128 {
        let m1 = varint_scan(s.drop_first(), (allowed - 1) as nat)->len as int;
        lemma_scan_bound(s.drop_first(), (allowed - 1) as nat);
        assert(s2.drop_first().subrange(0, m1) =~= s.drop_first().subrange(0, m1)) by {
            assert forall|j: int| 0 <= j < m1 implies s2.drop_first()[j] == s.drop_first()[j] by {
                assert(s2[j + 1] == s.subrange(0, m)[j + 1]);
            }
        }
        lemma_scan_local(s.drop_first(), (allowed - 1) as nat, s2.drop_first());
    }
}

/// A strict prefix of the bytes a found scan consumed scans as short input.
pub proof fn lemma_scan_prefix_short(s: Seq<u8>, allowed: nat, j: int)
    requires
        varint_scan(s, allowed) is Found,
        0 <= j < varint_scan(s, allowed)->len,
    ensures
        varint_scan(s.subrange(0, j), allowed) == VarIntScan::Short,
    decreases allowed,
{
    lemma_scan_bound(s, allowed);
    if j > 0 {
        assert(s.subrange(0, j)[0] == s[0]);
        assert(s[0] >= 128);
        assert(s.subrange(0, j).drop_first() =~= s.drop_first().subrange(0, j - 1));
        lemma_scan_prefix_short(s.drop_first(), (allowed - 1) as nat, j - 1);
    }
}

/// Rebasing composes: consuming two runs of continuation groups in turn is
/// consuming their concatenation.
pub proof fn lemma_rebase_compose(d: VarIntScan, a1: nat, p1: nat, i1: nat, a2: nat, p2: nat, i2: nat)
    ensures
        scan_rebase(scan_rebase(d, a2, p2, i2), a1, p1, i1) == scan_rebase(
            d,
            a1 + p1 * a2,
            p1 * p2,
            i1 + i2,
        ),
{
    if let VarIntScan::Found { value, len } = d {
        assert(a1 + p1 * (a2 + p2 * value) == (a1 + p1 * a2) + (p1 * p2) * value)
            by (nonlinear_arith);
    }
}

/// The signed reading of a value's own bit pattern is the value.
pub proof fn lemma_u32_i32_inverse(n: i32)
    ensures
        i32_of_u32(u32_of_i32(n)) == n as int,
        u32_of_i32(n) < 0x1_0000_0000,
{
}

/// Reinterprets unsigned 32-bit bits as a signed value.
pub fn u32_to_i32(x: u32) -> (r: i32)
    ensures
        r as int == i32_of_u32(x as nat),
{
    if x < 0x8000_0000 {
        x as i32
    } else {
        ((x as i64) - 0x1_0000_0000) as i32
    }
}

/// Reinterprets a signed value as its unsigned 32-bit bit pattern.
pub fn i32_to_u32(n: i32) -> (r: u32)
    ensures
        r as nat == u32_of_i32(n),
{
    if n >= 0 {
        n as u32
    } else {
        ((n as i64) + 0x1_0000_0000) as u32
    }
}

/// Reads a variable-length 32-bit integer from `bytes` at `pos`.
pub fn read_varint(bytes: &Vec<u8>, pos: &mut usize, _version: ProtocolVersion) -> (r: Result<
    i32,
    CodecError,
>)
    requires
        *old(pos) <= bytes@.len(),
    ensures
        *old(pos) <= *final(pos) <= bytes@.len(),
        (match varint_dec(bytes@.skip(*old(pos) as int)) {
            VarIntScan::Found { value, len } => r matches Ok(v) && v as int == varint_value(value)
                && *final(pos) == *old(pos) + len,
            VarIntScan::Short => r matches Err(e) && e.kind == ErrorKind::TruncatedInput
                && e.trail@.len() == 0,
            VarIntScan::TooLong => r matches Err(e) && e.kind == ErrorKind::CorruptVarInt
                && e.trail@.len() == 0,
        }),
{
    let ghost s0 = bytes@.skip(*old(pos) as int);
    let mut acc: u64 = 0;
    let mut p: u64 = 1;
    let mut i: usize = 0;
    proof {
        assert(s0.skip(0) =~= s0);
    }
    while i < 5
        invariant
            i <= 5,
            *pos == *old(pos) + i,
            *pos <= bytes@.len(),
            s0 == bytes@.skip(*old(pos) as int),
            p == pow128(i as nat),
            acc < p,
            varint_dec(s0) == scan_rebase(
                varint_scan(s0.skip(i as int), (5 - i) as nat),
                acc as nat,
                p as nat,
                i as nat,
            ),
        decreases 5 - i,
    {
        proof {
            lemma_pow128_values();
            assert(pow128(i as nat) <= pow128(4));
        }
        let ghost rem = s0.skip(i as int);
        if *pos >= bytes.len() {
            proof {
                assert(rem.len() == 0);
            }
            return Err(CodecError::new(ErrorKind::TruncatedInput));
        }
        let b = bytes[*pos];
        *pos += 1;
        proof {
            assert(rem.len() > 0);
            assert(rem[0] == bytes@[*old(pos) + i]);
        }
        if b < 128 {
            proof {
                assert(varint_scan(rem, (5 - i) as nat) == (VarIntScan::Found {
                    value: b as nat,
                    len: 1nat,
                }));
                assert(acc + p * b < p * 128) by (nonlinear_arith)
                    requires
                        acc < p,
                        b < 128,
                ;
                assert(p * 128 <= 0x1000_0000 * 128) by (nonlinear_arith)
                    requires
                        p <= 0x1000_0000,
                ;
            }
            let raw: u64 = acc + p * (b as u64);
            let reduced: u32 = (raw % 0x1_0000_0000) as u32;
            return Ok(u32_to_i32(reduced));
        }
        proof {
            let d_inner = varint_scan(s0.skip(i + 1), (5 - (i + 1)) as nat);
            assert(rem.drop_first() =~= s0.skip(i + 1));
            assert(varint_scan(rem, (5 - i) as nat) == scan_rebase(
                d_inner,
                (b - 128) as nat,
                128,
                1,
            ));
            lemma_rebase_compose(
                d_inner,
                acc as nat,
                p as nat,
                i as nat,
                (b - 128) as nat,
                128,
                1,
            );
            assert(acc + p * (b - 128) < p * 128) by (nonlinear_arith)
                requires
                    acc < p,
                    b - 128 < 128,
            ;
            assert(p * 128 <= 0x1000_0000 * 128) by (nonlinear_arith)
                requires
                    p <= 0x1000_0000,
            ;
        }
        acc = acc + p * ((b - 128) as u64);
        p = p * 128;
        i += 1;
    }
    proof {
        assert(varint_scan(s0.skip(5), 0nat) == VarIntScan::TooLong);
    }
    Err(CodecError::new(ErrorKind::CorruptVarInt))
}

/// Writes the minimal variable-length encoding of `n` to `out`.
pub fn write_varint(n: i32, out: &mut Vec<u8>, _version: ProtocolVersion)
    ensures
        final(out)@ == old(out)@ + varint_enc(n),
{
    let mut x: u32 = i32_to_u32(n);
    loop
        invariant
            old(out)@ + varint_enc(n) == out@ + varint_bytes(x as nat),
        decreases x,
    {
        if x < 128 {
            out.push(x as u8);
            proof {
                assert(out@ =~= old(out)@ + varint_enc(n));
            }
            return ;
        }
        out.push((x % 128 + 128) as u8);
        proof {
            assert(varint_bytes(x as nat) == seq![(x as nat % 128 + 128) as u8] + varint_bytes(
                x as nat / 128,
            ));
        }
        x = x / 128;
    }
}

} // verus!
